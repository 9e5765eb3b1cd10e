use vstd::prelude::*;
use crate::text::{
    chars_lt, lemma_lex_asymmetric, lemma_lex_irreflexive, lemma_lex_total, lemma_lex_transitive, lex_lt,    append_chars, chars_of, first_at, is_blank, is_ws, lemma_first_at_unique,
    lemma_split_extend, lemma_split_nonempty, lemma_split_pieces_lack_sep, lemma_trim_fixed,
    lemma_trim_shape, opt_chars, split, substring, trim, trim_bounds,
};

verus! {

/// An ordered list of monitor → video assignments.
pub type Entries = Seq<(Seq<char>, Seq<char>)>;

pub open spec fn has_key(es: Entries, k: Seq<char>) -> bool {
    exists|j: int| 0 <= j < es.len() && es[j].0 == k
}

pub open spec fn key_index(es: Entries, k: Seq<char>) -> int {
    choose|j: int| 0 <= j < es.len() && es[j].0 == k
}

pub open spec fn unique_keys(es: Entries) -> bool {
    forall|i: int, j: int| 0 <= i < es.len() && 0 <= j < es.len() && i != j ==> es[i].0 != es[j].0
}

/// The video assigned to `k`, if any.
pub open spec fn lookup(es: Entries, k: Seq<char>) -> Option<Seq<char>> {
    if has_key(es, k) {
        Some(es[key_index(es, k)].1)
    } else {
        None
    }
}

/// Keys in ascending order, the order of `String`'s `Ord`.
pub open spec fn sorted_keys(es: Entries) -> bool {
    forall|i: int, j: int| 0 <= i < j < es.len() ==> lex_lt(es[i].0, es[j].0)
}

/// A valid list of assignments: each monitor once, in ascending order.
pub open spec fn wf_entries(es: Entries) -> bool {
    unique_keys(es) && sorted_keys(es)
}

/// `p` is where `k` belongs among the keys of `es`: after the smaller ones,
/// before the larger ones.
pub open spec fn insert_pos(es: Entries, k: Seq<char>, p: int) -> bool {
    &&& 0 <= p <= es.len()
    &&& forall|i: int| 0 <= i < p ==> lex_lt(#[trigger] es[i].0, k)
    &&& forall|i: int| p <= i < es.len() ==> lex_lt(k, #[trigger] es[i].0)
}

/// Assigns `v` to `k`: in place when `k` is listed, else at its place in key
/// order.
pub open spec fn insert(es: Entries, k: Seq<char>, v: Seq<char>) -> Entries {
    if has_key(es, k) {
        es.update(key_index(es, k), (k, v))
    } else {
        es.insert(choose|p: int| insert_pos(es, k, p), (k, v))
    }
}

/// Drops the assignment of `k`, keeping the order of the others.
pub open spec fn remove(es: Entries, k: Seq<char>) -> Entries {
    if has_key(es, k) {
        es.remove(key_index(es, k))
    } else {
        es
    }
}

/// The assignment that one piece of text states: trimmed, not empty, not a
/// comment when comments are allowed, split at the first `kv`, both sides
/// trimmed and not empty.
pub open spec fn parse_entry(piece: Seq<char>, kv: char, comments: bool) -> Option<
    (Seq<char>, Seq<char>),
> {
    let t = trim(piece);
    if t.len() == 0 || (comments && t[0] == '#') {
        None
    } else if exists|i: int| first_at(t, kv, i) {
        let i = choose|i: int| first_at(t, kv, i);
        let k = trim(t.subrange(0, i));
        let v = trim(t.subrange(i + 1, t.len() as int));
        if k.len() == 0 || v.len() == 0 {
            None
        } else {
            Some((k, v))
        }
    } else {
        None
    }
}

/// Applies the assignments of `pieces` in order to `es`; a later one for the
/// same monitor wins.
pub open spec fn apply_pieces(es: Entries, pieces: Seq<Seq<char>>, kv: char, comments: bool) -> Entries
    decreases pieces.len(),
{
    if pieces.len() == 0 {
        es
    } else {
        let prev = apply_pieces(es, pieces.drop_last(), kv, comments);
        match parse_entry(pieces.last(), kv, comments) {
            Some(e) => insert(prev, e.0, e.1),
            None => prev,
        }
    }
}

/// The assignments of a text whose entries are separated by `entry_sep`.
pub open spec fn parse_text(s: Seq<char>, entry_sep: char, kv: char, comments: bool) -> Entries {
    apply_pieces(Seq::empty(), split(s, entry_sep), kv, comments)
}

/// The mapping file's format: one `monitor=path` per line, `#` comments.
pub open spec fn parse_file_spec(s: Seq<char>) -> Entries {
    parse_text(s, '\n', '=', true)
}

/// The environment's format: `monitor:path` entries separated by `;`.
pub open spec fn parse_env_spec(s: Seq<char>) -> Entries {
    parse_text(s, ';', ':', false)
}

proof fn lemma_insert_pos_exists(es: Entries, k: Seq<char>)
    requires
        sorted_keys(es),
        !has_key(es, k),
    ensures
        exists|p: int| insert_pos(es, k, p),
    decreases es.len(),
{
    if es.len() == 0 {
        assert(insert_pos(es, k, 0));
    } else {
        let prev = es.drop_last();
        let last = es.last();
        assert(sorted_keys(prev)) by {
            assert forall|i: int, j: int| 0 <= i < j < prev.len() implies lex_lt(prev[i].0, prev[j].0) by {
                assert(prev[i] == es[i] && prev[j] == es[j]);
            }
        }
        assert(!has_key(prev, k)) by {
            if has_key(prev, k) {
                let j = key_index(prev, k);
                assert(es[j] == prev[j]);
            }
        }
        lemma_insert_pos_exists(prev, k);
        let p = choose|p: int| insert_pos(prev, k, p);
        assert(last.0 != k) by {
            assert(es[es.len() - 1] == last);
        }
        lemma_lex_total(last.0, k);
        if lex_lt(last.0, k) {
            assert forall|i: int| 0 <= i < es.len() implies lex_lt(#[trigger] es[i].0, k) by {
                if i < es.len() - 1 {
                    lemma_lex_transitive(es[i].0, last.0, k);
                }
            }
            assert(insert_pos(es, k, es.len() as int));
        } else {
            assert forall|i: int| 0 <= i < p implies lex_lt(#[trigger] es[i].0, k) by {
                assert(es[i] == prev[i]);
            }
            assert forall|i: int| p <= i < es.len() implies lex_lt(k, #[trigger] es[i].0) by {
                if i < es.len() - 1 {
                    assert(es[i] == prev[i]);
                }
            }
            assert(insert_pos(es, k, p));
        }
    }
}

proof fn lemma_insert_pos_unique(es: Entries, k: Seq<char>, p: int, q: int)
    requires
        insert_pos(es, k, p),
        insert_pos(es, k, q),
    ensures
        p == q,
{
    if p < q {
        lemma_lex_asymmetric(es[p].0, k);
    } else if q < p {
        lemma_lex_asymmetric(es[q].0, k);
    }
}

/// Where a new key goes, and that it is not listed yet.
proof fn lemma_insert_pos_absent(es: Entries, k: Seq<char>, p: int)
    requires
        insert_pos(es, k, p),
    ensures
        !has_key(es, k),
        (choose|q: int| insert_pos(es, k, q)) == p,
{
    if has_key(es, k) {
        let j = key_index(es, k);
        lemma_lex_irreflexive(k);
        if j < p {
            assert(lex_lt(es[j].0, k));
        } else {
            assert(lex_lt(k, es[j].0));
        }
    }
    let q = choose|q: int| insert_pos(es, k, q);
    lemma_insert_pos_unique(es, k, p, q);
}

/// In a valid list the last assignment is the largest key: putting it back
/// into the rest gives the list again.
proof fn lemma_last_of_sorted(es: Entries)
    requires
        wf_entries(es),
        es.len() > 0,
    ensures
        wf_entries(es.drop_last()),
        !has_key(es.drop_last(), es.last().0),
        insert(es.drop_last(), es.last().0, es.last().1) == es,
{
    let prev = es.drop_last();
    let e = es.last();
    assert(wf_entries(prev)) by {
        assert forall|i: int, j: int| 0 <= i < j < prev.len() implies lex_lt(prev[i].0, prev[j].0) by {
            assert(prev[i] == es[i] && prev[j] == es[j]);
        }
        assert forall|i: int, j: int| 0 <= i < prev.len() && 0 <= j < prev.len() && i != j implies prev[i].0 != prev[j].0 by {
            assert(prev[i] == es[i] && prev[j] == es[j]);
        }
    }
    assert(insert_pos(prev, e.0, prev.len() as int)) by {
        assert forall|i: int| 0 <= i < prev.len() implies lex_lt(#[trigger] prev[i].0, e.0) by {
            assert(prev[i] == es[i]);
            assert(es[es.len() - 1] == e);
        }
    }
    lemma_insert_pos_absent(prev, e.0, prev.len() as int);
    assert(prev.insert(prev.len() as int, (e.0, e.1)) =~= es);
}

pub proof fn lemma_insert(es: Entries, k: Seq<char>, v: Seq<char>)
    requires
        wf_entries(es),
    ensures
        wf_entries(insert(es, k, v)),
        forall|x: Seq<char>| #[trigger]
            lookup(insert(es, k, v), x) == if x == k {
                Some(v)
            } else {
                lookup(es, x)
            },
{
    let r = insert(es, k, v);
    if has_key(es, k) {
        let j = key_index(es, k);
        assert(sorted_keys(r)) by {
            assert forall|a: int, b: int| 0 <= a < b < r.len() implies lex_lt(r[a].0, r[b].0) by {
                assert(r[a].0 == es[a].0 && r[b].0 == es[b].0);
            }
        }
        assert forall|x: Seq<char>| #[trigger]
            lookup(r, x) == if x == k {
                Some(v)
            } else {
                lookup(es, x)
            } by {
            if x == k {
                assert(r[j].0 == k);
                let j2 = key_index(r, k);
                assert(j2 == j);
            } else {
                if has_key(es, x) {
                    let i = key_index(es, x);
                    assert(i != j);
                    assert(r[i].0 == x);
                    let i2 = key_index(r, x);
                    assert(i2 == i);
                } else {
                    assert(!has_key(r, x)) by {
                        if has_key(r, x) {
                            let i2 = key_index(r, x);
                            assert(i2 != j);
                            assert(es[i2].0 == x);
                        }
                    }
                }
            }
        }
    } else {
        lemma_insert_pos_exists(es, k);
        let p = choose|p: int| insert_pos(es, k, p);
        assert(r == es.insert(p, (k, v)));
        assert(forall|i: int| 0 <= i < p ==> r[i] == es[i]);
        assert(forall|i: int| p < i < r.len() ==> r[i] == es[i - 1]);
        assert(r[p] == (k, v));
        assert(sorted_keys(r)) by {
            assert forall|a: int, b: int| 0 <= a < b < r.len() implies lex_lt(r[a].0, r[b].0) by {
                if b < p {
                } else if b == p {
                    assert(lex_lt(es[a].0, k));
                } else if a < p {
                    assert(lex_lt(es[a].0, es[b - 1].0));
                } else if a == p {
                    assert(lex_lt(k, es[b - 1].0));
                } else {
                    assert(lex_lt(es[a - 1].0, es[b - 1].0));
                }
            }
        }
        assert(unique_keys(r)) by {
            assert forall|a: int, b: int| 0 <= a < r.len() && 0 <= b < r.len() && a != b implies r[a].0 != r[b].0 by {
                if a < b {
                    lemma_lex_irreflexive(r[a].0);
                } else {
                    lemma_lex_irreflexive(r[b].0);
                }
            }
        }
        assert forall|x: Seq<char>| #[trigger]
            lookup(r, x) == if x == k {
                Some(v)
            } else {
                lookup(es, x)
            } by {
            if x == k {
                let j2 = key_index(r, k);
                assert(j2 == p);
            } else {
                if has_key(es, x) {
                    let i = key_index(es, x);
                    let i2 = if i < p { i } else { i + 1 };
                    assert(r[i2].0 == x);
                    let i3 = key_index(r, x);
                    assert(i3 == i2);
                } else {
                    assert(!has_key(r, x)) by {
                        if has_key(r, x) {
                            let i2 = key_index(r, x);
                            if i2 < p {
                                assert(es[i2].0 == x);
                            } else {
                                assert(es[i2 - 1].0 == x);
                            }
                        }
                    }
                }
            }
        }
    }
}

pub proof fn lemma_apply_wf(es: Entries, pieces: Seq<Seq<char>>, kv: char, comments: bool)
    requires
        wf_entries(es),
    ensures
        wf_entries(apply_pieces(es, pieces, kv, comments)),
    decreases pieces.len(),
{
    if pieces.len() > 0 {
        lemma_apply_wf(es, pieces.drop_last(), kv, comments);
        let prev = apply_pieces(es, pieces.drop_last(), kv, comments);
        if let Some(e) = parse_entry(pieces.last(), kv, comments) {
            lemma_insert(prev, e.0, e.1);
        }
    }
}

/// Monitor → video assignments, each monitor listed once, in ascending order
/// of monitor name.
pub struct VideoMap {
    entries: Vec<(String, String)>,
}

impl View for VideoMap {
    type V = Entries;

    closed spec fn view(&self) -> Entries {
        Seq::new(self.entries@.len(), |i: int| (self.entries@[i].0@, self.entries@[i].1@))
    }
}


impl VideoMap {
    pub open spec fn wf(&self) -> bool {
        wf_entries(self@)
    }

    pub fn new() -> (r: Self)
        ensures
            r@ == Entries::empty(),
            r.wf(),
    {
        let r = VideoMap { entries: Vec::new() };
        assert(r@ =~= Entries::empty());
        r
    }

    pub fn len(&self) -> (r: usize)
        ensures
            r == self@.len(),
    {
        self.entries.len()
    }

    /// The assignment at position `i`.
    pub fn entry(&self, i: usize) -> (r: (String, String))
        requires
            i < self@.len(),
        ensures
            (r.0@, r.1@) == self@[i as int],
    {
        let e = &self.entries[i];
        (e.0.clone(), e.1.clone())
    }

    fn position(&self, monitor: &String) -> (r: Option<usize>)
        ensures
            match r {
                Some(j) => j < self@.len() && self@[j as int].0 == monitor@,
                None => !has_key(self@, monitor@),
            },
    {
        let mut j: usize = 0;
        while j < self.entries.len()
            invariant
                j <= self@.len(),
                self@.len() == self.entries@.len(),
                forall|i: int| 0 <= i < j ==> self@[i].0 != monitor@,
            decreases self@.len() - j,
        {
            if self.entries[j].0 == *monitor {
                return Some(j);
            }
            j = j + 1;
        }
        None
    }

    /// The video assigned to `monitor`, if any.
    pub fn get(&self, monitor: &str) -> (r: Option<String>)
        requires
            self.wf(),
        ensures
            opt_chars(r) == lookup(self@, monitor@),
    {
        let key = monitor.to_owned();
        match self.position(&key) {
            Some(j) => {
                assert(key_index(self@, monitor@) == j);
                Some(self.entries[j].1.clone())
            },
            None => None,
        }
    }

    /// Assigns `video` to `monitor`, replacing an earlier assignment in place,
    /// else placing it in key order.
    pub fn insert(&mut self, monitor: String, video: String)
        requires
            old(self).wf(),
        ensures
            final(self)@ == insert(old(self)@, monitor@, video@),
            final(self).wf(),
    {
        proof {
            lemma_insert(self@, monitor@, video@);
        }
        let kc = chars_of(monitor.as_str());
        let mut p: usize = 0;
        while p < self.entries.len() && chars_lt(&chars_of(self.entries[p].0.as_str()), &kc)
            invariant
                p <= self@.len(),
                self@.len() == self.entries@.len(),
                kc@ == monitor@,
                forall|m: int| 0 <= m < p ==> lex_lt(#[trigger] self@[m].0, monitor@),
            decreases self@.len() - p,
        {
            p = p + 1;
        }
        if p < self.entries.len() && self.entries[p].0 == monitor {
            assert(self@[p as int].0 == monitor@);
            assert(key_index(self@, monitor@) == p);
            self.entries.set(p, (monitor, video));
            assert(self@ =~= insert(old(self)@, monitor@, video@));
        } else {
            proof {
                let es = self@;
                if p < es.len() {
                    lemma_lex_total(es[p as int].0, monitor@);
                }
                assert forall|i: int| p <= i < es.len() implies lex_lt(monitor@, #[trigger] es[i].0) by {
                    if i > p {
                        lemma_lex_transitive(monitor@, es[p as int].0, es[i].0);
                    }
                }
                assert(insert_pos(es, monitor@, p as int));
                lemma_insert_pos_absent(es, monitor@, p as int);
            }
            self.entries.insert(p, (monitor, video));
            assert(self@ =~= insert(old(self)@, monitor@, video@));
        }
    }

    /// Drops the assignment of `monitor`; returns whether there was one.
    pub fn remove(&mut self, monitor: &str) -> (removed: bool)
        requires
            old(self).wf(),
        ensures
            final(self)@ == remove(old(self)@, monitor@),
            removed == has_key(old(self)@, monitor@),
            final(self).wf(),
    {
        let key = monitor.to_owned();
        match self.position(&key) {
            Some(j) => {
                assert(key_index(self@, monitor@) == j);
                self.entries.remove(j);
                assert(self@ =~= remove(old(self)@, monitor@));
                assert(sorted_keys(self@)) by {
                    let es = old(self)@;
                    assert forall|a: int, b: int| 0 <= a < b < self@.len() implies lex_lt(
                        self@[a].0,
                        self@[b].0,
                    ) by {
                        let a2 = if a < j { a } else { a + 1 };
                        let b2 = if b < j { b } else { b + 1 };
                        assert(self@[a] == es[a2] && self@[b] == es[b2]);
                    }
                }
                true
            },
            None => false,
        }
    }

    /// Applies the assignment that `cs[lo..hi]` states, if it states one.
    fn apply_piece(&mut self, cs: &Vec<char>, lo: usize, hi: usize, kv: char, comments: bool)
        requires
            old(self).wf(),
            lo <= hi <= cs@.len(),
        ensures
            final(self).wf(),
            final(self)@ == match parse_entry(cs@.subrange(lo as int, hi as int), kv, comments) {
                Some(e) => insert(old(self)@, e.0, e.1),
                None => old(self)@,
            },
    {
        let ghost piece = cs@.subrange(lo as int, hi as int);
        let (a, b) = trim_bounds(cs, lo, hi);
        let ghost t = cs@.subrange(a as int, b as int);
        if a == b {
            return;
        }
        if comments && cs[a] == '#' {
            return;
        }
        let mut j = a;
        while j < b && cs[j] != kv
            invariant
                a <= j <= b <= cs@.len(),
                forall|i: int| a <= i < j ==> cs@[i] != kv,
            decreases b - j,
        {
            j = j + 1;
        }
        if j == b {
            assert(!exists|i: int| first_at(t, kv, i)) by {
                if exists|i: int| first_at(t, kv, i) {
                    let i = choose|i: int| first_at(t, kv, i);
                    assert(cs@[a + i] == t[i]);
                }
            }
            return;
        }
        let ghost fi = (j - a) as int;
        assert(first_at(t, kv, fi)) by {
            assert forall|i: int| 0 <= i < fi implies t[i] != kv by {
                assert(t[i] == cs@[a + i]);
            }
        }
        proof {
            let c = choose|i: int| first_at(t, kv, i);
            lemma_first_at_unique(t, kv, c, fi);
            assert(t.subrange(0, fi) =~= cs@.subrange(a as int, j as int));
            assert(t.subrange(fi + 1, t.len() as int) =~= cs@.subrange(j + 1, b as int));
        }
        let (ka, kb) = trim_bounds(cs, a, j);
        let (va, vb) = trim_bounds(cs, j + 1, b);
        if ka == kb || va == vb {
            return;
        }
        let k = substring(cs, ka, kb);
        let v = substring(cs, va, vb);
        self.insert(k, v);
    }

    /// The assignments of `text`, entries separated by `entry_sep`, monitor
    /// and video separated by the first `kv` of an entry.
    pub fn parse_text(text: &str, entry_sep: char, kv: char, comments: bool) -> (r: Self)
        ensures
            r@ == parse_text(text@, entry_sep, kv, comments),
            r.wf(),
    {
        let cs = chars_of(text);
        let mut map = VideoMap::new();
        let mut start: usize = 0;
        let mut i: usize = 0;
        proof {
            lemma_split_nonempty(cs@.subrange(0, 0), entry_sep);
            assert(cs@.subrange(0, 0) =~= Seq::<char>::empty());
        }
        while i < cs.len()
            invariant
                start <= i <= cs@.len(),
                map.wf(),
                split(cs@.subrange(0, i as int), entry_sep).len() >= 1,
                map@ == apply_pieces(
                    Seq::empty(),
                    split(cs@.subrange(0, i as int), entry_sep).drop_last(),
                    kv,
                    comments,
                ),
                split(cs@.subrange(0, i as int), entry_sep).last() == cs@.subrange(
                    start as int,
                    i as int,
                ),
            decreases cs@.len() - i,
        {
            let ghost before = split(cs@.subrange(0, i as int), entry_sep);
            assert(cs@.subrange(0, i + 1).drop_last() =~= cs@.subrange(0, i as int));
            assert(cs@.subrange(0, i + 1).last() == cs@[i as int]);
            if cs[i] == entry_sep {
                map.apply_piece(&cs, start, i, kv, comments);
                proof {
                    let after = split(cs@.subrange(0, i + 1), entry_sep);
                    assert(after.drop_last() =~= before);
                    assert(before.drop_last().push(before.last()) =~= before);
                    assert(cs@.subrange(i + 1, i + 1) =~= Seq::<char>::empty());
                }
                start = i + 1;
            } else {
                proof {
                    let after = split(cs@.subrange(0, i + 1), entry_sep);
                    assert(after.drop_last() =~= before.drop_last());
                    assert(cs@.subrange(start as int, i + 1) =~= cs@.subrange(
                        start as int,
                        i as int,
                    ).push(cs@[i as int]));
                }
            }
            i = i + 1;
        }
        let ghost pieces = split(cs@.subrange(0, i as int), entry_sep);
        map.apply_piece(&cs, start, cs.len(), kv, comments);
        proof {
            assert(cs@.subrange(0, i as int) =~= cs@);
            assert(pieces.drop_last().push(pieces.last()) =~= pieces);
        }
        map
    }
}


/// `es` with the assignments of `more` applied in order.
pub open spec fn insert_all(es: Entries, more: Entries) -> Entries
    decreases more.len(),
{
    if more.len() == 0 {
        es
    } else {
        let prev = insert_all(es, more.drop_last());
        insert(prev, more.last().0, more.last().1)
    }
}

/// The video a monitor plays: its merged assignment, else the default.
pub open spec fn resolved(merged: Entries, default_video: Option<Seq<char>>, monitor: Seq<char>) -> Option<Seq<char>> {
    match lookup(merged, monitor) {
        Some(v) => Some(v),
        None => default_video,
    }
}

pub proof fn lemma_insert_all(es: Entries, more: Entries)
    requires
        wf_entries(es),
        wf_entries(more),
    ensures
        wf_entries(insert_all(es, more)),
        forall|x: Seq<char>| #[trigger]
            lookup(insert_all(es, more), x) == if has_key(more, x) {
                lookup(more, x)
            } else {
                lookup(es, x)
            },
    decreases more.len(),
{
    if more.len() > 0 {
        let m2 = more.drop_last();
        let (k, v) = more.last();
        lemma_last_of_sorted(more);
        lemma_insert_all(es, m2);
        let prev = insert_all(es, m2);
        lemma_insert(prev, k, v);
        lemma_insert(m2, k, v);
        assert forall|x: Seq<char>| #[trigger]
            lookup(insert_all(es, more), x) == if has_key(more, x) {
                lookup(more, x)
            } else {
                lookup(es, x)
            } by {
            if x != k {
                if has_key(more, x) {
                    let j = key_index(more, x);
                    assert(j != more.len() - 1);
                    assert(m2[j].0 == x);
                } else {
                    assert(!has_key(m2, x)) by {
                        if has_key(m2, x) {
                            let j = key_index(m2, x);
                            assert(more[j].0 == x);
                        }
                    }
                }
            } else {
                assert(more[more.len() - 1].0 == k);
            }
        }
    }
}

/// Which video a monitor plays: its entry in the file mapping, else its entry
/// in the environment mapping, else the default, else none.
pub proof fn lemma_resolution_precedence(
    env: Entries,
    file: Entries,
    default_video: Option<Seq<char>>,
    monitor: Seq<char>,
)
    requires
        wf_entries(env),
        wf_entries(file),
    ensures
        resolved(insert_all(env, file), default_video, monitor) == if has_key(file, monitor) {
            lookup(file, monitor)
        } else if has_key(env, monitor) {
            lookup(env, monitor)
        } else {
            default_video
        },
{
    lemma_insert_all(env, file);
}

/// The first line of a written mapping file.
pub const MAP_FILE_HEADER: &'static str = "# monitor=/absolute/path/video.mp4";

/// The line that states one assignment.
pub open spec fn entry_line(e: (Seq<char>, Seq<char>)) -> Seq<char> {
    e.0 + seq!['='] + e.1
}

/// Each line followed by a newline.
pub open spec fn join_lines(ls: Seq<Seq<char>>) -> Seq<char>
    decreases ls.len(),
{
    if ls.len() == 0 {
        Seq::empty()
    } else {
        join_lines(ls.drop_last()) + ls.last() + seq!['\n']
    }
}

/// The lines of a written mapping file: the header, then one per assignment.
pub open spec fn file_lines(es: Entries) -> Seq<Seq<char>> {
    seq![MAP_FILE_HEADER@] + Seq::new(es.len(), |i: int| entry_line(es[i]))
}

/// The text of a mapping file holding `es`.
pub open spec fn render_spec(es: Entries) -> Seq<char> {
    join_lines(file_lines(es))
}

impl VideoMap {
    /// A copy holding the same assignments.
    pub fn duplicate(&self) -> (r: Self)
        ensures
            r@ == self@,
    {
        let mut entries: Vec<(String, String)> = Vec::new();
        let mut i: usize = 0;
        while i < self.entries.len()
            invariant
                i <= self.entries@.len(),
                entries@.len() == i,
                forall|k: int|
                    0 <= k < i ==> entries@[k].0@ == self.entries@[k].0@ && entries@[k].1@
                        == self.entries@[k].1@,
            decreases self.entries@.len() - i,
        {
            let e = &self.entries[i];
            entries.push((e.0.clone(), e.1.clone()));
            i = i + 1;
        }
        let r = VideoMap { entries };
        assert(r@ =~= self@);
        r
    }

    /// The text of a mapping file holding these assignments.
    pub fn render(&self) -> (r: String)
        ensures
            r@ == render_spec(self@),
    {
        let mut out: Vec<char> = Vec::new();
        append_chars(&mut out, MAP_FILE_HEADER);
        out.push('\n');
        proof {
            let ls = file_lines(self@.subrange(0, 0));
            assert(ls =~= seq![MAP_FILE_HEADER@]);
            assert(ls.drop_last() =~= Seq::<Seq<char>>::empty());
            assert(join_lines(ls.drop_last()) == Seq::<char>::empty());
            assert(ls.last() == MAP_FILE_HEADER@);
            assert(join_lines(ls) == join_lines(ls.drop_last()) + ls.last() + seq!['\n']);
            assert(out@ =~= render_spec(self@.subrange(0, 0)));
        }
        let mut i: usize = 0;
        while i < self.entries.len()
            invariant
                i <= self@.len(),
                self@.len() == self.entries@.len(),
                out@ == render_spec(self@.subrange(0, i as int)),
            decreases self@.len() - i,
        {
            let e = &self.entries[i];
            append_chars(&mut out, e.0.as_str());
            out.push('=');
            append_chars(&mut out, e.1.as_str());
            out.push('\n');
            proof {
                let before = file_lines(self@.subrange(0, i as int));
                let after = file_lines(self@.subrange(0, i + 1));
                assert(after.drop_last() =~= before);
                assert(after.last() == entry_line(self@[i as int]));
                assert(out@ =~= join_lines(before) + entry_line(self@[i as int]) + seq!['\n']);
            }
            i = i + 1;
        }
        assert(self@.subrange(0, i as int) =~= self@);
        substring(&out, 0, out.len())
    }
}

/// The environment mapping: `monitor:path` entries separated by `;`.
pub fn parse_video_map_env(raw: &str) -> (r: VideoMap)
    ensures
        r@ == parse_env_spec(raw@),
        r.wf(),
{
    VideoMap::parse_text(raw, ';', ':', false)
}

/// The contents of a mapping file: `monitor=path` lines; blank lines and
/// lines starting with `#` are skipped; the last line for a monitor wins.
pub fn parse_video_map_text(contents: &str) -> (r: VideoMap)
    ensures
        r@ == parse_file_spec(contents@),
        r.wf(),
{
    VideoMap::parse_text(contents, '\n', '=', true)
}

/// The environment mapping overridden, monitor by monitor, by the file mapping.
pub fn merge_maps(env_map: VideoMap, file_map: VideoMap) -> (r: VideoMap)
    requires
        env_map.wf(),
        file_map.wf(),
    ensures
        r@ == insert_all(env_map@, file_map@),
        r.wf(),
{
    let mut merged = env_map;
    let mut i: usize = 0;
    while i < file_map.len()
        invariant
            i <= file_map@.len(),
            merged.wf(),
            merged@ == insert_all(env_map@, file_map@.subrange(0, i as int)),
        decreases file_map@.len() - i,
    {
        let (k, v) = file_map.entry(i);
        merged.insert(k, v);
        assert(file_map@.subrange(0, i + 1).drop_last() =~= file_map@.subrange(0, i as int));
        i = i + 1;
    }
    assert(file_map@.subrange(0, i as int) =~= file_map@);
    merged
}

/// Why a mapping edit was refused.
#[derive(Clone, Copy, Debug, PartialEq, Eq, Structural)]
pub enum MapEditError {
    EmptyMonitor,
    EmptyVideo,
}

impl MapEditError {
    pub fn message(&self) -> (r: String)
        ensures
            self == MapEditError::EmptyMonitor ==> r@ == "monitor is empty"@,
            self == MapEditError::EmptyVideo ==> r@ == "video path is empty"@,
    {
        match self {
            MapEditError::EmptyMonitor => "monitor is empty".to_owned(),
            MapEditError::EmptyVideo => "video path is empty".to_owned(),
        }
    }
}

/// The mapping file's new text once `monitor` is assigned `video`, from its
/// current text (empty when there is no file).
pub fn set_monitor_video(contents: &str, monitor: &str, video: &str) -> (r: Result<String, MapEditError>)
    ensures
        trim(monitor@).len() == 0 ==> r == Err::<String, MapEditError>(MapEditError::EmptyMonitor),
        trim(monitor@).len() > 0 && trim(video@).len() == 0 ==> r == Err::<String, MapEditError>(
            MapEditError::EmptyVideo,
        ),
        trim(monitor@).len() > 0 && trim(video@).len() > 0 ==> (r matches Ok(t) && t@
            == render_spec(insert(parse_file_spec(contents@), monitor@, video@))),
        sorted_keys(insert(parse_file_spec(contents@), monitor@, video@)),
{
    proof {
        lemma_parsed_file_writable(contents@);
        lemma_insert(parse_file_spec(contents@), monitor@, video@);
    }
    if is_blank(monitor) {
        return Err(MapEditError::EmptyMonitor);
    }
    if is_blank(video) {
        return Err(MapEditError::EmptyVideo);
    }
    let mut map = parse_video_map_text(contents);
    map.insert(monitor.to_owned(), video.to_owned());
    Ok(map.render())
}

/// The mapping file's new text once `monitor` has no assignment, and whether
/// it had one.
pub fn unset_monitor_video(contents: &str, monitor: &str) -> (r: (String, bool))
    ensures
        r.0@ == render_spec(remove(parse_file_spec(contents@), monitor@)),
        r.1 == has_key(parse_file_spec(contents@), monitor@),
        sorted_keys(remove(parse_file_spec(contents@), monitor@)),
{
    let mut map = parse_video_map_text(contents);
    let removed = map.remove(monitor);
    (map.render(), removed)
}

/// The assignments of `es` whose monitor is listed in `keep`, in order.
pub open spec fn retain_listed(es: Entries, keep: Seq<Seq<char>>) -> Entries
    decreases es.len(),
{
    if es.len() == 0 {
        es
    } else {
        let prev = retain_listed(es.drop_last(), keep);
        if keep.contains(es.last().0) {
            prev.push(es.last())
        } else {
            prev
        }
    }
}

/// The mapping file's new text once every monitor not named in `except` has
/// lost its assignment, and how many assignments went.
#[verifier::loop_isolation(false)]
pub fn unset_all_monitors(contents: &str, except: &Vec<String>) -> (r: (String, usize))
    ensures
        r.0@ == render_spec(retain_listed(parse_file_spec(contents@), Seq::new(except@.len(), |i: int| except@[i]@))),
        r.1 == parse_file_spec(contents@).len() - retain_listed(
            parse_file_spec(contents@),
            Seq::new(except@.len(), |i: int| except@[i]@),
        ).len(),
{
    let ghost keep = Seq::new(except@.len(), |i: int| except@[i]@);
    let map = parse_video_map_text(contents);
    let mut kept: Vec<(String, String)> = Vec::new();
    let mut i: usize = 0;
    while i < map.entries.len()
        invariant
            i <= map@.len(),
            map@.len() == map.entries@.len(),
            Seq::new(kept@.len(), |k: int| (kept@[k].0@, kept@[k].1@)) == retain_listed(
                map@.subrange(0, i as int),
                keep,
            ),
            kept@.len() <= i,
        decreases map@.len() - i,
    {
        let e = &map.entries[i];
        let mut listed = false;
        let mut j: usize = 0;
        while j < except.len()
            invariant
                j <= except@.len(),
                listed <==> exists|m: int| 0 <= m < j && except@[m]@ == e.0@,
            decreases except@.len() - j,
        {
            if except[j] == e.0 {
                listed = true;
            }
            j = j + 1;
        }
        proof {
            assert(map@.subrange(0, i + 1).drop_last() =~= map@.subrange(0, i as int));
            assert(map@.subrange(0, i + 1).last() == map@[i as int]);
            assert(listed <==> keep.contains(e.0@)) by {
                if listed {
                    let m = choose|m: int| 0 <= m < except@.len() && except@[m]@ == e.0@;
                    assert(keep[m] == e.0@);
                }
                if keep.contains(e.0@) {
                    let m = choose|m: int| 0 <= m < keep.len() && keep[m] == e.0@;
                    assert(except@[m]@ == e.0@);
                }
            }
        }
        let ghost before = kept@;
        if listed {
            kept.push((e.0.clone(), e.1.clone()));
            assert(Seq::new(kept@.len(), |k: int| (kept@[k].0@, kept@[k].1@)) =~= Seq::new(
                before.len(),
                |k: int| (before[k].0@, before[k].1@),
            ).push(map@[i as int]));
        }
        i = i + 1;
    }
    assert(map@.subrange(0, i as int) =~= map@);
    let removed = map.entries.len() - kept.len();
    let rest = VideoMap { entries: kept };
    assert(rest@ =~= Seq::new(rest.entries@.len(), |k: int| (rest.entries@[k].0@, rest.entries@[k].1@)));
    (rest.render(), removed)
}

/// The monitor and the poll clock of the mapping store, with the merged
/// mapping that the render loop reads.
pub struct VideoMapState {
    default_video: Option<String>,
    env_map: VideoMap,
    merged_map: VideoMap,
    last_mtime: Option<u128>,
    last_reload_check: u64,
    reload_interval: u64,
}

/// Whether a check is due at `now`, `interval` after the one at `last`
/// (milliseconds of a monotonic clock; a clock read before `last` counts as
/// no time elapsed).
pub open spec fn check_due(last: u64, interval: u64, now: u64) -> bool {
    (if now >= last { now - last } else { 0int }) >= interval
}

impl VideoMapState {
    pub closed spec fn env_spec(&self) -> Entries {
        self.env_map@
    }

    pub closed spec fn merged_spec(&self) -> Entries {
        self.merged_map@
    }

    pub closed spec fn default_spec(&self) -> Option<Seq<char>> {
        opt_chars(self.default_video)
    }

    pub closed spec fn last_mtime_spec(&self) -> Option<u128> {
        self.last_mtime
    }

    pub closed spec fn last_check_spec(&self) -> u64 {
        self.last_reload_check
    }

    pub closed spec fn interval_spec(&self) -> u64 {
        self.reload_interval
    }

    pub closed spec fn wf(&self) -> bool {
        self.env_map.wf() && self.merged_map.wf()
    }

    /// The store at startup: `file_contents` is the mapping file's text as read
    /// at `now` (empty when unreadable) and `mtime` its modification time.
    pub fn new(
        env_map: VideoMap,
        file_contents: &str,
        default_video: Option<String>,
        mtime: Option<u128>,
        now: u64,
        reload_interval: u64,
    ) -> (r: Self)
        requires
            env_map.wf(),
        ensures
            r.wf(),
            r.env_spec() == env_map@,
            r.merged_spec() == insert_all(env_map@, parse_file_spec(file_contents@)),
            r.default_spec() == opt_chars(default_video),
            r.last_mtime_spec() == mtime,
            r.last_check_spec() == now,
            r.interval_spec() == reload_interval,
    {
        let file_map = parse_video_map_text(file_contents);
        let merged_map = merge_maps(env_map.duplicate(), file_map);
        VideoMapState {
            default_video,
            env_map,
            merged_map,
            last_mtime: mtime,
            last_reload_check: now,
            reload_interval,
        }
    }

    /// The video that `monitor` should play.
    pub fn resolve(&self, monitor: &str) -> (r: Option<String>)
        requires
            self.wf(),
        ensures
            opt_chars(r) == resolved(self.merged_spec(), self.default_spec(), monitor@),
    {
        match self.merged_map.get(monitor) {
            Some(v) => Some(v),
            None => match &self.default_video {
                Some(d) => Some(d.clone()),
                None => None,
            },
        }
    }

    /// Whether the mapping file is due for a check at `now`; when it is, the
    /// check is recorded and the caller reads the file's modification time.
    pub fn poll_due(&mut self, now: u64) -> (due: bool)
        ensures
            due == check_due(old(self).last_check_spec(), old(self).interval_spec(), now),
            final(self).last_check_spec() == if due { now } else { old(self).last_check_spec() },
            final(self).interval_spec() == old(self).interval_spec(),
            final(self).last_mtime_spec() == old(self).last_mtime_spec(),
            final(self).merged_spec() == old(self).merged_spec(),
            final(self).env_spec() == old(self).env_spec(),
            final(self).default_spec() == old(self).default_spec(),
            final(self).wf() == old(self).wf(),
    {
        let elapsed: u64 = if now >= self.last_reload_check {
            now - self.last_reload_check
        } else {
            0
        };
        if elapsed < self.reload_interval {
            return false;
        }
        self.last_reload_check = now;
        true
    }

    /// Records the modification time just read; returns whether it changed,
    /// in which case the caller reads the file and reloads.
    pub fn observe_mtime(&mut self, mtime: Option<u128>) -> (changed: bool)
        ensures
            changed == (mtime != old(self).last_mtime_spec()),
            final(self).last_mtime_spec() == mtime,
            final(self).last_check_spec() == old(self).last_check_spec(),
            final(self).interval_spec() == old(self).interval_spec(),
            final(self).merged_spec() == old(self).merged_spec(),
            final(self).env_spec() == old(self).env_spec(),
            final(self).default_spec() == old(self).default_spec(),
            final(self).wf() == old(self).wf(),
    {
        let changed = match (mtime, self.last_mtime) {
            (Some(a), Some(b)) => a != b,
            (None, None) => false,
            _ => true,
        };
        self.last_mtime = mtime;
        changed
    }

    /// Recomputes the merged mapping from the mapping file's new text (empty
    /// when it could not be read).
    pub fn reload_from_text(&mut self, file_contents: &str)
        requires
            old(self).wf(),
        ensures
            final(self).wf(),
            final(self).merged_spec() == insert_all(old(self).env_spec(), parse_file_spec(file_contents@)),
            final(self).env_spec() == old(self).env_spec(),
            final(self).default_spec() == old(self).default_spec(),
            final(self).last_mtime_spec() == old(self).last_mtime_spec(),
            final(self).last_check_spec() == old(self).last_check_spec(),
            final(self).interval_spec() == old(self).interval_spec(),
    {
        let file_map = parse_video_map_text(file_contents);
        self.merged_map = merge_maps(self.env_map.duplicate(), file_map);
    }

    /// The video a monitor now playing `current` must switch to, or `None`
    /// when it already plays what the mapping says.
    pub fn video_change(&self, monitor: &str, current: &Option<String>) -> (r: Option<Option<String>>)
        requires
            self.wf(),
        ensures
            match r {
                None => opt_chars(*current) == resolved(self.merged_spec(), self.default_spec(), monitor@),
                Some(next) => opt_chars(*current) != resolved(self.merged_spec(), self.default_spec(), monitor@)
                    && opt_chars(next) == resolved(self.merged_spec(), self.default_spec(), monitor@),
            },
    {
        let desired = self.resolve(monitor);
        let same = match (&desired, current) {
            (Some(a), Some(b)) => *a == *b,
            (None, None) => true,
            _ => false,
        };
        if same {
            None
        } else {
            Some(desired)
        }
    }
}

/// Two polls within one interval of each other stat the mapping file at most
/// once between them: once the first has checked, the second neither checks
/// nor reloads.
pub proof fn lemma_poll_at_most_once(last: u64, interval: u64, t1: u64, t2: u64)
    requires
        t1 <= t2,
        t2 < t1 + interval,
    ensures
        !(check_due(last, interval, t1) && check_due(t1, interval, t2)),
        check_due(last, interval, t1) ==> !check_due(t1, interval, t2),
{
}

/// An assignment that a mapping file states exactly: both sides trimmed and
/// not empty, no newline, a monitor without `=` that does not start a comment.
pub open spec fn writable(e: (Seq<char>, Seq<char>)) -> bool {
    &&& e.0.len() > 0 && e.1.len() > 0
    &&& !is_ws(e.0[0]) && !is_ws(e.0.last()) && !is_ws(e.1[0]) && !is_ws(e.1.last())
    &&& e.0[0] != '#'
    &&& forall|j: int| 0 <= j < e.0.len() ==> e.0[j] != '=' && e.0[j] != '\n'
    &&& forall|j: int| 0 <= j < e.1.len() ==> e.1[j] != '\n'
}

pub open spec fn all_writable(es: Entries) -> bool {
    forall|i: int| 0 <= i < es.len() ==> writable(#[trigger] es[i])
}

proof fn lemma_parse_entry_line(e: (Seq<char>, Seq<char>))
    requires
        writable(e),
    ensures
        parse_entry(entry_line(e), '=', true) == Some(e),
{
    let l = entry_line(e);
    let n = e.0.len() as int;
    assert(l[0] == e.0[0]);
    assert(l.last() == e.1.last());
    lemma_trim_fixed(l);
    assert(first_at(l, '=', n)) by {
        assert forall|j: int| 0 <= j < n implies l[j] != '=' by {
            assert(l[j] == e.0[j]);
        }
    }
    let c = choose|i: int| first_at(l, '=', i);
    lemma_first_at_unique(l, '=', c, n);
    assert(l.subrange(0, n) =~= e.0);
    assert(l.subrange(n + 1, l.len() as int) =~= e.1);
    lemma_trim_fixed(e.0);
    lemma_trim_fixed(e.1);
}

proof fn lemma_parse_entry_writable(piece: Seq<char>)
    requires
        forall|j: int| 0 <= j < piece.len() ==> piece[j] != '\n',
        parse_entry(piece, '=', true) is Some,
    ensures
        writable(parse_entry(piece, '=', true)->0),
{
    let t = trim(piece);
    lemma_trim_shape(piece);
    let (a, b) = choose|a: int, b: int|
        0 <= a <= b <= piece.len() && trim(piece) == piece.subrange(a, b) && (a < b ==> !is_ws(
            piece[a],
        ) && !is_ws(piece[b - 1])) && (piece.len() > 0 && !is_ws(piece[0]) ==> a == 0);
    assert(forall|j: int| 0 <= j < t.len() ==> t[j] == piece[a + j]);
    let i = choose|i: int| first_at(t, '=', i);
    let y = t.subrange(0, i);
    let w = t.subrange(i + 1, t.len() as int);
    let k = trim(y);
    let v = trim(w);
    lemma_trim_shape(y);
    let (ka, kb) = choose|a: int, b: int|
        0 <= a <= b <= y.len() && trim(y) == y.subrange(a, b) && (a < b ==> !is_ws(y[a])
            && !is_ws(y[b - 1])) && (y.len() > 0 && !is_ws(y[0]) ==> a == 0);
    lemma_trim_shape(w);
    let (va, vb) = choose|a: int, b: int|
        0 <= a <= b <= w.len() && trim(w) == w.subrange(a, b) && (a < b ==> !is_ws(w[a])
            && !is_ws(w[b - 1])) && (w.len() > 0 && !is_ws(w[0]) ==> a == 0);
    assert(y[0] == t[0]);
    assert(k[0] == y[ka]);
    assert(k.last() == y[kb - 1]);
    assert(v[0] == w[va]);
    assert(v.last() == w[vb - 1]);
    assert forall|j: int| 0 <= j < k.len() implies k[j] != '=' && k[j] != '\n' by {
        assert(k[j] == t[ka + j]);
    }
    assert forall|j: int| 0 <= j < v.len() implies v[j] != '\n' by {
        assert(v[j] == t[i + 1 + va + j]);
    }
}

proof fn lemma_insert_writable(es: Entries, k: Seq<char>, v: Seq<char>)
    requires
        wf_entries(es),
        all_writable(es),
        writable((k, v)),
    ensures
        all_writable(insert(es, k, v)),
{
    let r = insert(es, k, v);
    if has_key(es, k) {
        assert forall|i: int| 0 <= i < r.len() implies writable(#[trigger] r[i]) by {
            if r[i] != (k, v) {
                assert(r[i] == es[i]);
            }
        }
    } else {
        lemma_insert_pos_exists(es, k);
        let p = choose|p: int| insert_pos(es, k, p);
        assert forall|i: int| 0 <= i < r.len() implies writable(#[trigger] r[i]) by {
            if i < p {
                assert(r[i] == es[i]);
            } else if i > p {
                assert(r[i] == es[i - 1]);
            }
        }
    }
}

proof fn lemma_apply_writable(es: Entries, pieces: Seq<Seq<char>>)
    requires
        wf_entries(es),
        all_writable(es),
        forall|i: int, j: int|
            0 <= i < pieces.len() && 0 <= j < pieces[i].len() ==> pieces[i][j] != '\n',
    ensures
        all_writable(apply_pieces(es, pieces, '=', true)),
    decreases pieces.len(),
{
    if pieces.len() > 0 {
        let prev = pieces.drop_last();
        assert forall|i: int, j: int|
            0 <= i < prev.len() && 0 <= j < prev[i].len() implies prev[i][j] != '\n' by {
            assert(prev[i] == pieces[i]);
        }
        lemma_apply_writable(es, prev);
        let last = pieces.last();
        assert forall|j: int| 0 <= j < last.len() implies last[j] != '\n' by {
            assert(last == pieces[pieces.len() - 1]);
        }
        if let Some(e) = parse_entry(last, '=', true) {
            lemma_parse_entry_writable(last);
            lemma_apply_wf(es, prev, '=', true);
            lemma_insert_writable(apply_pieces(es, prev, '=', true), e.0, e.1);
        }
    }
}

/// Every assignment read from a mapping file is one the format writes back
/// exactly, and the monitors come in ascending order, each once.
pub proof fn lemma_parsed_file_writable(s: Seq<char>)
    ensures
        all_writable(parse_file_spec(s)),
        wf_entries(parse_file_spec(s)),
{
    lemma_split_pieces_lack_sep(s, '\n');
    lemma_apply_writable(Entries::empty(), split(s, '\n'));
    lemma_apply_wf(Entries::empty(), split(s, '\n'), '=', true);
}

proof fn lemma_split_join(ls: Seq<Seq<char>>)
    requires
        forall|i: int, j: int| 0 <= i < ls.len() && 0 <= j < ls[i].len() ==> ls[i][j] != '\n',
    ensures
        split(join_lines(ls), '\n') == ls.push(Seq::empty()),
    decreases ls.len(),
{
    if ls.len() == 0 {
        assert(join_lines(ls) == Seq::<char>::empty());
        assert(split(Seq::<char>::empty(), '\n') =~= ls.push(Seq::empty()));
    } else {
        let prev = ls.drop_last();
        assert forall|i: int, j: int|
            0 <= i < prev.len() && 0 <= j < prev[i].len() implies prev[i][j] != '\n' by {
            assert(prev[i] == ls[i]);
        }
        lemma_split_join(prev);
        let x = join_lines(prev);
        let l = ls.last();
        assert forall|j: int| 0 <= j < l.len() implies l[j] != '\n' by {
            assert(l == ls[ls.len() - 1]);
        }
        lemma_split_extend(x, l, '\n');
        let full = join_lines(ls);
        assert(full == x + l + seq!['\n']);
        assert(full.drop_last() =~= x + l);
        assert(full.last() == '\n');
        assert(prev.push(Seq::empty()).update(prev.len() as int, Seq::<char>::empty() + l) =~= ls);
    }
}

proof fn lemma_header_ignored()
    ensures
        parse_entry(MAP_FILE_HEADER@, '=', true) is None,
        forall|j: int| 0 <= j < MAP_FILE_HEADER@.len() ==> MAP_FILE_HEADER@[j] != '\n',
{
    reveal_strlit("# monitor=/absolute/path/video.mp4");
    lemma_trim_fixed(MAP_FILE_HEADER@);
}

proof fn lemma_apply_file_lines(es: Entries)
    requires
        wf_entries(es),
        all_writable(es),
    ensures
        apply_pieces(Entries::empty(), file_lines(es), '=', true) == es,
    decreases es.len(),
{
    lemma_header_ignored();
    if es.len() == 0 {
        let ls = file_lines(es);
        assert(ls.drop_last() =~= Seq::<Seq<char>>::empty());
        assert(ls.last() == MAP_FILE_HEADER@);
        assert(apply_pieces(Entries::empty(), ls.drop_last(), '=', true) == Entries::empty());
        assert(es =~= Entries::empty());
    } else {
        let prev = es.drop_last();
        lemma_last_of_sorted(es);
        assert(all_writable(prev)) by {
            assert forall|i: int| 0 <= i < prev.len() implies writable(#[trigger] prev[i]) by {
                assert(prev[i] == es[i]);
            }
        }
        lemma_apply_file_lines(prev);
        assert(file_lines(es).drop_last() =~= file_lines(prev));
        let e = es.last();
        assert(writable(es[es.len() - 1]));
        lemma_parse_entry_line(e);
        assert(file_lines(es).last() == entry_line(e));
        assert(apply_pieces(Entries::empty(), file_lines(es).drop_last(), '=', true) == prev);
    }
}

/// Reading back a written mapping file gives exactly what was written, when
/// every assignment is one the format can state.
pub proof fn lemma_render_then_parse(es: Entries)
    requires
        wf_entries(es),
        all_writable(es),
    ensures
        parse_file_spec(render_spec(es)) == es,
{
    let ls = file_lines(es);
    lemma_header_ignored();
    assert forall|i: int, j: int| 0 <= i < ls.len() && 0 <= j < ls[i].len() implies ls[i][j] != '\n' by {
        if i > 0 {
            assert(ls[i] == entry_line(es[i - 1]));
            assert(writable(es[i - 1]));
            let e = es[i - 1];
            if j < e.0.len() {
                assert(ls[i][j] == e.0[j]);
            } else if j > e.0.len() {
                assert(ls[i][j] == e.1[j - e.0.len() - 1]);
            }
        }
    }
    lemma_split_join(ls);
    let pieces = ls.push(Seq::<char>::empty());
    assert(pieces.drop_last() =~= ls);
    assert(trim(Seq::<char>::empty()) == Seq::<char>::empty());
    lemma_apply_file_lines(es);
}

/// Setting a monitor's video through the mapping file and reading the file
/// back yields that video for that monitor, every other monitor keeps what it
/// had, and duplicate lines that were there count last-wins as before.
pub proof fn lemma_set_then_read(contents: Seq<char>, monitor: Seq<char>, video: Seq<char>)
    requires
        writable((monitor, video)),
    ensures
        parse_file_spec(render_spec(insert(parse_file_spec(contents), monitor, video))) == insert(
            parse_file_spec(contents),
            monitor,
            video,
        ),
        lookup(parse_file_spec(render_spec(insert(parse_file_spec(contents), monitor, video))), monitor)
            == Some(video),
        forall|other: Seq<char>|
            other != monitor ==> #[trigger] lookup(
                parse_file_spec(render_spec(insert(parse_file_spec(contents), monitor, video))),
                other,
            ) == lookup(parse_file_spec(contents), other),
{
    let es = parse_file_spec(contents);
    lemma_parsed_file_writable(contents);
    lemma_insert(es, monitor, video);
    lemma_insert_writable(es, monitor, video);
    lemma_render_then_parse(insert(es, monitor, video));
}
} // verus!
