use vstd::prelude::*;
use crate::text::{
    append_chars, chars_lt, chars_of, first_at, lemma_first_at_unique, lemma_lex_total,
    lemma_split_nonempty, lex_lt, matches_at, occurs_at, split, string_views, substring, trim,
    trim_bounds, trim_start, trim_start_bound,
};

verus! {

/// The non-empty trimmed items of a comma-separated list, in order.
pub open spec fn csv_items(pieces: Seq<Seq<char>>) -> Seq<Seq<char>>
    decreases pieces.len(),
{
    if pieces.len() == 0 {
        Seq::empty()
    } else {
        let prev = csv_items(pieces.drop_last());
        let t = trim(pieces.last());
        if t.len() == 0 {
            prev
        } else {
            prev.push(t)
        }
    }
}


/// The names in a comma-separated list such as `DP-1, HDMI-A-1`: each item
/// trimmed, empty items dropped.
pub fn parse_csv_list(raw: &str) -> (r: Vec<String>)
    ensures
        string_views(r@) == csv_items(split(raw@, ',')),
{
    let cs = chars_of(raw);
    let mut out: Vec<String> = Vec::new();
    let mut start: usize = 0;
    let mut i: usize = 0;
    proof {
        assert(cs@.subrange(0, 0) =~= Seq::<char>::empty());
        lemma_split_nonempty(cs@.subrange(0, 0), ',');
    }
    while i < cs.len()
        invariant
            start <= i <= cs@.len(),
            split(cs@.subrange(0, i as int), ',').len() >= 1,
            string_views(out@) == csv_items(split(cs@.subrange(0, i as int), ',').drop_last()),
            split(cs@.subrange(0, i as int), ',').last() == cs@.subrange(start as int, i as int),
        decreases cs@.len() - i,
    {
        let ghost pieces = split(cs@.subrange(0, i as int), ',');
        assert(cs@.subrange(0, i + 1).drop_last() =~= cs@.subrange(0, i as int));
        assert(cs@.subrange(0, i + 1).last() == cs@[i as int]);
        if cs[i] == ',' {
            let (a, b) = trim_bounds(&cs, start, i);
            if a < b {
                out.push(substring(&cs, a, b));
            }
            proof {
                let after = split(cs@.subrange(0, i + 1), ',');
                assert(after.drop_last() =~= pieces);
                assert(pieces.drop_last().push(pieces.last()) =~= pieces);
                assert(string_views(out@) =~= csv_items(pieces));
                assert(cs@.subrange(i + 1, i + 1) =~= Seq::<char>::empty());
            }
            start = i + 1;
        } else {
            proof {
                let after = split(cs@.subrange(0, i + 1), ',');
                assert(after.drop_last() =~= pieces.drop_last());
                assert(cs@.subrange(start as int, i + 1) =~= cs@.subrange(start as int, i as int).push(
                    cs@[i as int],
                ));
            }
        }
        i = i + 1;
    }
    let ghost pieces = split(cs@.subrange(0, i as int), ',');
    let (a, b) = trim_bounds(&cs, start, i);
    if a < b {
        out.push(substring(&cs, a, b));
    }
    proof {
        assert(cs@.subrange(0, i as int) =~= cs@);
        assert(pieces.drop_last().push(pieces.last()) =~= pieces);
        assert(string_views(out@) =~= csv_items(pieces));
    }
    out
}

/// `s` with each backslash and each double quote escaped by a backslash.
pub open spec fn json_escaped(s: Seq<char>) -> Seq<char>
    decreases s.len(),
{
    if s.len() == 0 {
        Seq::empty()
    } else {
        let c = s.last();
        json_escaped(s.drop_last()) + if c == '\\' || c == '"' {
            seq!['\\', c]
        } else {
            seq![c]
        }
    }
}

/// Escapes backslashes and double quotes for a JSON string.
pub fn escape_json(s: &str) -> (r: String)
    ensures
        r@ == json_escaped(s@),
{
    let cs = chars_of(s);
    let mut out: Vec<char> = Vec::new();
    let mut i: usize = 0;
    while i < cs.len()
        invariant
            i <= cs@.len(),
            out@ == json_escaped(cs@.subrange(0, i as int)),
        decreases cs@.len() - i,
    {
        let c = cs[i];
        if c == '\\' || c == '"' {
            out.push('\\');
        }
        out.push(c);
        proof {
            let p = cs@.subrange(0, i + 1);
            assert(p.drop_last() =~= cs@.subrange(0, i as int));
            assert(p.last() == c);
            if c == '\\' || c == '"' {
                assert(out@ =~= json_escaped(cs@.subrange(0, i as int)) + seq!['\\', c]);
            } else {
                assert(out@ =~= json_escaped(cs@.subrange(0, i as int)) + seq![c]);
            }
        }
        i = i + 1;
    }
    assert(cs@.subrange(0, i as int) =~= cs@);
    substring(&out, 0, out.len())
}


/// `i` is the first place where `p` occurs in `s`.
pub open spec fn first_occ(s: Seq<char>, p: Seq<char>, i: int) -> bool {
    occurs_at(s, p, i) && forall|k: int| 0 <= k < i ==> !occurs_at(s, p, k)
}

/// The key that names a monitor in `hyprctl -j monitors` output.
pub open spec fn name_key() -> Seq<char> {
    seq!['"', 'n', 'a', 'm', 'e', '"']
}

pub proof fn lemma_trim_start_shorter(s: Seq<char>)
    ensures
        trim_start(s).len() <= s.len(),
    decreases s.len(),
{
    if s.len() > 0 && crate::text::is_ws(s[0]) {
        lemma_trim_start_shorter(s.drop_first());
    }
}

/// The monitor names in `hyprctl -j monitors` output, in order of appearance:
/// after each `"name"` key, the first `:`, then a quoted string; empty names
/// are left out.
pub open spec fn json_names(s: Seq<char>) -> Seq<Seq<char>>
    decreases s.len(),
{
    if exists|i: int| first_occ(s, name_key(), i) {
        let i = choose|i: int| first_occ(s, name_key(), i);
        let r = s.subrange(i + 6, s.len() as int);
        if exists|c: int| first_at(r, ':', c) {
            let c = choose|c: int| first_at(r, ':', c);
            let r2 = r.subrange(c + 1, r.len() as int);
            let t = trim_start(r2);
            proof {
                lemma_trim_start_shorter(r2);
            }
            if t.len() > 0 && t[0] == '"' {
                let st = t.subrange(1, t.len() as int);
                if exists|e: int| first_at(st, '"', e) {
                    let e = choose|e: int| first_at(st, '"', e);
                    let more = json_names(st.subrange(e + 1, st.len() as int));
                    if e > 0 {
                        seq![st.subrange(0, e)] + more
                    } else {
                        more
                    }
                } else {
                    json_names(r2)
                }
            } else {
                json_names(r2)
            }
        } else {
            json_names(r)
        }
    } else {
        Seq::empty()
    }
}


proof fn lemma_first_occ_unique(s: Seq<char>, p: Seq<char>, i: int, j: int)
    requires
        first_occ(s, p, i),
        first_occ(s, p, j),
    ensures
        i == j,
{
}

proof fn lemma_occurs_shift(cs: Seq<char>, p: Seq<char>, pos: int, k: int)
    requires
        0 <= pos <= cs.len(),
        0 <= k,
    ensures
        occurs_at(cs.subrange(pos, cs.len() as int), p, k) == occurs_at(cs, p, pos + k),
{
    let s = cs.subrange(pos, cs.len() as int);
    if k + p.len() <= s.len() {
        assert(s.subrange(k, k + p.len()) =~= cs.subrange(pos + k, pos + k + p.len()));
    }
}

/// Finds the next monitor name at or after `pos`: the index to go on from,
/// and the name found there, if any.
fn next_name(cs: &Vec<char>, key: &Vec<char>, pos: usize) -> (r: Option<(usize, Option<String>)>)
    requires
        pos <= cs@.len(),
        key@ == name_key(),
    ensures
        match r {
            None => json_names(cs@.subrange(pos as int, cs@.len() as int)) == Seq::<Seq<char>>::empty(),
            Some((next, name)) => pos < next <= cs@.len() && json_names(
                cs@.subrange(pos as int, cs@.len() as int),
            ) == match name {
                Some(n) => seq![n@] + json_names(cs@.subrange(next as int, cs@.len() as int)),
                None => json_names(cs@.subrange(next as int, cs@.len() as int)),
            },
        },
{
    let n = cs.len();
    let ghost s = cs@.subrange(pos as int, n as int);
    let mut i = pos;
    while n - i >= 6 && !matches_at(cs, key, i)
        invariant
            pos <= i <= n,
            n == cs@.len(),
            key@ == name_key(),
            forall|k: int| pos <= k < i ==> !occurs_at(cs@, name_key(), k),
        decreases n - i,
    {
        i = i + 1;
    }
    if n - i < 6 {
        assert(!exists|k: int| first_occ(s, name_key(), k)) by {
            if exists|k: int| first_occ(s, name_key(), k) {
                let k = choose|k: int| first_occ(s, name_key(), k);
                lemma_occurs_shift(cs@, name_key(), pos as int, k);
            }
        }
        return None;
    }
    let ghost fi = (i - pos) as int;
    assert(first_occ(s, name_key(), fi)) by {
        lemma_occurs_shift(cs@, name_key(), pos as int, fi);
        assert forall|k: int| 0 <= k < fi implies !occurs_at(s, name_key(), k) by {
            lemma_occurs_shift(cs@, name_key(), pos as int, k);
        }
    }
    proof {
        let c = choose|k: int| first_occ(s, name_key(), k);
        lemma_first_occ_unique(s, name_key(), c, fi);
    }
    let after_key = i + 6;
    let ghost r = s.subrange(fi + 6, s.len() as int);
    assert(r =~= cs@.subrange(after_key as int, n as int));
    let mut j = after_key;
    while j < n && cs[j] != ':'
        invariant
            after_key <= j <= n,
            n == cs@.len(),
            forall|k: int| after_key <= k < j ==> cs@[k] != ':',
        decreases n - j,
    {
        j = j + 1;
    }
    if j == n {
        assert(!exists|c: int| first_at(r, ':', c)) by {
            if exists|c: int| first_at(r, ':', c) {
                let c = choose|c: int| first_at(r, ':', c);
                assert(r[c] == cs@[after_key + c]);
            }
        }
        return Some((after_key, None));
    }
    let ghost fc = (j - after_key) as int;
    assert(first_at(r, ':', fc)) by {
        assert forall|k: int| 0 <= k < fc implies r[k] != ':' by {
            assert(r[k] == cs@[after_key + k]);
        }
    }
    proof {
        let c = choose|c: int| first_at(r, ':', c);
        lemma_first_at_unique(r, ':', c, fc);
    }
    let ghost r2 = r.subrange(fc + 1, r.len() as int);
    assert(r2 =~= cs@.subrange(j + 1, n as int));
    let a = trim_start_bound(cs, j + 1, n);
    let ghost t = cs@.subrange(a as int, n as int);
    if a < n && cs[a] == '"' {
        assert(t[0] == cs@[a as int]);
        let ghost st = t.subrange(1, t.len() as int);
        assert(st =~= cs@.subrange(a + 1, n as int));
        let mut q = a + 1;
        while q < n && cs[q] != '"'
            invariant
                a + 1 <= q <= n,
                n == cs@.len(),
                forall|k: int| a + 1 <= k < q ==> cs@[k] != '"',
            decreases n - q,
        {
            q = q + 1;
        }
        if q == n {
            assert(!exists|e: int| first_at(st, '"', e)) by {
                if exists|e: int| first_at(st, '"', e) {
                    let e = choose|e: int| first_at(st, '"', e);
                    assert(st[e] == cs@[a + 1 + e]);
                }
            }
            return Some((j + 1, None));
        }
        let ghost fe = (q - (a + 1)) as int;
        assert(first_at(st, '"', fe)) by {
            assert forall|k: int| 0 <= k < fe implies st[k] != '"' by {
                assert(st[k] == cs@[a + 1 + k]);
            }
        }
        proof {
            let e = choose|e: int| first_at(st, '"', e);
            lemma_first_at_unique(st, '"', e, fe);
            assert(st.subrange(fe + 1, st.len() as int) =~= cs@.subrange(q + 1, n as int));
            assert(st.subrange(0, fe) =~= cs@.subrange(a + 1, q as int));
        }
        if q > a + 1 {
            return Some((q + 1, Some(substring(cs, a + 1, q))));
        } else {
            return Some((q + 1, None));
        }
    } else {
        return Some((j + 1, None));
    }
}

proof fn lemma_insert_contains(v: Seq<Seq<char>>, p: int, e: Seq<char>)
    requires
        0 <= p <= v.len(),
    ensures
        forall|x: Seq<char>| v.insert(p, e).contains(x) <==> (v.contains(x) || x == e),
{
    let t = v.insert(p, e);
    assert forall|x: Seq<char>| t.contains(x) <==> (v.contains(x) || x == e) by {
        if t.contains(x) {
            let w = choose|w: int| 0 <= w < t.len() && t[w] == x;
            if w < p {
                assert(v[w] == x);
            } else if w > p {
                assert(v[w - 1] == x);
            }
        }
        if v.contains(x) {
            let w = choose|w: int| 0 <= w < v.len() && v[w] == x;
            if w < p {
                assert(t[w] == x);
            } else {
                assert(t[w + 1] == x);
            }
        }
        if x == e {
            assert(t[p] == x);
        }
    }
}

pub open spec fn strictly_sorted(v: Seq<Seq<char>>) -> bool {
    forall|k: int| 0 <= k < v.len() - 1 ==> lex_lt(#[trigger] v[k], v[k + 1])
}

/// The monitor names in `hyprctl -j monitors` output, sorted, each once.
#[verifier::loop_isolation(false)]
pub fn monitor_names_from_json(json: &str) -> (r: Vec<String>)
    ensures
        strictly_sorted(string_views(r@)),
        forall|x: Seq<char>| string_views(r@).contains(x) <==> json_names(json@).contains(x),
{
    let cs = chars_of(json);
    let key = chars_of("\"name\"");
    proof {
        reveal_strlit("\"name\"");
        assert(key@ =~= name_key());
    }
    let mut out: Vec<String> = Vec::new();
    let mut out_chars: Vec<Vec<char>> = Vec::new();
    let ghost mut seen: Seq<Seq<char>> = Seq::empty();
    let mut pos: usize = 0;
    assert(cs@.subrange(0, cs@.len() as int) =~= cs@);
    loop
        invariant
            pos <= cs@.len(),
            key@ == name_key(),
            json_names(cs@) == seen + json_names(cs@.subrange(pos as int, cs@.len() as int)),
            out@.len() == out_chars@.len(),
            forall|k: int| 0 <= k < out@.len() ==> out@[k]@ == out_chars@[k]@,
            strictly_sorted(string_views(out@)),
            forall|x: Seq<char>| string_views(out@).contains(x) <==> seen.contains(x),
        decreases cs@.len() - pos,
    {
        match next_name(&cs, &key, pos) {
            None => {
                assert(seen + Seq::<Seq<char>>::empty() =~= seen);
                break;
            },
            Some((next, name)) => {
                match name {
                    Some(n) => {
                        let nc = chars_of(n.as_str());
                        let ghost old_views = string_views(out@);
                        let ghost nv = n@;
                        let ghost new_seen = seen + seq![nv];
                        let mut found = false;
                        let mut k: usize = 0;
                        while k < out_chars.len()
                            invariant
                                k <= out_chars@.len(),
                                out@.len() == out_chars@.len(),
                                forall|m: int| 0 <= m < out@.len() ==> out@[m]@ == out_chars@[m]@,
                                found <==> exists|m: int| 0 <= m < k && out_chars@[m]@ == nc@,
                            decreases out_chars@.len() - k,
                        {
                            if crate::text::same_chars(&out_chars[k], &nc) {
                                found = true;
                            }
                            k = k + 1;
                        }
                        proof {
                            assert(found <==> old_views.contains(nc@)) by {
                                if found {
                                    let m = choose|m: int| 0 <= m < k && out_chars@[m]@ == nc@;
                                    assert(old_views[m] == nc@);
                                }
                                if old_views.contains(nc@) {
                                    let m = choose|m: int| 0 <= m < old_views.len() && old_views[m] == nc@;
                                    assert(out_chars@[m]@ == nc@);
                                }
                            }
                        }
                        if !found {
                            let mut p: usize = 0;
                            while p < out_chars.len() && chars_lt(&out_chars[p], &nc)
                                invariant
                                    p <= out_chars@.len(),
                                    forall|m: int| 0 <= m < p ==> lex_lt(out_chars@[m]@, nc@),
                                decreases out_chars@.len() - p,
                            {
                                p = p + 1;
                            }
                            proof {
                                if p < out_chars@.len() {
                                    lemma_lex_total(out_chars@[p as int]@, nc@);
                                    assert(out_chars@[p as int]@ != nc@);
                                }
                            }
                            out.insert(p, n);
                            out_chars.insert(p, nc);
                            proof {
                                let v = string_views(out@);
                                assert(v =~= old_views.insert(p as int, nc@));
                                assert forall|m: int| 0 <= m < v.len() - 1 implies lex_lt(#[trigger] v[m], v[m + 1]) by {
                                    if m + 1 < p {
                                        assert(v[m] == old_views[m] && v[m + 1] == old_views[m + 1]);
                                    } else if m + 1 == p {
                                        assert(v[m] == out_chars@[m]@);
                                    } else if m == p {
                                    } else {
                                        assert(v[m] == old_views[m - 1] && v[m + 1] == old_views[m]);
                                    }
                                }
                                lemma_insert_contains(old_views, p as int, nc@);
                                assert forall|x: Seq<char>| string_views(out@).contains(x) <==> new_seen.contains(x) by {
                                    assert(old_views.insert(p as int, nc@).contains(x) <==> (old_views.contains(x) || x == nc@));
                                    assert(new_seen.contains(x) <==> (seen.contains(x) || x == nv)) by {
                                        if new_seen.contains(x) {
                                            let w = choose|w: int| 0 <= w < new_seen.len() && new_seen[w] == x;
                                            if w < seen.len() {
                                                assert(seen[w] == x);
                                            }
                                        }
                                        if seen.contains(x) {
                                            let w = choose|w: int| 0 <= w < seen.len() && seen[w] == x;
                                            assert(new_seen[w] == x);
                                        }
                                        if x == nv {
                                            assert(new_seen[seen.len() as int] == x);
                                        }
                                    }
                                }
                            }
                        } else {
                            proof {
                                assert forall|x: Seq<char>| string_views(out@).contains(x) <==> new_seen.contains(x) by {
                                    assert(new_seen.contains(x) <==> (seen.contains(x) || x == nv)) by {
                                        if new_seen.contains(x) {
                                            let w = choose|w: int| 0 <= w < new_seen.len() && new_seen[w] == x;
                                            if w < seen.len() {
                                                assert(seen[w] == x);
                                            }
                                        }
                                        if seen.contains(x) {
                                            let w = choose|w: int| 0 <= w < seen.len() && seen[w] == x;
                                            assert(new_seen[w] == x);
                                        }
                                        if x == nv {
                                            assert(new_seen[seen.len() as int] == x);
                                        }
                                    }
                                    if x == nc@ {
                                        let m = choose|m: int| 0 <= m < old_views.len() && old_views[m] == nc@;
                                        assert(string_views(out@)[m] == x);
                                    }
                                }
                            }
                        }
                        proof {
                            assert(json_names(cs@) == new_seen + json_names(cs@.subrange(next as int, cs@.len() as int)));
                            seen = new_seen;
                        }
                    },
                    None => {},
                }
                pos = next;
            },
        }
    }
    out
}

pub open spec fn bool_text(b: bool) -> Seq<char> {
    if b {
        "true"@
    } else {
        "false"@
    }
}

/// One monitor of the status report: `{"name":"…","video":"…"}`.
pub open spec fn monitor_object(e: (String, String)) -> Seq<char> {
    "{\"name\":\""@ + json_escaped(e.0@) + "\",\"video\":\""@ + json_escaped(e.1@) + "\"}"@
}

/// The first `k` monitors, one per indented line, commas between.
pub open spec fn pretty_items(ms: Seq<(String, String)>, k: int) -> Seq<char>
    decreases k,
{
    if k <= 0 {
        Seq::empty()
    } else {
        pretty_items(ms, k - 1) + "    "@ + monitor_object(ms[k - 1]) + (if k == ms.len() {
            ""@
        } else {
            ","@
        }) + "\n"@
    }
}

/// The first `k` monitors on one line, commas between.
pub open spec fn compact_items(ms: Seq<(String, String)>, k: int) -> Seq<char>
    decreases k,
{
    if k <= 0 {
        Seq::empty()
    } else {
        compact_items(ms, k - 1) + (if k > 1 {
            ","@
        } else {
            ""@
        }) + monitor_object(ms[k - 1])
    }
}

pub open spec fn status_json_spec(
    map_file: Seq<char>,
    default_video: Seq<char>,
    fps: Seq<char>,
    speed: Seq<char>,
    quality: Seq<char>,
    hwaccel: Seq<char>,
    steam_pause_enabled: bool,
    steam_game_running: bool,
    service_state: Seq<char>,
    mapped: Seq<(String, String)>,
    pretty: bool,
) -> Seq<char> {
    if pretty {
        "{\n"@ + "  \"map_file\": \""@ + json_escaped(map_file) + "\",\n"@
            + "  \"default_video\": \""@ + json_escaped(default_video) + "\",\n"@
            + "  \"runtime\": {\n"@ + "    \"fps\": \""@ + json_escaped(fps) + "\",\n"@
            + "    \"speed\": \""@ + json_escaped(speed) + "\",\n"@ + "    \"quality\": \""@
            + json_escaped(quality) + "\",\n"@ + "    \"hwaccel\": \""@ + json_escaped(hwaccel)
            + "\"\n"@ + "  },\n"@ + "  \"steam_pause_enabled\": "@ + bool_text(steam_pause_enabled)
            + ",\n"@ + "  \"steam_game_running\": "@ + bool_text(steam_game_running) + ",\n"@
            + "  \"service_state\": \""@ + json_escaped(service_state) + "\",\n"@
            + "  \"monitors\": [\n"@ + pretty_items(mapped, mapped.len() as int) + "  ]\n"@ + "}"@
    } else {
        "{\"map_file\":\""@ + json_escaped(map_file) + "\",\"default_video\":\""@ + json_escaped(
            default_video,
        ) + "\",\"runtime\":{\"fps\":\""@ + json_escaped(fps) + "\",\"speed\":\""@ + json_escaped(
            speed,
        ) + "\",\"quality\":\""@ + json_escaped(quality) + "\",\"hwaccel\":\""@ + json_escaped(
            hwaccel,
        ) + "\"},\"steam_pause_enabled\":"@ + bool_text(steam_pause_enabled)
            + ",\"steam_game_running\":"@ + bool_text(steam_game_running) + ",\"service_state\":\""@
            + json_escaped(service_state) + "\",\"monitors\":["@ + compact_items(
            mapped,
            mapped.len() as int,
        ) + "]}"@
    }
}

fn put_escaped(out: &mut Vec<char>, s: &str)
    ensures
        final(out)@ == old(out)@ + json_escaped(s@),
{
    let e = escape_json(s);
    append_chars(out, e.as_str());
}

fn put_bool(out: &mut Vec<char>, b: bool)
    ensures
        final(out)@ == old(out)@ + bool_text(b),
{
    if b {
        append_chars(out, "true");
    } else {
        append_chars(out, "false");
    }
}

fn put_monitor(out: &mut Vec<char>, e: &(String, String))
    ensures
        final(out)@ == old(out)@ + monitor_object(*e),
{
    let ghost start = out@;
    append_chars(out, "{\"name\":\"");
    put_escaped(out, e.0.as_str());
    append_chars(out, "\",\"video\":\"");
    put_escaped(out, e.1.as_str());
    append_chars(out, "\"}");
    assert(out@ =~= start + monitor_object(*e));
}

/// The status report as JSON: indented over several lines when `pretty`,
/// else on one line; every string value escaped.
pub fn build_status_json(
    map_file: &str,
    default_video: &str,
    fps: &str,
    speed: &str,
    quality: &str,
    hwaccel: &str,
    steam_pause_enabled: bool,
    steam_game_running: bool,
    service_state: &str,
    mapped: &[(String, String)],
    pretty: bool,
) -> (r: String)
    ensures
        r@ == status_json_spec(
            map_file@,
            default_video@,
            fps@,
            speed@,
            quality@,
            hwaccel@,
            steam_pause_enabled,
            steam_game_running,
            service_state@,
            mapped@,
            pretty,
        ),
{
    let mut out: Vec<char> = Vec::new();
    if pretty {
        append_chars(&mut out, "{\n");
        append_chars(&mut out, "  \"map_file\": \"");
        put_escaped(&mut out, map_file);
        append_chars(&mut out, "\",\n");
        append_chars(&mut out, "  \"default_video\": \"");
        put_escaped(&mut out, default_video);
        append_chars(&mut out, "\",\n");
        append_chars(&mut out, "  \"runtime\": {\n");
        append_chars(&mut out, "    \"fps\": \"");
        put_escaped(&mut out, fps);
        append_chars(&mut out, "\",\n");
        append_chars(&mut out, "    \"speed\": \"");
        put_escaped(&mut out, speed);
        append_chars(&mut out, "\",\n");
        append_chars(&mut out, "    \"quality\": \"");
        put_escaped(&mut out, quality);
        append_chars(&mut out, "\",\n");
        append_chars(&mut out, "    \"hwaccel\": \"");
        put_escaped(&mut out, hwaccel);
        append_chars(&mut out, "\"\n");
        append_chars(&mut out, "  },\n");
        append_chars(&mut out, "  \"steam_pause_enabled\": ");
        put_bool(&mut out, steam_pause_enabled);
        append_chars(&mut out, ",\n");
        append_chars(&mut out, "  \"steam_game_running\": ");
        put_bool(&mut out, steam_game_running);
        append_chars(&mut out, ",\n");
        append_chars(&mut out, "  \"service_state\": \"");
        put_escaped(&mut out, service_state);
        append_chars(&mut out, "\",\n");
        append_chars(&mut out, "  \"monitors\": [\n");
        let ghost head = out@;
        let mut i: usize = 0;
        while i < mapped.len()
            invariant
                i <= mapped@.len(),
                out@ == head + pretty_items(mapped@, i as int),
            decreases mapped@.len() - i,
        {
            append_chars(&mut out, "    ");
            put_monitor(&mut out, &mapped[i]);
            if i + 1 == mapped.len() {
                append_chars(&mut out, "");
            } else {
                append_chars(&mut out, ",");
            }
            append_chars(&mut out, "\n");
            i = i + 1;
            assert(out@ =~= head + pretty_items(mapped@, i as int));
        }
        append_chars(&mut out, "  ]\n");
        append_chars(&mut out, "}");
    } else {
        append_chars(&mut out, "{\"map_file\":\"");
        put_escaped(&mut out, map_file);
        append_chars(&mut out, "\",\"default_video\":\"");
        put_escaped(&mut out, default_video);
        append_chars(&mut out, "\",\"runtime\":{\"fps\":\"");
        put_escaped(&mut out, fps);
        append_chars(&mut out, "\",\"speed\":\"");
        put_escaped(&mut out, speed);
        append_chars(&mut out, "\",\"quality\":\"");
        put_escaped(&mut out, quality);
        append_chars(&mut out, "\",\"hwaccel\":\"");
        put_escaped(&mut out, hwaccel);
        append_chars(&mut out, "\"},\"steam_pause_enabled\":");
        put_bool(&mut out, steam_pause_enabled);
        append_chars(&mut out, ",\"steam_game_running\":");
        put_bool(&mut out, steam_game_running);
        append_chars(&mut out, ",\"service_state\":\"");
        put_escaped(&mut out, service_state);
        append_chars(&mut out, "\",\"monitors\":[");
        let ghost head = out@;
        let mut i: usize = 0;
        while i < mapped.len()
            invariant
                i <= mapped@.len(),
                out@ == head + compact_items(mapped@, i as int),
            decreases mapped@.len() - i,
        {
            if i > 0 {
                append_chars(&mut out, ",");
            } else {
                append_chars(&mut out, "");
            }
            put_monitor(&mut out, &mapped[i]);
            i = i + 1;
            assert(out@ =~= head + compact_items(mapped@, i as int));
        }
        append_chars(&mut out, "]}");
    }
    substring(&out, 0, out.len())
}
} // verus!
