use vstd::prelude::*;
use crate::text::{
    all_digits, append_chars, chars_of, contains, contains_seq, ends_with, ends_with_seq, is_whitespace,
    is_ws, lemma_split_ws_nonempty, lower_seq, matches_at, opt_chars, parse_u32, parse_u64,
    parse_unsigned, same_chars, split_ws, starts_with_seq, substring, to_ascii_lower,
    trim_start, trim_start_bound,
};

verus! {

/// What `String::from_utf8_lossy` makes of some bytes: their UTF-8 decoding,
/// with U+FFFD in place of each invalid sequence.
pub uninterp spec fn utf8_lossy(b: Seq<u8>) -> Seq<char>;

/// Relies on `String::from_utf8_lossy`: the characters depend on the bytes
/// alone, and no bytes give no characters.
#[verifier::external_body]
fn decode_lossy(bytes: &[u8]) -> (r: Vec<char>)
    ensures
        r@ == utf8_lossy(bytes@),
        bytes@.len() == 0 ==> r@.len() == 0,
{
    String::from_utf8_lossy(bytes).chars().collect()
}

pub open spec fn nul_spaced(s: Seq<char>) -> Seq<char> {
    Seq::new(s.len(), |i: int| if s[i] == '\0' { ' ' } else { s[i] })
}

fn replace_nuls(cs: &Vec<char>) -> (r: String)
    ensures
        r@ == nul_spaced(cs@),
{
    let mut out: Vec<char> = Vec::new();
    let mut i: usize = 0;
    while i < cs.len()
        invariant
            i <= cs@.len(),
            out@ == Seq::new(i as nat, |k: int| if cs@[k] == '\0' { ' ' } else { cs@[k] }),
        decreases cs@.len() - i,
    {
        let c = cs[i];
        out.push(if c == '\0' { ' ' } else { c });
        i = i + 1;
        assert(out@ =~= Seq::new(i as nat, |k: int| if cs@[k] == '\0' { ' ' } else { cs@[k] }));
    }
    substring(&out, 0, out.len())
}

/// `text` with each NUL turned into a space.
pub fn nuls_to_spaces(text: &str) -> (r: String)
    ensures
        r@ == nul_spaced(text@),
{
    replace_nuls(&chars_of(text))
}

/// A NUL-separated block from `/proc` (a command line, an environment) as
/// text, its NULs turned into spaces.
pub fn nul_join(bytes: &[u8]) -> (r: String)
    ensures
        r@ == nul_spaced(utf8_lossy(bytes@)),
{
    replace_nuls(&decode_lossy(bytes))
}

/// The rest of the first piece that starts with `p`.
pub open spec fn find_prefixed(pieces: Seq<Seq<char>>, p: Seq<char>) -> Option<Seq<char>>
    decreases pieces.len(),
{
    if pieces.len() == 0 {
        None
    } else {
        match find_prefixed(pieces.drop_last(), p) {
            Some(x) => Some(x),
            None => if starts_with_seq(pieces.last(), p) {
                Some(pieces.last().subrange(p.len() as int, pieces.last().len() as int))
            } else {
                None
            },
        }
    }
}

/// The value of `key` in a whitespace-separated list of `KEY=value` words.
pub open spec fn env_value_spec(blob: Seq<char>, key: Seq<char>) -> Option<Seq<char>> {
    find_prefixed(split_ws(blob), key + seq!['='])
}

/// `found` unless it is empty, else the rest of the piece `cs[start..i]` when
/// that starts with `prefix`.
fn take_prefixed(cs: &Vec<char>, prefix: &Vec<char>, start: usize, i: usize, found: Option<String>) -> (r:
    Option<String>)
    requires
        start <= i <= cs@.len(),
    ensures
        opt_chars(r) == match opt_chars(found) {
            Some(x) => Some(x),
            None => if starts_with_seq(cs@.subrange(start as int, i as int), prefix@) {
                Some(cs@.subrange(start + prefix@.len(), i as int))
            } else {
                None
            },
        },
{
    if found.is_some() {
        return found;
    }
    let plen = prefix.len();
    let hit = plen <= i - start && matches_at(cs, prefix, start);
    let ghost piece = cs@.subrange(start as int, i as int);
    proof {
        if plen <= i - start {
            assert(piece.subrange(0, plen as int) =~= cs@.subrange(start as int, start + plen));
        }
    }
    if hit {
        assert(piece.subrange(plen as int, piece.len() as int) =~= cs@.subrange(start + plen, i as int));
        Some(substring(cs, start + plen, i))
    } else {
        None
    }
}

/// The value of `key` in a whitespace-separated list of `KEY=value` words:
/// the rest of the first word that starts with `key=`.
pub fn env_var_value(env_blob: &str, key: &str) -> (r: Option<String>)
    ensures
        opt_chars(r) == env_value_spec(env_blob@, key@),
{
    let cs = chars_of(env_blob);
    let mut prefix = chars_of(key);
    prefix.push('=');
    let ghost p = key@ + seq!['='];
    assert(prefix@ =~= p);
    let mut found: Option<String> = None;
    let mut start: usize = 0;
    let mut i: usize = 0;
    proof {
        assert(cs@.subrange(0, 0) =~= Seq::<char>::empty());
    }
    while i < cs.len()
        invariant
            start <= i <= cs@.len(),
            prefix@ == p,
            split_ws(cs@.subrange(0, i as int)).len() >= 1,
            split_ws(cs@.subrange(0, i as int)).last() == cs@.subrange(start as int, i as int),
            opt_chars(found) == find_prefixed(split_ws(cs@.subrange(0, i as int)).drop_last(), p),
        decreases cs@.len() - i,
    {
        let ghost pieces = split_ws(cs@.subrange(0, i as int));
        assert(cs@.subrange(0, i + 1).drop_last() =~= cs@.subrange(0, i as int));
        assert(cs@.subrange(0, i + 1).last() == cs@[i as int]);
        if is_whitespace(cs[i]) {
            found = take_prefixed(&cs, &prefix, start, i, found);
            proof {
                let after = split_ws(cs@.subrange(0, i + 1));
                assert(after.drop_last() =~= pieces);
                assert(pieces.drop_last().push(pieces.last()) =~= pieces);
                assert(cs@.subrange(i + 1, i + 1) =~= Seq::<char>::empty());
            }
            start = i + 1;
        } else {
            proof {
                let after = split_ws(cs@.subrange(0, i + 1));
                assert(after.drop_last() =~= pieces.drop_last());
                assert(cs@.subrange(start as int, i + 1) =~= cs@.subrange(start as int, i as int).push(
                    cs@[i as int],
                ));
            }
        }
        i = i + 1;
        proof {
            lemma_split_ws_nonempty(cs@.subrange(0, i as int));
        }
    }
    let ghost pieces = split_ws(cs@.subrange(0, i as int));
    found = take_prefixed(&cs, &prefix, start, i, found);
    proof {
        assert(cs@.subrange(0, i as int) =~= cs@);
        assert(pieces.drop_last().push(pieces.last()) =~= pieces);
    }
    found
}


/// Whether a `/proc` entry name is a process id: ASCII digits only.
pub fn is_pid_name(name: &str) -> (r: bool)
    ensures
        r == all_digits(name@),
{
    let cs = chars_of(name);
    let mut i: usize = 0;
    while i < cs.len()
        invariant
            i <= cs@.len(),
            cs@ == name@,
            forall|k: int| 0 <= k < i ==> '0' <= #[trigger] cs@[k] && cs@[k] <= '9',
        decreases cs@.len() - i,
    {
        if !('0' <= cs[i] && cs[i] <= '9') {
            return false;
        }
        i = i + 1;
    }
    true
}

/// Steam's own tools, which set a game id without being a game.
pub open spec fn is_tool_app_id(id: int) -> bool {
    id == 7 || id == 228980 || id == 229000 || id == 480 || id == 769
}

pub open spec fn real_game_app_id(v: Seq<char>) -> bool {
    match parse_unsigned(v, u32::MAX as int) {
        Some(id) => id != 0 && !is_tool_app_id(id),
        None => false,
    }
}

/// Whether `v` is the id of an actual game: a `u32` other than zero and the
/// ids of Steam's own tools.
pub fn is_real_game_app_id(v: &str) -> (r: bool)
    ensures
        r == real_game_app_id(v@),
{
    match parse_u32(v) {
        Some(id) => id != 0 && !(id == 7 || id == 228980 || id == 229000 || id == 480 || id == 769),
        None => false,
    }
}

/// `i` is the position of the last `c` in `s`.
pub open spec fn last_at(s: Seq<char>, c: char, i: int) -> bool {
    0 <= i < s.len() && s[i] == c && forall|j: int| i < j < s.len() ==> s[j] != c
}

/// The first whitespace-separated word of `t` is `Z`.
pub open spec fn zombie_tail(t: Seq<char>) -> bool {
    let u = trim_start(t);
    u.len() >= 1 && u[0] == 'Z' && (u.len() == 1 || is_ws(u[1]))
}

/// A `/proc/<pid>/stat` line of a zombie: the state after the command name,
/// which ends at the last `)`, is `Z`.
pub open spec fn zombie_stat(s: Seq<char>) -> bool {
    if exists|i: int| last_at(s, ')', i) {
        let i = choose|i: int| last_at(s, ')', i);
        zombie_tail(s.subrange(i + 1, s.len() as int))
    } else {
        false
    }
}

/// Whether a `/proc/<pid>/stat` line describes a zombie process.
pub fn is_zombie_stat(stat: &str) -> (r: bool)
    ensures
        r == zombie_stat(stat@),
{
    let cs = chars_of(stat);
    let mut i = cs.len();
    while i > 0 && cs[i - 1] != ')'
        invariant
            i <= cs@.len(),
            forall|j: int| i <= j < cs@.len() ==> cs@[j] != ')',
        decreases i,
    {
        i = i - 1;
    }
    if i == 0 {
        assert(!exists|k: int| last_at(cs@, ')', k));
        return false;
    }
    let end = i - 1;
    assert(last_at(cs@, ')', end as int));
    proof {
        let k = choose|k: int| last_at(cs@, ')', k);
        assert(k == end as int);
    }
    let a = trim_start_bound(&cs, end + 1, cs.len());
    let n = cs.len();
    let r = a < n && cs[a] == 'Z' && (a + 1 == n || is_whitespace(cs[a + 1]));
    proof {
        let u = cs@.subrange(a as int, n as int);
        if a < n {
            assert(u[0] == cs@[a as int]);
            if a + 1 < n {
                assert(u[1] == cs@[a + 1]);
            }
        }
    }
    r
}

pub open spec fn client_cmdline(l: Seq<char>) -> bool {
    contains_seq(l, "steamwebhelper"@) || ends_with_seq(l, "/steam"@) || contains_seq(
        l,
        "/steam.sh"@,
    ) || contains_seq(l, "steam-runtime"@)
}

/// Why the environment marks a game: `KEY=id` with a real game id.
pub open spec fn env_reason(blob: Seq<char>, key: Seq<char>) -> Option<Seq<char>> {
    match env_value_spec(blob, key) {
        Some(v) => if real_game_app_id(v) {
            Some("environ:"@ + key + "="@ + v)
        } else {
            None
        },
        None => None,
    }
}

/// Why a process counts as a running Steam game, from its command line and
/// its environment (both with NULs as spaces), or `None`.
pub open spec fn game_reason(cmd: Seq<char>, env: Option<Seq<char>>) -> Option<Seq<char>> {
    if client_cmdline(lower_seq(cmd)) {
        None
    } else if contains_seq(cmd, "steamapps/common/"@) {
        Some("cmdline:steamapps/common"@)
    } else {
        match env {
            None => None,
            Some(b) => if env_reason(b, "SteamAppId"@) is Some {
                env_reason(b, "SteamAppId"@)
            } else if env_reason(b, "SteamGameId"@) is Some {
                env_reason(b, "SteamGameId"@)
            } else {
                env_reason(b, "STEAM_COMPAT_APP_ID"@)
            },
        }
    }
}

fn environ_reason(blob: &str, key: &str) -> (r: Option<String>)
    ensures
        opt_chars(r) == env_reason(blob@, key@),
{
    match env_var_value(blob, key) {
        Some(v) => {
            if is_real_game_app_id(v.as_str()) {
                let mut out: Vec<char> = Vec::new();
                append_chars(&mut out, "environ:");
                append_chars(&mut out, key);
                append_chars(&mut out, "=");
                append_chars(&mut out, v.as_str());
                assert(out@ =~= "environ:"@ + key@ + "="@ + v@);
                Some(substring(&out, 0, out.len()))
            } else {
                None
            }
        },
        None => None,
    }
}

/// Why a process counts as a running Steam game, or `None`: not the Steam
/// client or its helpers, and either installed under `steamapps/common/` or
/// started with a real game id in `SteamAppId`, `SteamGameId` or
/// `STEAM_COMPAT_APP_ID` (looked at in that order).
pub fn steam_game_reason(cmd: &str, env_blob: Option<&str>) -> (r: Option<String>)
    ensures
        opt_chars(r) == game_reason(cmd@, match env_blob {
            Some(b) => Some(b@),
            None => None,
        }),
{
    let cs = chars_of(cmd);
    let lower = to_ascii_lower(&cs);
    if contains(&lower, &chars_of("steamwebhelper")) || ends_with(&lower, &chars_of("/steam"))
        || contains(&lower, &chars_of("/steam.sh")) || contains(&lower, &chars_of("steam-runtime")) {
        return None;
    }
    if contains(&cs, &chars_of("steamapps/common/")) {
        return Some("cmdline:steamapps/common".to_owned());
    }
    match env_blob {
        None => None,
        Some(b) => {
            let r1 = environ_reason(b, "SteamAppId");
            if r1.is_some() {
                return r1;
            }
            let r2 = environ_reason(b, "SteamGameId");
            if r2.is_some() {
                return r2;
            }
            environ_reason(b, "STEAM_COMPAT_APP_ID")
        },
    }
}

/// A setting that reads as "on": `1`, `true`, `yes` or `on`, in any ASCII case.
pub open spec fn flag_on(v: Seq<char>) -> bool {
    let l = lower_seq(v);
    l == "1"@ || l == "true"@ || l == "yes"@ || l == "on"@
}

/// Whether a setting reads as "on".
pub fn is_flag_on(v: &str) -> (r: bool)
    ensures
        r == flag_on(v@),
{
    let l = to_ascii_lower(&chars_of(v));
    same_chars(&l, &chars_of("1")) || same_chars(&l, &chars_of("true")) || same_chars(
        &l,
        &chars_of("yes"),
    ) || same_chars(&l, &chars_of("on"))
}

/// How often the running processes are scanned, unless set otherwise.
pub const DEFAULT_POLL_MS: u64 = 1500;

/// The shortest scan interval a setting may ask for.
pub const MIN_POLL_MS: u64 = 100;

/// The scan interval a setting asks for: a whole number of milliseconds, at
/// least the minimum; anything else gives the default.
pub open spec fn poll_interval_for(setting: Option<Seq<char>>) -> u64 {
    match setting {
        Some(v) => match parse_unsigned(v, u64::MAX as int) {
            Some(n) => if n >= MIN_POLL_MS {
                n as u64
            } else {
                DEFAULT_POLL_MS
            },
            None => DEFAULT_POLL_MS,
        },
        None => DEFAULT_POLL_MS,
    }
}

/// Tells whether a Steam game runs in the foreground, scanning the processes
/// at most once per poll interval and answering from the last scan between.
pub struct SteamGameDetector {
    enabled: bool,
    poll_interval: u64,
    last_probe_at: Option<u64>,
    last_result: bool,
}

impl SteamGameDetector {
    pub closed spec fn enabled_spec(&self) -> bool {
        self.enabled
    }

    pub closed spec fn interval_spec(&self) -> u64 {
        self.poll_interval
    }

    pub closed spec fn last_probe_spec(&self) -> Option<u64> {
        self.last_probe_at
    }

    pub closed spec fn last_result_spec(&self) -> bool {
        self.last_result
    }

    /// Whether a scan is due at `now` (milliseconds of a monotonic clock).
    pub open spec fn probe_due(&self, now: u64) -> bool {
        match self.last_probe_spec() {
            None => true,
            Some(t) => (if now >= t { now - t } else { 0int }) >= self.interval_spec(),
        }
    }

    /// A detector that has not scanned yet, so that its first question scans.
    pub fn new(enabled: bool, poll_interval_ms: u64) -> (r: Self)
        ensures
            r.enabled_spec() == enabled,
            r.interval_spec() == poll_interval_ms,
            r.last_probe_spec() is None,
            !r.last_result_spec(),
    {
        SteamGameDetector {
            enabled,
            poll_interval: poll_interval_ms,
            last_probe_at: None,
            last_result: false,
        }
    }

    /// A detector from its two settings: whether to pause at all (on when
    /// unset) and the scan interval in milliseconds.
    pub fn from_settings(pause_setting: Option<&str>, poll_setting: Option<&str>) -> (r: Self)
        ensures
            r.enabled_spec() == match pause_setting {
                Some(v) => flag_on(v@),
                None => true,
            },
            r.interval_spec() == poll_interval_for(match poll_setting {
                Some(v) => Some(v@),
                None => None,
            }),
            r.last_probe_spec() is None,
            !r.last_result_spec(),
    {
        let enabled = match pause_setting {
            Some(v) => is_flag_on(v),
            None => true,
        };
        let poll = match poll_setting {
            Some(v) => match parse_u64(v) {
                Some(n) => if n >= MIN_POLL_MS {
                    n
                } else {
                    DEFAULT_POLL_MS
                },
                None => DEFAULT_POLL_MS,
            },
            None => DEFAULT_POLL_MS,
        };
        Self::new(enabled, poll)
    }

    pub fn is_enabled(&self) -> (r: bool)
        ensures
            r == self.enabled_spec(),
    {
        self.enabled
    }

    /// Whether a Steam game is running, asked at `now`. Disabled, it says no.
    /// Within the poll interval of the last scan it repeats that scan's
    /// answer; otherwise it calls `probe` once and keeps its answer.
    pub fn steam_game_running<F: FnOnce() -> bool>(&mut self, now: u64, probe: F) -> (r: bool)
        requires
            probe.requires(()),
        ensures
            !old(self).enabled_spec() ==> !r && *final(self) == *old(self),
            old(self).enabled_spec() && !old(self).probe_due(now) ==> r
                == old(self).last_result_spec() && *final(self) == *old(self),
            old(self).enabled_spec() && old(self).probe_due(now) ==> probe.ensures((), r)
                && final(self).last_probe_spec() == Some(now) && final(self).last_result_spec() == r
                && final(self).enabled_spec() && final(self).interval_spec()
                == old(self).interval_spec(),
    {
        if !self.enabled {
            return false;
        }
        let due = match self.last_probe_at {
            None => true,
            Some(t) => {
                let elapsed: u64 = if now >= t { now - t } else { 0 };
                elapsed >= self.poll_interval
            },
        };
        if !due {
            return self.last_result;
        }
        let r = probe();
        self.last_probe_at = Some(now);
        self.last_result = r;
        r
    }
}

} // verus!
