//! Session metadata and storage naming: the per-project directory key, RFC
//! 3339 timestamps, title inference, and the store's id validation and log
//! paths (`<sessions>/<project-key>/<id>.jsonl`), and fresh sessions.
//! Reading and writing the logs is done around this module.
use vstd::prelude::*;
use std::sync::atomic::{AtomicUsize, Ordering};
use std::time::{Duration, SystemTime, UNIX_EPOCH};
use vstd::string::StringSliceAdditionalSpecFns;
use crate::agent::session::{Message, Role, Session};
use crate::text::{chars_of, debug_quoted, debug_str, dec, fmt_padded, fmt_u128, pad, push_char, push_str, string_of,
    split_on, sub_chars, trim, trim_chars};

verus! {

broadcast use vstd::seq_lib::group_seq_properties;

/// Max title length (in chars) before truncation.
pub const TITLE_MAX: usize = 48;

/// Default quota for the whole sessions directory: 500 MiB.
pub const DEFAULT_MAX_BYTES: u64 = 524288000;

/// FNV-1a 64-bit offset basis.
pub const FNV_OFFSET_BASIS: u64 = 0xcbf2_9ce4_8422_2325;

/// FNV-1a 64-bit prime.
pub const FNV_PRIME: u64 = 0x0000_0100_0000_01b3;

/// One FNV-1a step: xor in the byte, multiply by the prime modulo 2^64.
pub open spec fn fnv_step(h: u64, b: u8) -> u64 {
    (((h ^ (b as u64)) as nat * FNV_PRIME as nat) % 0x1_0000_0000_0000_0000nat) as u64
}

/// FNV-1a 64-bit hash of a byte sequence.
pub open spec fn spec_fnv1a(bytes: Seq<u8>) -> u64
    decreases bytes.len(),
{
    if bytes.len() == 0 {
        FNV_OFFSET_BASIS
    } else {
        fnv_step(spec_fnv1a(bytes.drop_last()), bytes.last())
    }
}

/// FNV-1a 64-bit hash (stable across releases). Used only to disambiguate
/// project directories.
pub fn fnv1a(bytes: &[u8]) -> (h: u64)
    ensures
        h == spec_fnv1a(bytes@),
{
    let mut hash: u64 = FNV_OFFSET_BASIS;
    let mut i: usize = 0;
    while i < bytes.len()
        invariant
            i <= bytes@.len(),
            hash == spec_fnv1a(bytes@.subrange(0, i as int)),
        decreases bytes.len() - i,
    {
        hash = hash ^ (bytes[i] as u64);
        hash = hash.wrapping_mul(FNV_PRIME);
        assert(bytes@.subrange(0, i + 1).drop_last() == bytes@.subrange(0, i as int));
        i = i + 1;
    }
    assert(bytes@.subrange(0, bytes@.len() as int) == bytes@);
    hash
}

/// The lowercase hex digit of a value below 16.
pub open spec fn hex_digit(d: nat) -> char {
    if d < 10 {
        (('0' as u32) + d) as char
    } else {
        (('a' as u32) + d - 10) as char
    }
}

/// The `w` lowest hex digits of `n`, most significant first, zero-padded.
pub open spec fn hex_fixed(n: nat, w: nat) -> Seq<char>
    decreases w,
{
    if w == 0 {
        Seq::empty()
    } else {
        hex_fixed(n / 16, (w - 1) as nat).push(hex_digit(n % 16))
    }
}

fn hex_char(d: u64) -> (c: char)
    requires
        d < 16,
    ensures
        c == hex_digit(d as nat),
{
    let b: u8 = d as u8;
    if b < 10 {
        (b + 48) as char
    } else {
        (b + 87) as char
    }
}

/// The pieces of a path that are real components: not empty, not `.`.
pub open spec fn real_comps(ps: Seq<Seq<char>>) -> Seq<Seq<char>>
    decreases ps.len(),
{
    if ps.len() == 0 {
        ps
    } else {
        let r = real_comps(ps.drop_last());
        if ps.last().len() > 0 && ps.last() != seq!['.'] {
            r.push(ps.last())
        } else {
            r
        }
    }
}

/// The file name of a path (`Path::file_name`): its last component once
/// empty and `.` components are dropped; none for a path that ends in `..`
/// or has no component.
pub open spec fn file_name(path: Seq<char>) -> Option<Seq<char>> {
    let comps = real_comps(split_on(path, '/'));
    if comps.len() == 0 || comps.last() == seq!['.', '.'] {
        None
    } else {
        Some(comps.last())
    }
}

/// The per-project directory key of a project home path:
/// `<basename>-<12 hex chars of the FNV-1a hash of the path's UTF-8 bytes,
/// shifted right by 16>`; `root` stands in for a path without a file name.
pub open spec fn spec_project_key(path: &str) -> Seq<char> {
    let base = match file_name(path@) {
        Some(n) => n,
        None => "root"@,
    };
    base + seq!['-'] + hex_fixed((spec_fnv1a(path.spec_bytes()) >> 16u64) as nat, 12)
}

fn file_name_of(path: &Vec<char>) -> (r: Option<Vec<char>>)
    ensures
        match r {
            Some(v) => file_name(path@) == Some(v@),
            None => file_name(path@) is None,
        },
{
    let parts = crate::text::split_chars(path, '/');
    let mut last: Option<Vec<char>> = None;
    let mut i: usize = 0;
    while i < parts.len()
        invariant
            i <= parts@.len(),
            crate::text::views(parts@) == split_on(path@, '/'),
            match last {
                Some(v) => {
                    let f = real_comps(crate::text::views(parts@).subrange(0, i as int));
                    f.len() > 0 && f.last() == v@
                },
                None => real_comps(crate::text::views(parts@).subrange(0, i as int)).len() == 0,
            },
        decreases parts.len() - i,
    {
        let p = &parts[i];
        let ghost pre = crate::text::views(parts@).subrange(0, i as int);
        let ghost nxt = crate::text::views(parts@).subrange(0, i + 1);
        assert(nxt == pre.push(p@));
        assert(nxt.drop_last() == pre);
        let is_dot = p.len() == 1 && p[0] == '.';
        if p.len() > 0 && !is_dot {
            assert(p@ != seq!['.']);
            last = Some(crate::text::copy_chars(p));
        } else {
            assert(p@.len() == 0 || p@ =~= seq!['.']);
        }
        i = i + 1;
    }
    assert(crate::text::views(parts@).subrange(0, parts@.len() as int) == crate::text::views(parts@));
    match last {
        Some(v) => {
            if v.len() == 2 && v[0] == '.' && v[1] == '.' {
                assert(v@ =~= seq!['.', '.']);
                None
            } else {
                assert(v@ != seq!['.', '.']);
                Some(v)
            }
        },
        None => None,
    }
}

/// Derive the per-project directory key from a project home path:
/// `<basename>-<12 hex chars of the FNV-1a hash of the path>`. Deterministic
/// in the path; the caller passes the canonical path so that equivalent
/// spellings share one key.
pub fn project_key(project_home: &str) -> (k: String)
    ensures
        k@ == spec_project_key(project_home),
{
    let path = chars_of(project_home);
    let mut out = match file_name_of(&path) {
        Some(n) => string_of(&n),
        None => String::from_str("root"),
    };
    proof {
        reveal_strlit("root");
    }
    push_char(&mut out, '-');
    let hash = fnv1a(project_home.as_bytes()) >> 16u64;
    let digits = hex_fixed_string(hash, 12);
    push_str(&mut out, digits.as_str());
    out
}

/// `hex_fixed` as a string.
fn hex_fixed_string(n: u64, w: usize) -> (r: String)
    ensures
        r@ == hex_fixed(n as nat, w as nat),
    decreases w,
{
    if w == 0 {
        String::new()
    } else {
        let mut r = hex_fixed_string(n / 16, w - 1);
        push_char(&mut r, hex_char(n % 16));
        r
    }
}

/// Howard Hinnant's `civil_from_days`: days since 1970-01-01 to
/// `(year, month, day)` in the proleptic Gregorian calendar, with floor
/// division throughout.
pub open spec fn spec_civil(z: int) -> (int, int, int) {
    let zz = z + 719468;
    let era = zz / 146097;
    let doe = zz - era * 146097;
    let yoe = (doe - doe / 1460 + doe / 36524 - doe / 146096) / 365;
    let y = yoe + era * 400;
    let doy = doe - (365 * yoe + yoe / 4 - yoe / 100);
    let mp = (5 * doy + 2) / 153;
    let d = doy - (153 * mp + 2) / 5 + 1;
    let m = if mp < 10 {
        mp + 3
    } else {
        mp - 9
    };
    (if m <= 2 {
        y + 1
    } else {
        y
    }, m, d)
}

/// The day counts `civil_from_days` accepts without overflow.
pub open spec fn civil_in_range(z: int) -> bool {
    z + 719468 <= i64::MAX && z + 719468 - 146096 >= i64::MIN
}

/// Days since 1970-01-01 to `(year, month, day)`.
pub fn civil_from_days(z: i64) -> (r: (i64, u32, u32))
    requires
        civil_in_range(z as int),
    ensures
        r.0 == spec_civil(z as int).0,
        r.1 == spec_civil(z as int).1 as u32,
        r.2 == spec_civil(z as int).2 as u32,
{
    let zz: i64 = z + 719468;
    let era: i64 = if zz >= 0 {
        ((zz as u64) / 146097) as i64
    } else {
        let n: u64 = (-zz) as u64;
        -(((n + 146096) / 146097) as i64)
    };
    assert(era == (zz as int) / 146097);
    let doe: i64 = zz - era * 146097;
    assert(0 <= doe < 146097);
    let doe_u: u64 = doe as u64;
    let yoe: u64 = (doe_u - doe_u / 1460 + doe_u / 36524 - doe_u / 146096) / 365;
    let y: i64 = (yoe as i64) + era * 400;
    let doy: u64 = doe_u - (365 * yoe + yoe / 4 - yoe / 100);
    let mp: u64 = (5 * doy + 2) / 153;
    let d: u64 = doy - (153 * mp + 2) / 5 + 1;
    let m: u64 = if mp < 10 {
        mp + 3
    } else {
        mp - 9
    };
    let year: i64 = if m <= 2 {
        y + 1
    } else {
        y
    };
    (year, m as u32, d as u32)
}

/// `civil_from_days` always gives a calendar date: a month from 1 to 12 and
/// a day from 1 to 31.
pub proof fn lemma_civil_is_a_date(z: int)
    ensures
        1 <= spec_civil(z).1 <= 12,
        1 <= spec_civil(z).2 <= 31,
{
    let zz = z + 719468;
    let era = zz / 146097;
    let doe = zz - era * 146097;
    assert(0 <= doe < 146097);
    let yoe = (doe - doe / 1460 + doe / 36524 - doe / 146096) / 365;
    assert(0 <= yoe <= 399);
    let doy = doe - (365 * yoe + yoe / 4 - yoe / 100);
    assert(0 <= doy <= 365);
    let mp = (5 * doy + 2) / 153;
    assert(0 <= mp <= 11);
    let d = doy - (153 * mp + 2) / 5 + 1;
    assert(1 <= d <= 31);
}

/// Howard Hinnant's `days_from_civil`: the day count (from 1970-01-01) of a
/// proleptic Gregorian date.
pub open spec fn spec_days_from_civil(y: int, m: int, d: int) -> int {
    let yy = if m <= 2 {
        y - 1
    } else {
        y
    };
    let era = yy / 400;
    let yoe = yy - era * 400;
    let mp = if m > 2 {
        m - 3
    } else {
        m + 9
    };
    let doy = (153 * mp + 2) / 5 + d - 1;
    let doe = yoe * 365 + yoe / 4 - yoe / 100 + doy;
    era * 146097 + doe - 719468
}

/// `days_from_civil` undoes `civil_from_days`: the date of a day count
/// gives the day count back, so distinct day counts always give distinct
/// dates.
pub proof fn lemma_civil_round_trip(z: int)
    ensures
        spec_days_from_civil(spec_civil(z).0, spec_civil(z).1, spec_civil(z).2) == z,
        forall|w: int| #[trigger] spec_civil(w) == spec_civil(z) ==> w == z,
{
    assert forall|w: int| #[trigger] spec_civil(w) == spec_civil(z) implies spec_days_from_civil(
        spec_civil(w).0,
        spec_civil(w).1,
        spec_civil(w).2,
    ) == w by {
        lemma_civil_inverse(w);
    }
    lemma_civil_inverse(z);
}

proof fn lemma_civil_inverse(z: int)
    ensures
        spec_days_from_civil(spec_civil(z).0, spec_civil(z).1, spec_civil(z).2) == z,
{
    let zz = z + 719468;
    let era = zz / 146097;
    let doe = zz - era * 146097;
    assert(0 <= doe < 146097);
    let yoe = (doe - doe / 1460 + doe / 36524 - doe / 146096) / 365;
    assert(0 <= yoe <= 399);
    let y0 = yoe + era * 400;
    let doy = doe - (365 * yoe + yoe / 4 - yoe / 100);
    let mp = (5 * doy + 2) / 153;
    assert(0 <= mp <= 11);
    let d = doy - (153 * mp + 2) / 5 + 1;
    let m = if mp < 10 {
        mp + 3
    } else {
        mp - 9
    };
    let y = if m <= 2 {
        y0 + 1
    } else {
        y0
    };
    assert(spec_civil(z) == (y, m, d));
    vstd::arithmetic::div_mod::lemma_fundamental_div_mod_converse(y0, 400, era, yoe);
    assert(y0 / 400 == era);
}

/// `{:04}` of a year: zero-padded to four chars, a minus sign counting
/// towards the width.
pub open spec fn year_text(y: int) -> Seq<char> {
    if y >= 0 {
        pad(y as nat, 4)
    } else {
        seq!['-'] + pad((-y) as nat, 3)
    }
}

/// The UTC `YYYY-MM-DDTHH:MM:SSZ` rendering of unix seconds.
pub open spec fn spec_rfc3339(secs: int) -> Seq<char> {
    let days = secs / 86400;
    let rem = secs % 86400;
    let c = spec_civil(days);
    year_text(c.0) + seq!['-'] + pad(c.1 as u32 as nat, 2) + seq!['-'] + pad(c.2 as u32 as nat, 2) + seq!['T']
        + pad((rem / 3600) as nat, 2) + seq![':'] + pad(((rem % 3600) / 60) as nat, 2) + seq![':'] + pad(
        (rem % 60) as nat,
        2,
    ) + seq!['Z']
}

/// Convert unix epoch seconds to a UTC `YYYY-MM-DDTHH:MM:SSZ` string.
pub fn unix_to_rfc3339(secs: i64) -> (s: String)
    ensures
        s@ == spec_rfc3339(secs as int),
{
    let (days, rem): (i64, u64) = if secs >= 0 {
        (((secs as u64) / 86400) as i64, (secs as u64) % 86400)
    } else {
        let n: u64 = (-(secs + 1)) as u64;
        (-((n / 86400) as i64) - 1, 86399 - n % 86400)
    };
    assert(days == (secs as int) / 86400 && rem == (secs as int) % 86400);
    let (y, m, d) = civil_from_days(days);
    let mut out = if y >= 0 {
        fmt_padded(y as u64, 4)
    } else {
        let mut t = String::new();
        push_char(&mut t, '-');
        let a = fmt_padded((-y) as u64, 3);
        push_str(&mut t, a.as_str());
        t
    };
    push_char(&mut out, '-');
    push_str(&mut out, fmt_padded(m as u64, 2).as_str());
    push_char(&mut out, '-');
    push_str(&mut out, fmt_padded(d as u64, 2).as_str());
    push_char(&mut out, 'T');
    push_str(&mut out, fmt_padded(rem / 3600, 2).as_str());
    push_char(&mut out, ':');
    push_str(&mut out, fmt_padded((rem % 3600) / 60, 2).as_str());
    push_char(&mut out, ':');
    push_str(&mut out, fmt_padded(rem % 60, 2).as_str());
    push_char(&mut out, 'Z');
    out
}

/// The first message of `ms` with the user role.
pub open spec fn first_user(ms: Seq<Message>) -> Option<Message>
    decreases ms.len(),
{
    if ms.len() == 0 {
        None
    } else if ms[0].role == Role::User {
        Some(ms[0])
    } else {
        first_user(ms.drop_first())
    }
}

/// The ellipsis that marks a truncated title.
pub open spec fn ellipsis() -> Seq<char> {
    seq!['\u{2026}']
}

/// A title from a text: trimmed; none when empty; cut to `TITLE_MAX` chars
/// with an ellipsis when longer.
pub open spec fn title_of_text(t: Seq<char>) -> Option<Seq<char>> {
    let s = trim(t);
    if s.len() == 0 {
        None
    } else if s.len() > TITLE_MAX {
        Some(s.subrange(0, TITLE_MAX as int) + ellipsis())
    } else {
        Some(s)
    }
}

/// The title of a conversation: that of its first user message's text.
pub open spec fn spec_infer_title(ms: Seq<Message>) -> Option<Seq<char>> {
    match first_user(ms) {
        None => None,
        Some(m) => title_of_text(m.content()),
    }
}

proof fn lemma_first_user_none(ms: Seq<Message>)
    requires
        forall|i: int| 0 <= i < ms.len() ==> #[trigger] ms[i].role != Role::User,
    ensures
        first_user(ms) is None,
    decreases ms.len(),
{
    if ms.len() > 0 {
        assert forall|i: int| 0 <= i < ms.drop_first().len() implies #[trigger] ms.drop_first()[i].role != Role::User by {
            assert(ms.drop_first()[i] == ms[i + 1]);
        }
        lemma_first_user_none(ms.drop_first());
    }
}

/// A title is short and never empty: at most `TITLE_MAX` chars plus the
/// ellipsis; and a conversation without a user message has no title.
pub proof fn lemma_title_is_short(ms: Seq<Message>)
    ensures
        spec_infer_title(ms) matches Some(t) ==> 0 < t.len() <= TITLE_MAX + 1,
        (forall|i: int| 0 <= i < ms.len() ==> #[trigger] ms[i].role != Role::User) ==> spec_infer_title(ms) is None,
{
    if forall|i: int| 0 <= i < ms.len() ==> #[trigger] ms[i].role != Role::User {
        lemma_first_user_none(ms);
    }
}

/// Infer a session title from the first user message (truncated).
pub fn infer_title(messages: &[Message]) -> (t: Option<String>)
    ensures
        match t {
            Some(s) => spec_infer_title(messages@) == Some(s@),
            None => spec_infer_title(messages@) is None,
        },
{
    let mut i: usize = 0;
    assert(messages@.subrange(0, messages@.len() as int) == messages@);
    while i < messages.len()
        invariant
            i <= messages@.len(),
            first_user(messages@) == first_user(messages@.subrange(i as int, messages@.len() as int)),
        decreases messages.len() - i,
    {
        assert(messages@.subrange(i as int, messages@.len() as int).drop_first() == messages@.subrange(
            i + 1,
            messages@.len() as int,
        ));
        if messages[i].role == Role::User {
            let text = messages[i].text_content();
            let t = trim_chars(&chars_of(text.as_str()));
            if t.len() == 0 {
                return None;
            }
            if t.len() > TITLE_MAX {
                let mut out = string_of(&sub_chars(&t, 0, TITLE_MAX));
                push_char(&mut out, '\u{2026}');
                return Some(out);
            }
            return Some(string_of(&t));
        }
        i = i + 1;
    }
    None
}

/// A project-scoped session store rooted at a sessions directory:
/// `<base>/<project>/<id>.jsonl`.
#[derive(Debug)]
pub struct SessionStore {
    /// The sessions directory.
    pub base: String,
    /// The project key this store is scoped to.
    pub project: String,
    /// The canonical project home, stamped into every log header.
    pub project_home: String,
    /// Whole-store byte quota; appends evict oldest sessions past this.
    pub max_bytes: u64,
    /// Counter behind fresh session ids.
    pub next_id: AtomicUsize,
}

/// Can `c` stand in a session id?
pub open spec fn id_char(c: char) -> bool {
    ('a' <= c <= 'z') || ('A' <= c <= 'Z') || ('0' <= c <= '9') || c == '-' || c == '_' || c == '.'
}

/// A session id that is a safe file name: 1 to 128 chars, each an ASCII
/// letter or digit or one of `-`, `_`, `.`.
pub open spec fn valid_id(id: Seq<char>) -> bool {
    0 < id.len() <= 128 && forall|i: int| 0 <= i < id.len() ==> id_char(#[trigger] id[i])
}

/// `a` joined with `b` (`PathBuf::join`): an absolute `b` replaces `a`;
/// otherwise one `/` separates them unless `a` is empty or ends in one.
pub open spec fn join_path(a: Seq<char>, b: Seq<char>) -> Seq<char> {
    if b.len() > 0 && b[0] == '/' {
        b
    } else if a.len() == 0 {
        b
    } else if a.last() == '/' {
        a + b
    } else {
        a + seq!['/'] + b
    }
}

fn join_path_exec(a: &str, b: &str) -> (r: String)
    ensures
        r@ == join_path(a@, b@),
{
    let ac = chars_of(a);
    let bc = chars_of(b);
    if bc.len() > 0 && bc[0] == '/' {
        return b.to_owned();
    }
    if ac.len() == 0 {
        return b.to_owned();
    }
    let mut r = a.to_owned();
    if ac[ac.len() - 1] != '/' {
        push_char(&mut r, '/');
    }
    push_str(&mut r, b);
    r
}

/// The log path of a session, or the error for an unsafe id.
pub open spec fn spec_session_path(base: Seq<char>, project: Seq<char>, id: Seq<char>) -> Result<Seq<char>, Seq<char>> {
    if valid_id(id) {
        Ok(join_path(join_path(base, project), id + ".jsonl"@))
    } else {
        Err("invalid session id: "@ + debug_str(id))
    }
}

pub open spec fn path_view(r: Result<String, String>) -> Result<Seq<char>, Seq<char>> {
    match r {
        Ok(p) => Ok(p@),
        Err(e) => Err(e@),
    }
}

impl SessionStore {
    /// A store rooted at `base` (the sessions directory itself), scoped to
    /// `project`, with the default quota. `project_home` is the canonical
    /// project home the key was derived from.
    pub fn new(base: &str, project: &str, project_home: &str) -> (s: SessionStore)
        ensures
            s.base@ == base@,
            s.project@ == project@,
            s.project_home@ == project_home@,
            s.max_bytes == DEFAULT_MAX_BYTES,
    {
        SessionStore {
            base: base.to_owned(),
            project: project.to_owned(),
            project_home: project_home.to_owned(),
            max_bytes: DEFAULT_MAX_BYTES,
            next_id: AtomicUsize::new(0),
        }
    }

    /// Override the whole-store quota (bytes); eviction then targets half of
    /// this value.
    pub fn with_max_bytes(self, bytes: u64) -> (s: SessionStore)
        ensures
            s.base == self.base,
            s.project == self.project,
            s.project_home == self.project_home,
            s.max_bytes == bytes,
    {
        let mut s = self;
        s.max_bytes = bytes;
        s
    }

    /// Path of a session's log within this project's subdirectory; the id
    /// must be a safe file name.
    pub fn session_path(&self, id: &str) -> (r: Result<String, String>)
        ensures
            path_view(r) == spec_session_path(self.base@, self.project@, id@),
    {
        let cs = chars_of(id);
        let mut ok = cs.len() > 0 && cs.len() <= 128;
        let mut i: usize = 0;
        while ok && i < cs.len()
            invariant
                i <= cs@.len(),
                cs@ == id@,
                ok ==> 0 < cs@.len() <= 128,
                ok ==> forall|j: int| 0 <= j < i ==> id_char(#[trigger] cs@[j]),
                !ok ==> !valid_id(id@),
            decreases cs.len() - i,
        {
            let c = cs[i];
            if !(('a' <= c && c <= 'z') || ('A' <= c && c <= 'Z') || ('0' <= c && c <= '9') || c == '-' || c
                == '_' || c == '.') {
                ok = false;
            }
            i = i + 1;
        }
        if !ok {
            let mut msg = String::from_str("invalid session id: ");
            push_str(&mut msg, debug_quoted(id).as_str());
            return Err(msg);
        }
        let dir = join_path_exec(self.base.as_str(), self.project.as_str());
        let mut file = id.to_owned();
        push_str(&mut file, ".jsonl");
        Ok(join_path_exec(dir.as_str(), file.as_str()))
    }
}


/// Take the next value of the store's id counter (shared state: nothing is
/// known of the value).
fn next_count(store: &SessionStore) -> usize {
    store.next_id.fetch_add(1, Ordering::SeqCst)
}

/// A session id: `slimcode-<unix seconds>-<process id>-<counter>`.
pub open spec fn id_text(unix: u64, pid: u32, n: usize) -> Seq<char> {
    "slimcode-"@ + dec(unix as nat) + "-"@ + dec(pid as nat) + "-"@ + dec(n as nat)
}

impl SessionStore {
    /// A fresh session id from the time (`unix`, seconds) and the process
    /// id; the store's counter tells the ids of one process apart.
    pub fn new_id(&self, unix: u64, pid: u32) -> (id: String)
        ensures
            exists|n: usize| id@ == id_text(unix, pid, n),
    {
        let n = next_count(self);
        let mut id = String::from_str("slimcode-");
        push_str(&mut id, fmt_u128(unix as u128).as_str());
        push_str(&mut id, "-");
        push_str(&mut id, fmt_u128(pid as u128).as_str());
        push_str(&mut id, "-");
        push_str(&mut id, fmt_u128(n as u128).as_str());
        assert(id@ == id_text(unix, pid, n));
        id
    }

    /// A fresh, empty session: a new id, and the creation time (`unix`,
    /// seconds) as an RFC 3339 timestamp.
    pub fn new_session(&self, unix: u64, pid: u32) -> (s: Session)
        ensures
            exists|n: usize| s.id@ == id_text(unix, pid, n),
            s.created_at@ == spec_rfc3339((unix as i64) as int),
            s.messages@.len() == 0,
            s.title is None,
    {
        let id = self.new_id(unix, pid);
        Session { id, created_at: unix_to_rfc3339(unix as i64), messages: Vec::new(), title: None }
    }
}


/// The system clock's time type, carried through opaquely.
#[verifier::external_type_specification]
#[verifier::external_body]
pub struct ExSystemTime(SystemTime);

/// `SystemTime::now()`. Nothing is stated of the result: it is the time.
#[verifier::external_body]
fn system_now() -> SystemTime {
    SystemTime::now()
}

/// `SystemTime::duration_since(UNIX_EPOCH)`, `None` for a time before the
/// epoch. Nothing more is stated: the time is opaque here.
#[verifier::external_body]
fn since_epoch(t: SystemTime) -> Option<Duration> {
    t.duration_since(UNIX_EPOCH).ok()
}

/// `Duration::as_secs()`: the whole seconds. Nothing is stated: the
/// duration is opaque here.
#[verifier::external_body]
fn whole_secs(d: Duration) -> u64 {
    d.as_secs()
}

/// The current time as an RFC 3339 UTC timestamp (the epoch when the clock
/// reads before it).
pub fn now_rfc3339() -> (s: String)
    ensures
        exists|t: i64| s@ == spec_rfc3339(t as int),
{
    let secs: i64 = match since_epoch(system_now()) {
        Some(d) => whole_secs(d) as i64,
        None => 0,
    };
    unix_to_rfc3339(secs)
}

} // verus!
