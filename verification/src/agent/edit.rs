//! `edit` tool engine: exact-text replacement with unique-match enforcement
//! and a lightweight fuzzy fallback.
//!
//! 1. One call carries one or more disjoint edits `{oldText, newText}`.
//! 2. Every edit is matched against the original file, not incrementally.
//! 3. Each `oldText` must occur exactly once: 0 is not-found, more is
//!    not-unique (counted after per-line `trim_end`).
//! 4. Matches must not overlap; an empty `oldText` is an error; a no-op
//!    replacement is an error.
//! 5. CRLF/LF line endings are detected, normalized to LF for matching and
//!    restored; a leading BOM is stripped and restored.
//! 6. Fuzzy fallback: exact match first; on a miss, retry after per-line
//!    `trim_end` only. When the fuzzy view is used, matched line blocks are
//!    rewritten from it while untouched lines keep their original text.
//!
//! The engine is pure: file access lives with the tool binding.
use vstd::prelude::*;
use crate::text::{
    append_chars, chars_of, contains, copy_chars, count_occurrences, dec, eq_chars, find, find_chars,
    fmt_u128, fmt_usize, join, join_chars, lemma_find_from, lemma_split_nonempty, occurrences, push_str,
    split_chars, split_on, string_of, sub_chars, trim_end, trim_end_len, views,
};

verus! {

broadcast use vstd::seq_lib::group_seq_properties;

/// One targeted replacement.
#[derive(Debug, Clone, PartialEq, Eq)]
pub struct Edit {
    pub old_text: String,
    pub new_text: String,
}

impl Edit {
    pub fn new(old_text: &str, new_text: &str) -> (e: Self)
        ensures
            e.old_text@ == old_text@,
            e.new_text@ == new_text@,
    {
        Edit { old_text: old_text.to_owned(), new_text: new_text.to_owned() }
    }
}

/// Result of a successful apply.
#[derive(Debug, Clone, PartialEq, Eq)]
pub struct AppliedEdit {
    pub new_content: String,
    /// Number of replaced blocks (one per matched edit).
    pub replaced_blocks: usize,
    /// Display-oriented line diff (line-numbered `+`/`-`/context lines).
    pub diff: String,
    /// 1-based line number of the first change in the new content.
    pub first_changed_line: Option<usize>,
}

/// The byte-order mark.
pub open spec fn bom() -> char {
    '\u{feff}'
}

pub open spec fn has_bom(s: Seq<char>) -> bool {
    s.len() > 0 && s[0] == bom()
}

/// `s` without its leading BOM.
pub open spec fn after_bom(s: Seq<char>) -> Seq<char> {
    if has_bom(s) {
        s.drop_first()
    } else {
        s
    }
}

/// Strip a leading BOM: whether there was one, and the rest.
fn split_bom(content: &[char]) -> (r: (bool, Vec<char>))
    ensures
        r.0 == has_bom(content@),
        r.1@ == after_bom(content@),
{
    let has = content.len() > 0 && content[0] == '\u{feff}';
    let mut rest: Vec<char> = Vec::new();
    let mut i: usize = if has { 1 } else { 0 };
    let start = i;
    while i < content.len()
        invariant
            start <= i <= content.len(),
            rest@ == content@.subrange(start as int, i as int),
        decreases content.len() - i,
    {
        rest.push(content[i]);
        i = i + 1;
    }
    assert(content@.subrange(start as int, content.len() as int) == after_bom(content@));
    (has, rest)
}

/// The dominant line ending is CRLF when the first `\n` is preceded by `\r`
/// (equivalently: the first `\r\n` starts before the first `\n`).
pub open spec fn crlf_ending(s: Seq<char>) -> bool {
    exists|l: int|
        #![trigger s[l]]
        0 < l < s.len() && s[l] == '\n' && s[l - 1] == '\r' && (forall|j: int|
            0 <= j < l ==> s[j] != '\n')
}

fn detect_line_ending(content: &[char]) -> (crlf: bool)
    ensures
        crlf == crlf_ending(content@),
{
    let mut i: usize = 0;
    while i < content.len()
        invariant
            i <= content.len(),
            forall|j: int| 0 <= j < i ==> content@[j] != '\n',
        decreases content.len() - i,
    {
        if content[i] == '\n' {
            let r = i > 0 && content[i - 1] == '\r';
            proof {
                if !r {
                    assert forall|l: int|
                        #![trigger content@[l]]
                        0 < l < content@.len() && content@[l] == '\n' && content@[l - 1] == '\r'
                            implies !(forall|j: int| 0 <= j < l ==> content@[j] != '\n') by {
                        if l != i {
                            assert(content@[i as int] == '\n');
                        }
                    }
                }
            }
            return r;
        }
        i = i + 1;
    }
    false
}

/// `\r\n` and lone `\r` both become `\n`.
pub open spec fn normalize_lf(s: Seq<char>) -> Seq<char>
    decreases s.len(),
{
    if s.len() == 0 {
        s
    } else if s[0] == '\r' && s.len() > 1 && s[1] == '\n' {
        seq!['\n'] + normalize_lf(s.subrange(2, s.len() as int))
    } else if s[0] == '\r' {
        seq!['\n'] + normalize_lf(s.drop_first())
    } else {
        seq![s[0]] + normalize_lf(s.drop_first())
    }
}

fn normalize_to_lf(content: &[char]) -> (r: Vec<char>)
    ensures
        r@ == normalize_lf(content@),
{
    let mut out: Vec<char> = Vec::new();
    let mut i: usize = 0;
    assert(content@.subrange(0, content.len() as int) == content@);
    while i < content.len()
        invariant
            i <= content.len(),
            normalize_lf(content@) == out@ + normalize_lf(content@.subrange(i as int, content.len() as int)),
        decreases content.len() - i,
    {
        let ghost rest = content@.subrange(i as int, content.len() as int);
        if content[i] == '\r' && i + 1 < content.len() && content[i + 1] == '\n' {
            assert(rest.subrange(2, rest.len() as int) == content@.subrange(i + 2, content.len() as int));
            out.push('\n');
            i = i + 2;
        } else {
            assert(rest.drop_first() == content@.subrange(i + 1, content.len() as int));
            if content[i] == '\r' {
                out.push('\n');
            } else {
                out.push(content[i]);
            }
            i = i + 1;
        }
    }
    out
}

/// Every `\n` becomes `\r\n` when the ending is CRLF.
pub open spec fn restore_endings(s: Seq<char>, crlf: bool) -> Seq<char>
    decreases s.len(),
{
    if !crlf || s.len() == 0 {
        s
    } else if s[0] == '\n' {
        seq!['\r', '\n'] + restore_endings(s.drop_first(), crlf)
    } else {
        seq![s[0]] + restore_endings(s.drop_first(), crlf)
    }
}

fn restore_line_endings(content: &[char], crlf: bool) -> (r: Vec<char>)
    ensures
        r@ == restore_endings(content@, crlf),
{
    let mut out: Vec<char> = Vec::new();
    let mut i: usize = 0;
    assert(content@.subrange(0, content.len() as int) == content@);
    while i < content.len()
        invariant
            i <= content.len(),
            restore_endings(content@, crlf) == out@ + restore_endings(
                content@.subrange(i as int, content.len() as int),
                crlf,
            ),
        decreases content.len() - i,
    {
        let ghost rest = content@.subrange(i as int, content.len() as int);
        assert(rest.drop_first() == content@.subrange(i + 1, content.len() as int));
        if crlf && content[i] == '\n' {
            out.push('\r');
            out.push('\n');
        } else {
            out.push(content[i]);
        }
        i = i + 1;
    }
    if !crlf {
        assert(out@ == content@);
    }
    out
}

/// Lightweight fuzzy view: trailing whitespace stripped from every line.
pub open spec fn trim_end_lines(s: Seq<char>) -> Seq<char> {
    join(split_on(s, '\n').map_values(|l: Seq<char>| trim_end(l)), seq!['\n'])
}


fn trim_end_lines_exec(content: &[char]) -> (r: Vec<char>)
    ensures
        r@ == trim_end_lines(content@),
{
    let lines = split_chars(content, '\n');
    let mut trimmed: Vec<Vec<char>> = Vec::new();
    let mut i: usize = 0;
    while i < lines.len()
        invariant
            i <= lines.len(),
            views(trimmed@) == views(lines@).subrange(0, i as int).map_values(
                |l: Seq<char>| trim_end(l),
            ),
        decreases lines.len() - i,
    {
        let n = trim_end_len(&lines[i]);
        let t = sub_chars(&lines[i], 0, n);
        let ghost prev = trimmed@;
        trimmed.push(t);
        assert(views(trimmed@) == views(prev).push(t@));
        assert(views(lines@).subrange(0, i + 1) == views(lines@).subrange(0, i as int).push(
            lines@[i as int]@,
        ));
        i = i + 1;
    }
    assert(views(lines@).subrange(0, lines.len() as int) == views(lines@));
    let sep = vec!['\n'];
    assert(sep@ == seq!['\n']);
    assert(views(trimmed@) == split_on(content@, '\n').map_values(|l: Seq<char>| trim_end(l)));
    join_chars(&trimmed, &sep)
}

// ---------------------------------------------------------------------------
// Error messages
// ---------------------------------------------------------------------------

pub open spec fn msg_empty_edits() -> Seq<char> {
    "edit tool input is invalid. edits must contain at least one replacement."@
}

pub open spec fn msg_empty(path: Seq<char>, i: nat, total: nat) -> Seq<char> {
    if total == 1 {
        "oldText must not be empty in "@ + path + "."@
    } else {
        "edits["@ + dec(i) + "].oldText must not be empty in "@ + path + "."@
    }
}

pub open spec fn msg_not_found(path: Seq<char>, i: nat, total: nat) -> Seq<char> {
    if total == 1 {
        "Could not find the exact text in "@ + path
            + ". The old text must match exactly including all whitespace and newlines."@
    } else {
        "Could not find edits["@ + dec(i) + "] in "@ + path
            + ". The oldText must match exactly including all whitespace and newlines."@
    }
}

pub open spec fn msg_not_unique(path: Seq<char>, i: nat, total: nat, occ: nat) -> Seq<char> {
    if total == 1 {
        "Found "@ + dec(occ) + " occurrences of the text in "@ + path
            + ". The text must be unique. Please provide more context to make it unique."@
    } else {
        "Found "@ + dec(occ) + " occurrences of edits["@ + dec(i) + "] in "@ + path
            + ". Each oldText must be unique. Please provide more context to make it unique."@
    }
}

pub open spec fn msg_no_change(path: Seq<char>, total: nat) -> Seq<char> {
    if total == 1 {
        "No changes made to "@ + path + ". The replacement produced identical content."@
    } else {
        "No changes made to "@ + path + ". The replacements produced identical content."@
    }
}

pub open spec fn msg_overlap(path: Seq<char>, a: nat, b: nat) -> Seq<char> {
    "edits["@ + dec(a) + "] and edits["@ + dec(b) + "] overlap in "@ + path
        + ". Merge them into one edit or target disjoint regions."@
}

fn err_empty(path: &str, i: usize, total: usize) -> (r: String)
    ensures
        r@ == msg_empty(path@, i as nat, total as nat),
{
    let mut m = String::new();
    if total == 1 {
        push_str(&mut m, "oldText must not be empty in ");
    } else {
        push_str(&mut m, "edits[");
        push_str(&mut m, fmt_usize(i).as_str());
        push_str(&mut m, "].oldText must not be empty in ");
    }
    push_str(&mut m, path);
    push_str(&mut m, ".");
    m
}

fn err_not_found(path: &str, i: usize, total: usize) -> (r: String)
    ensures
        r@ == msg_not_found(path@, i as nat, total as nat),
{
    let mut m = String::new();
    if total == 1 {
        push_str(&mut m, "Could not find the exact text in ");
        push_str(&mut m, path);
        push_str(&mut m, ". The old text must match exactly including all whitespace and newlines.");
    } else {
        push_str(&mut m, "Could not find edits[");
        push_str(&mut m, fmt_usize(i).as_str());
        push_str(&mut m, "] in ");
        push_str(&mut m, path);
        push_str(&mut m, ". The oldText must match exactly including all whitespace and newlines.");
    }
    m
}

fn err_not_unique(path: &str, i: usize, total: usize, occurrences: usize) -> (r: String)
    ensures
        r@ == msg_not_unique(path@, i as nat, total as nat, occurrences as nat),
{
    let mut m = String::new();
    push_str(&mut m, "Found ");
    push_str(&mut m, fmt_usize(occurrences).as_str());
    if total == 1 {
        push_str(&mut m, " occurrences of the text in ");
        push_str(&mut m, path);
        push_str(&mut m, ". The text must be unique. Please provide more context to make it unique.");
    } else {
        push_str(&mut m, " occurrences of edits[");
        push_str(&mut m, fmt_usize(i).as_str());
        push_str(&mut m, "] in ");
        push_str(&mut m, path);
        push_str(&mut m, ". Each oldText must be unique. Please provide more context to make it unique.");
    }
    m
}

fn err_no_change(path: &str, total: usize) -> (r: String)
    ensures
        r@ == msg_no_change(path@, total as nat),
{
    let mut m = String::new();
    push_str(&mut m, "No changes made to ");
    push_str(&mut m, path);
    if total == 1 {
        push_str(&mut m, ". The replacement produced identical content.");
    } else {
        push_str(&mut m, ". The replacements produced identical content.");
    }
    m
}

fn err_overlap(path: &str, a: usize, b: usize) -> (r: String)
    ensures
        r@ == msg_overlap(path@, a as nat, b as nat),
{
    let mut m = String::new();
    push_str(&mut m, "edits[");
    push_str(&mut m, fmt_usize(a).as_str());
    push_str(&mut m, "] and edits[");
    push_str(&mut m, fmt_usize(b).as_str());
    push_str(&mut m, "] overlap in ");
    push_str(&mut m, path);
    push_str(&mut m, ". Merge them into one edit or target disjoint regions.");
    m
}


// ---------------------------------------------------------------------------
// Matching
// ---------------------------------------------------------------------------

/// One located edit: which edit, where its match starts in the matching
/// view, how long it is, and the normalized replacement text.
pub struct Match {
    pub edit_index: usize,
    pub match_index: usize,
    pub match_len: usize,
    pub new_text: Vec<char>,
}

/// The mathematical value of a match.
pub ghost struct MatchSpec {
    pub edit: nat,
    pub index: nat,
    pub len: nat,
    pub new_text: Seq<char>,
}

pub open spec fn mview(m: Match) -> MatchSpec {
    MatchSpec {
        edit: m.edit_index as nat,
        index: m.match_index as nat,
        len: m.match_len as nat,
        new_text: m.new_text@,
    }
}

pub open spec fn mviews(ms: Seq<Match>) -> Seq<MatchSpec> {
    ms.map_values(|m: Match| mview(m))
}

/// The normalized old text of an edit.
pub open spec fn old_of(e: Edit) -> Seq<char> {
    normalize_lf(e.old_text@)
}

/// The normalized new text of an edit.
pub open spec fn new_of(e: Edit) -> Seq<char> {
    normalize_lf(e.new_text@)
}

/// The normalized old texts of `es`.
pub open spec fn olds_of(es: Seq<Edit>) -> Seq<Seq<char>> {
    es.map_values(|e: Edit| old_of(e))
}

/// The normalized new texts of `es`.
pub open spec fn news_of(es: Seq<Edit>) -> Seq<Seq<char>> {
    es.map_values(|e: Edit| new_of(e))
}

/// Index of the first empty old text, searching from `i`.
pub open spec fn first_empty_from(olds: Seq<Seq<char>>, i: nat) -> Option<nat>
    decreases olds.len() - i,
{
    if i >= olds.len() {
        None
    } else if olds[i as int].len() == 0 {
        Some(i)
    } else {
        first_empty_from(olds, i + 1)
    }
}

/// Does old text `old` miss the exact view but hit the fuzzy view?
pub open spec fn misses_exact_hits_fuzzy(normalized: Seq<char>, fuzzy: Seq<char>, old: Seq<char>) -> bool {
    !contains(normalized, old) && contains(fuzzy, trim_end_lines(old))
}

/// Some old text misses the exact view but hits the fuzzy view.
pub open spec fn needs_fuzzy(normalized: Seq<char>, fuzzy: Seq<char>, olds: Seq<Seq<char>>) -> bool {
    exists|i: int| 0 <= i < olds.len() && #[trigger] misses_exact_hits_fuzzy(normalized, fuzzy, olds[i])
}

/// Where an old text is found: exactly in `base`, else after trimming in
/// `base_fuzzy`; the match start and its length.
pub open spec fn locate(base: Seq<char>, base_fuzzy: Seq<char>, old: Seq<char>) -> Option<(nat, nat)> {
    match find(base, old) {
        Some(k) => Some((k, old.len())),
        None => match find(base_fuzzy, trim_end_lines(old)) {
            Some(k) => Some((k, trim_end_lines(old).len())),
            None => None,
        },
    }
}

/// Match every edit from `i` on, in order; the first failure wins.
pub open spec fn match_from(
    base: Seq<char>,
    base_fuzzy: Seq<char>,
    olds: Seq<Seq<char>>,
    news: Seq<Seq<char>>,
    path: Seq<char>,
    i: nat,
) -> Result<Seq<MatchSpec>, Seq<char>>
    decreases olds.len() - i,
{
    if i >= olds.len() {
        Ok(Seq::empty())
    } else {
        let old = olds[i as int];
        match locate(base, base_fuzzy, old) {
            None => Err(msg_not_found(path, i, olds.len())),
            Some((k, l)) => {
                let occ = occurrences(base_fuzzy, trim_end_lines(old));
                if occ > 1 {
                    Err(msg_not_unique(path, i, olds.len(), occ))
                } else {
                    prefixed(
                        MatchSpec { edit: i, index: k, len: l, new_text: news[i as int] },
                        match_from(base, base_fuzzy, olds, news, path, i + 1),
                    )
                }
            },
        }
    }
}

/// `r` with `m` in front when it is a success.
pub open spec fn prefixed(m: MatchSpec, r: Result<Seq<MatchSpec>, Seq<char>>) -> Result<Seq<MatchSpec>, Seq<char>> {
    match r {
        Ok(rest) => Ok(seq![m] + rest),
        Err(e) => Err(e),
    }
}

/// `r` with `p` in front when it is a success.
pub open spec fn prefixed_all(p: Seq<MatchSpec>, r: Result<Seq<MatchSpec>, Seq<char>>) -> Result<Seq<MatchSpec>, Seq<char>> {
    match r {
        Ok(rest) => Ok(p + rest),
        Err(e) => Err(e),
    }
}

/// Stable insertion of `m` into a list sorted by match start.
pub open spec fn insert_by_index(sorted: Seq<MatchSpec>, m: MatchSpec) -> Seq<MatchSpec>
    decreases sorted.len(),
{
    if sorted.len() == 0 || sorted.last().index <= m.index {
        sorted.push(m)
    } else {
        insert_by_index(sorted.drop_last(), m).push(sorted.last())
    }
}

/// Stable sort by match start.
pub open spec fn sort_by_index(ms: Seq<MatchSpec>) -> Seq<MatchSpec>
    decreases ms.len(),
{
    if ms.len() == 0 {
        ms
    } else {
        insert_by_index(sort_by_index(ms.drop_last()), ms.last())
    }
}

/// First adjacent pair (from `k`) whose first match runs into the second.
pub open spec fn first_overlap(ms: Seq<MatchSpec>, k: nat) -> Option<nat>
    decreases ms.len() - k,
{
    if k + 1 >= ms.len() {
        None
    } else if ms[k as int].index + ms[k as int].len > ms[(k + 1) as int].index {
        Some(k)
    } else {
        first_overlap(ms, k + 1)
    }
}

/// `s[a..b]` with both ends clamped into `s`.
pub open spec fn clip(s: Seq<char>, a: int, b: int) -> Seq<char> {
    let lo = if a < 0 { 0 } else if a > s.len() { s.len() as int } else { a };
    let hi = if b < lo { lo } else if b > s.len() { s.len() as int } else { b };
    s.subrange(lo, hi)
}

/// Replace every match (offsets relative to `off`, sorted, disjoint) in `s`,
/// continuing from position `pos`.
pub open spec fn splice(s: Seq<char>, ms: Seq<MatchSpec>, off: int, pos: int) -> Seq<char>
    decreases ms.len(),
{
    if ms.len() == 0 {
        clip(s, pos, s.len() as int)
    } else {
        let a: int = if ms[0].index >= off { ms[0].index - off } else { 0 };
        clip(s, pos, a) + ms[0].new_text + splice(s, ms.drop_first(), off, a + ms[0].len)
    }
}

fn clip_chars(s: &[char], a: usize, b: usize) -> (r: Vec<char>)
    ensures
        r@ == clip(s@, a as int, b as int),
{
    let lo = if a > s.len() { s.len() } else { a };
    let hi = if b < lo { lo } else if b > s.len() { s.len() } else { b };
    sub_chars(s, lo, hi)
}


/// `locate` on char slices.
fn locate_exec(base: &[char], base_fuzzy: &[char], old: &[char], fuzzy_old: &[char]) -> (r: Option<(usize, usize)>)
    requires
        fuzzy_old@ == trim_end_lines(old@),
    ensures
        r matches Some((k, l)) ==> locate(base@, base_fuzzy@, old@) == Some((k as nat, l as nat))
            && k + l <= usize::MAX,
        r is None ==> locate(base@, base_fuzzy@, old@) is None,
{
    let bl = base.len();
    let fl = base_fuzzy.len();
    match find_chars(base, old, 0) {
        Some(k) => {
            proof {
                lemma_find_from(base@, old@, 0);
            }
            assert(k + old@.len() <= bl);
            Some((k, old.len()))
        },
        None => match find_chars(base_fuzzy, fuzzy_old, 0) {
            Some(k) => {
                proof {
                    lemma_find_from(base_fuzzy@, fuzzy_old@, 0);
                }
                assert(k + fuzzy_old@.len() <= fl);
                Some((k, fuzzy_old.len()))
            },
            None => None,
        },
    }
}

/// Match every edit against `base` (exact) / `base_fuzzy` (trimmed), in edit
/// order.
fn match_edits(
    base: &[char],
    base_fuzzy: &[char],
    olds: &Vec<Vec<char>>,
    news: &Vec<Vec<char>>,
    path: &str,
) -> (r: Result<Vec<Match>, String>)
    requires
        olds@.len() == news@.len(),
    ensures
        r matches Ok(ms) ==> match_from(base@, base_fuzzy@, views(olds@), views(news@), path@, 0)
            == Ok::<Seq<MatchSpec>, Seq<char>>(mviews(ms@)) && (forall|j: int|
            0 <= j < ms@.len() ==> #[trigger] ms@[j].match_index + ms@[j].match_len <= usize::MAX),
        r matches Err(e) ==> match_from(base@, base_fuzzy@, views(olds@), views(news@), path@, 0)
            == Err::<Seq<MatchSpec>, Seq<char>>(e@),
{
    let ghost o = views(olds@);
    let ghost n = views(news@);
    let total = olds.len();
    let mut ms: Vec<Match> = Vec::new();
    let mut i: usize = 0;
    while i < total
        invariant
            i <= total,
            total == olds@.len(),
            olds@.len() == news@.len(),
            o == views(olds@),
            n == views(news@),
            forall|j: int| 0 <= j < ms@.len() ==> #[trigger] ms@[j].match_index + ms@[j].match_len <= usize::MAX,
            match_from(base@, base_fuzzy@, o, n, path@, 0) == prefixed_all(
                mviews(ms@),
                match_from(base@, base_fuzzy@, o, n, path@, i as nat),
            ),
        decreases total - i,
    {
        let old = &olds[i];
        let fuzzy_old = trim_end_lines_exec(old);
        assert(o[i as int] == old@);
        match locate_exec(base, base_fuzzy, old, &fuzzy_old) {
            None => {
                return Err(err_not_found(path, i, total));
            },
            Some((k, l)) => {
                let occ = count_occurrences(base_fuzzy, &fuzzy_old);
                if occ > 1 {
                    let e = err_not_unique_u128(path, i, total, occ);
                    return Err(e);
                }
                let m = Match { edit_index: i, match_index: k, match_len: l, new_text: copy_chars(&news[i]) };
                let ghost before = ms@;
                ms.push(m);
                assert forall|j: int| 0 <= j < ms@.len() implies #[trigger] ms@[j].match_index + ms@[j].match_len <= usize::MAX by {
                    if j < before.len() {
                        assert(ms@[j] == before[j]);
                    }
                }
                proof {
                    assert(mviews(ms@) == mviews(before).push(mview(m)));
                    assert(mview(m) == MatchSpec { edit: i as nat, index: k as nat, len: l as nat, new_text: n[i as int] });
                    let r = match_from(base@, base_fuzzy@, o, n, path@, (i + 1) as nat);
                    match r {
                        Ok(rest) => {
                            assert(mviews(before) + (seq![mview(m)] + rest) == mviews(ms@) + rest);
                        },
                        Err(_) => {},
                    }
                }
            },
        }
        i = i + 1;
    }
    assert(mviews(ms@) + Seq::<MatchSpec>::empty() == mviews(ms@));
    Ok(ms)
}

fn err_not_unique_u128(path: &str, i: usize, total: usize, occurrences: u128) -> (r: String)
    ensures
        r@ == msg_not_unique(path@, i as nat, total as nat, occurrences as nat),
{
    let mut m = String::new();
    push_str(&mut m, "Found ");
    push_str(&mut m, fmt_u128(occurrences).as_str());
    if total == 1 {
        push_str(&mut m, " occurrences of the text in ");
        push_str(&mut m, path);
        push_str(&mut m, ". The text must be unique. Please provide more context to make it unique.");
    } else {
        push_str(&mut m, " occurrences of edits[");
        push_str(&mut m, fmt_usize(i).as_str());
        push_str(&mut m, "] in ");
        push_str(&mut m, path);
        push_str(&mut m, ". Each oldText must be unique. Please provide more context to make it unique.");
    }
    m
}

/// Stable insertion by match start.
fn insert_sorted(v: &mut Vec<Match>, m: Match)
    ensures
        mviews(final(v)@) == insert_by_index(mviews(old(v)@), mview(m)),
    decreases old(v)@.len(),
{
    let ghost ov = mviews(v@);
    if v.len() == 0 || v[v.len() - 1].match_index <= m.match_index {
        v.push(m);
        assert(mviews(v@) == ov.push(mview(m)));
    } else {
        let x = v.pop().unwrap();
        assert(mviews(v@) == ov.drop_last());
        insert_sorted(v, m);
        let ghost mid = mviews(v@);
        v.push(x);
        assert(mviews(v@) == mid.push(mview(x)));
    }
}

/// Stable sort by match start.
fn sort_matches(ms: Vec<Match>) -> (r: Vec<Match>)
    ensures
        mviews(r@) == sort_by_index(mviews(ms@)),
{
    let mut out: Vec<Match> = Vec::new();
    let mut rest = ms;
    let n = rest.len();
    let ghost all = mviews(rest@);
    // consume from the front by reversing once
    let mut rev: Vec<Match> = Vec::new();
    while rest.len() > 0
        invariant
            mviews(rest@) + mviews(rev@).reverse() == all,
            all.len() == n,
        decreases rest.len(),
    {
        let ghost r0 = mviews(rest@);
        let ghost v0 = mviews(rev@);
        let x = rest.pop().unwrap();
        rev.push(x);
        proof {
            assert(mviews(rest@) == r0.drop_last());
            assert(mviews(rev@) == v0.push(mview(x)));
            assert(mviews(rev@).reverse() == seq![mview(x)] + v0.reverse());
            assert(r0 == r0.drop_last().push(mview(x)));
        }
    }
    // rev holds the matches last-first
    assert(mviews(rev@).reverse() == all);
    let mut k: usize = 0;
    while rev.len() > 0
        invariant
            mviews(out@) == sort_by_index(all.subrange(0, k as int)),
            all.subrange(k as int, all.len() as int) == mviews(rev@).reverse(),
            k + rev@.len() == all.len(),
            all.len() == n,
        decreases rev.len(),
    {
        let ghost v0 = mviews(rev@);
        let x = rev.pop().unwrap();
        proof {
            assert(mviews(rev@) == v0.drop_last());
            assert(v0.reverse()[0] == mview(x));
            assert(all[k as int] == mview(x));
            assert(all.subrange(0, k + 1).drop_last() == all.subrange(0, k as int));
            assert(all.subrange(k + 1, all.len() as int) == v0.reverse().drop_first());
            assert(v0.reverse().drop_first() == v0.drop_last().reverse());
        }
        insert_sorted(&mut out, x);
        k = k + 1;
    }
    assert(all.subrange(0, k as int) == all);
    out
}

/// Index of the first adjacent overlapping pair.
fn find_overlap(ms: &Vec<Match>) -> (r: Option<usize>)
    requires
        forall|j: int| 0 <= j < ms@.len() ==> ms@[j].match_index + ms@[j].match_len <= usize::MAX,
    ensures
        r matches Some(k) ==> first_overlap(mviews(ms@), 0) == Some(k as nat) && k + 1 < ms@.len(),
        r is None ==> first_overlap(mviews(ms@), 0) is None,
{
    let mut k: usize = 0;
    while ms.len() > 0 && k < ms.len() - 1
        invariant
            first_overlap(mviews(ms@), 0) == first_overlap(mviews(ms@), k as nat),
            forall|j: int| 0 <= j < ms@.len() ==> ms@[j].match_index + ms@[j].match_len <= usize::MAX,
        decreases ms.len() - k,
    {
        if ms[k].match_index + ms[k].match_len > ms[k + 1].match_index {
            return Some(k);
        }
        k = k + 1;
    }
    None
}

/// `splice` of the matches `ms[lo..hi]` on char slices.
fn splice_exec(s: &[char], ms: &Vec<Match>, lo: usize, hi: usize, off: usize) -> (r: Vec<char>)
    requires
        lo <= hi <= ms@.len(),
        forall|j: int| 0 <= j < ms@.len() ==> ms@[j].match_index + ms@[j].match_len <= usize::MAX,
    ensures
        r@ == splice(s@, mviews(ms@).subrange(lo as int, hi as int), off as int, 0),
{
    let mut out: Vec<char> = Vec::new();
    let mut pos: usize = 0;
    let mut k: usize = lo;
    let ghost all = mviews(ms@).subrange(lo as int, hi as int);
    assert(all.subrange(0, all.len() as int) == all);
    while k < hi
        invariant
            lo <= k <= hi,
            hi <= ms@.len(),
            all == mviews(ms@).subrange(lo as int, hi as int),
            forall|j: int| 0 <= j < ms@.len() ==> ms@[j].match_index + ms@[j].match_len <= usize::MAX,
            splice(s@, all, off as int, 0) == out@ + splice(
                s@,
                all.subrange(k - lo, all.len() as int),
                off as int,
                pos as int,
            ),
        decreases hi - k,
    {
        let m = &ms[k];
        let ghost rest = all.subrange(k - lo, all.len() as int);
        assert(rest[0] == mview(ms@[k as int]));
        assert(rest.drop_first() == all.subrange(k + 1 - lo, all.len() as int));
        let a: usize = if m.match_index >= off { m.match_index - off } else { 0 };
        let piece = clip_chars(s, pos, a);
        append_chars(&mut out, &piece);
        append_chars(&mut out, &m.new_text);
        pos = a + m.match_len;
        k = k + 1;
    }
    let tail = clip_chars(s, pos, s.len());
    append_chars(&mut out, &tail);
    out
}

// ---------------------------------------------------------------------------
// Line-preserving rewrite (fuzzy path)
// ---------------------------------------------------------------------------

/// Line spans of `s` from position `k` (current line starting at `start`):
/// each `(start, end)` covers a line without its `\n`.
pub open spec fn spans_scan(s: Seq<char>, k: nat, start: nat) -> Seq<(nat, nat)>
    decreases s.len() - k,
{
    if k >= s.len() {
        seq![(start, s.len())]
    } else if s[k as int] == '\n' {
        seq![(start, k)] + spans_scan(s, k + 1, k + 1)
    } else {
        spans_scan(s, k + 1, start)
    }
}

pub open spec fn spans_of(s: Seq<char>) -> Seq<(nat, nat)> {
    spans_scan(s, 0, 0)
}

pub open spec fn span_views(v: Seq<(usize, usize)>) -> Seq<(nat, nat)> {
    v.map_values(|p: (usize, usize)| (p.0 as nat, p.1 as nat))
}

proof fn lemma_spans_scan(s: Seq<char>, k: nat, start: nat)
    requires
        start <= k <= s.len(),
    ensures
        spans_scan(s, k, start).len() >= 1,
        forall|j: int|
            0 <= j < spans_scan(s, k, start).len() ==> #[trigger] spans_scan(s, k, start)[j].0
                <= spans_scan(s, k, start)[j].1 <= s.len(),
    decreases s.len() - k,
{
    if k < s.len() {
        if s[k as int] == '\n' {
            lemma_spans_scan(s, k + 1, k + 1);
        } else {
            lemma_spans_scan(s, k + 1, start);
        }
    }
}

/// Split into line spans, each covering the line content without its `\n`.
fn line_spans(s: &[char]) -> (r: Vec<(usize, usize)>)
    ensures
        span_views(r@) == spans_of(s@),
        r@.len() >= 1,
{
    let mut spans: Vec<(usize, usize)> = Vec::new();
    let mut start: usize = 0;
    let mut k: usize = 0;
    proof {
        lemma_spans_scan(s@, 0, 0);
    }
    while k < s.len()
        invariant
            start <= k <= s.len(),
            spans_of(s@) == span_views(spans@) + spans_scan(s@, k as nat, start as nat),
        decreases s.len() - k,
    {
        if s[k] == '\n' {
            let ghost before = spans@;
            spans.push((start, k));
            assert(span_views(spans@) == span_views(before).push((start as nat, k as nat)));
            start = k + 1;
        }
        k = k + 1;
    }
    let ghost before = spans@;
    spans.push((start, s.len()));
    assert(span_views(spans@) == span_views(before).push((start as nat, s.len() as nat)));
    spans
}

/// The line holding `off`, searching from line `k`; an offset on a line's
/// `\n` belongs to the line it ends. Falls back to the last line.
pub open spec fn line_of_from(spans: Seq<(nat, nat)>, off: int, k: nat) -> nat
    decreases spans.len() - k,
{
    if k >= spans.len() {
        if spans.len() > 0 {
            (spans.len() - 1) as nat
        } else {
            0
        }
    } else if spans[k as int].0 <= off <= spans[k as int].1 {
        k
    } else {
        line_of_from(spans, off, k + 1)
    }
}

fn line_of_offset(spans: &Vec<(usize, usize)>, off: usize) -> (r: usize)
    requires
        spans@.len() >= 1,
    ensures
        r as nat == line_of_from(span_views(spans@), off as int, 0),
        r < spans@.len(),
{
    let mut k: usize = 0;
    while k < spans.len()
        invariant
            spans@.len() >= 1,
            line_of_from(span_views(spans@), off as int, 0) == line_of_from(span_views(spans@), off as int, k as nat),
        decreases spans.len() - k,
    {
        if spans[k].0 <= off && off <= spans[k].1 {
            return k;
        }
        k = k + 1;
    }
    spans.len() - 1
}

/// A run `ms[lo..hi]` of sorted matches rewritten as one block of lines
/// `start..=end`.
pub ghost struct GroupSpec {
    pub start: nat,
    pub end: nat,
    pub lo: nat,
    pub hi: nat,
}

pub struct Group {
    pub start: usize,
    pub end: usize,
    pub lo: usize,
    pub hi: usize,
}

pub open spec fn gview(g: Group) -> GroupSpec {
    GroupSpec { start: g.start as nat, end: g.end as nat, lo: g.lo as nat, hi: g.hi as nat }
}

pub open spec fn gviews(gs: Seq<Group>) -> Seq<GroupSpec> {
    gs.map_values(|g: Group| gview(g))
}

/// Group sorted matches from `k` on into runs of adjacent or shared lines.
pub open spec fn groups_from(spans: Seq<(nat, nat)>, ms: Seq<MatchSpec>, k: nat, gs: Seq<GroupSpec>) -> Seq<GroupSpec>
    decreases ms.len() - k,
{
    if k >= ms.len() {
        gs
    } else {
        let m = ms[k as int];
        let s = line_of_from(spans, m.index as int, 0);
        let e = line_of_from(spans, m.index + m.len - 1, 0);
        if gs.len() > 0 && s <= gs.last().end + 1 {
            let g = gs.last();
            let e2 = if g.end >= e { g.end } else { e };
            groups_from(spans, ms, k + 1, gs.update(gs.len() - 1, GroupSpec { start: g.start, end: e2, lo: g.lo, hi: k + 1 }))
        } else {
            groups_from(spans, ms, k + 1, gs.push(GroupSpec { start: s, end: e, lo: k, hi: k + 1 }))
        }
    }
}

/// `ls[a..b]` with both ends clamped.
pub open spec fn clip_lines(ls: Seq<Seq<char>>, a: int, b: int) -> Seq<Seq<char>> {
    let lo = if a < 0 { 0 } else if a > ls.len() { ls.len() as int } else { a };
    let hi = if b < lo { lo } else if b > ls.len() { ls.len() as int } else { b };
    ls.subrange(lo, hi)
}

/// Does the group's last match run past the end of its last line, i.e.
/// consume that line's `\n`?
pub open spec fn consumes_newline(spans: Seq<(nat, nat)>, ms: Seq<MatchSpec>, g: GroupSpec) -> bool {
    g.hi >= 1 && ms[g.hi - 1].index + ms[g.hi - 1].len > spans[g.end as int].1
}

/// Rebuild the result lines group by group from group `gi` on: untouched
/// lines come from `orig`, each group's block is rewritten from `base`.
/// When a block consumes its last line's `\n`, its final piece joins the
/// following original line.
pub open spec fn rebuild_from(
    orig: Seq<Seq<char>>,
    base: Seq<char>,
    spans: Seq<(nat, nat)>,
    ms: Seq<MatchSpec>,
    gs: Seq<GroupSpec>,
    gi: nat,
    out: Seq<Seq<char>>,
    line_idx: nat,
) -> Seq<Seq<char>>
    decreases gs.len() - gi,
{
    if gi >= gs.len() {
        out + clip_lines(orig, line_idx as int, orig.len() as int)
    } else {
        let g = gs[gi as int];
        let before = clip_lines(orig, line_idx as int, g.start as int);
        let bs = spans[g.start as int].0;
        let consumed = consumes_newline(spans, ms, g);
        let be = if consumed { spans[g.end as int].1 + 1 } else { spans[g.end as int].1 };
        let block = clip(base, bs as int, be as int);
        let pieces = split_on(splice(block, ms.subrange(g.lo as int, g.hi as int), bs as int, 0), '\n');
        if consumed && g.end + 1 < orig.len() {
            rebuild_from(
                orig,
                base,
                spans,
                ms,
                gs,
                gi + 1,
                out + before + pieces.drop_last() + seq![pieces.last() + orig[(g.end + 1) as int]],
                g.end + 2,
            )
        } else {
            rebuild_from(orig, base, spans, ms, gs, gi + 1, out + before + pieces, g.end + 1)
        }
    }
}

/// The fuzzy-path result: `original`'s lines with the matched blocks of
/// `base` rewritten.
pub open spec fn preserving(original: Seq<char>, base: Seq<char>, ms: Seq<MatchSpec>) -> Seq<char> {
    let spans = spans_of(base);
    let gs = groups_from(spans, ms, 0, Seq::empty());
    join(rebuild_from(split_on(original, '\n'), base, spans, ms, gs, 0, Seq::empty(), 0), seq!['\n'])
}

fn clip_lines_exec(ls: &Vec<Vec<char>>, out: &mut Vec<Vec<char>>, a: usize, b: usize)
    ensures
        views(final(out)@) == views(old(out)@) + clip_lines(views(ls@), a as int, b as int),
{
    let lo = if a > ls.len() { ls.len() } else { a };
    let hi = if b < lo { lo } else if b > ls.len() { ls.len() } else { b };
    let mut i = lo;
    while i < hi
        invariant
            lo <= i <= hi <= ls@.len(),
            views(out@) == views(old(out)@) + views(ls@).subrange(lo as int, i as int),
        decreases hi - i,
    {
        let ghost before = out@;
        out.push(copy_chars(&ls[i]));
        assert(views(out@) == views(before).push(ls@[i as int]@));
        i = i + 1;
    }
}

fn apply_preserving(original: &[char], base: &[char], ms: &Vec<Match>) -> (r: Vec<char>)
    requires
        forall|j: int| 0 <= j < ms@.len() ==> #[trigger] ms@[j].match_index + ms@[j].match_len <= usize::MAX
            && ms@[j].match_index + ms@[j].match_len >= 1,
    ensures
        r@ == preserving(original@, base@, mviews(ms@)),
{
    let spans = line_spans(base);
    let ghost sv = span_views(spans@);
    let ghost mv = mviews(ms@);
    // group the sorted matches
    let mut groups: Vec<Group> = Vec::new();
    let mut k: usize = 0;
    while k < ms.len()
        invariant
            k <= ms@.len(),
            sv == span_views(spans@),
            mv == mviews(ms@),
            spans@.len() >= 1,
            forall|j: int| 0 <= j < ms@.len() ==> #[trigger] ms@[j].match_index + ms@[j].match_len <= usize::MAX
                && ms@[j].match_index + ms@[j].match_len >= 1,
            groups_from(sv, mv, 0, Seq::empty()) == groups_from(sv, mv, k as nat, gviews(groups@)),
            forall|j: int| 0 <= j < groups@.len() ==> #[trigger] groups@[j].start < spans@.len()
                && groups@[j].end < spans@.len() && groups@[j].lo < groups@[j].hi && groups@[j].hi <= k,
        decreases ms.len() - k,
    {
        let m = &ms[k];
        let s = line_of_offset(&spans, m.match_index);
        let e = line_of_offset(&spans, m.match_index + m.match_len - 1);
        let ghost before = groups@;
        let n = groups.len();
        if n > 0 {
            assert(groups@[n - 1].start < spans@.len());
        }
        if n > 0 && (s == 0 || s - 1 <= groups[n - 1].end) {
            let g = &groups[n - 1];
            let e2 = if g.end >= e { g.end } else { e };
            let ng = Group { start: g.start, end: e2, lo: g.lo, hi: k + 1 };
            groups.set(n - 1, ng);
            assert(gviews(groups@) == gviews(before).update(n - 1, gview(ng)));
            assert forall|j: int| 0 <= j < groups@.len() implies #[trigger] groups@[j].start < spans@.len()
                && groups@[j].end < spans@.len() && groups@[j].lo < groups@[j].hi && groups@[j].hi <= k + 1 by {
                if j < n - 1 {
                    assert(groups@[j] == before[j]);
                }
            }
        } else {
            let ng = Group { start: s, end: e, lo: k, hi: k + 1 };
            groups.push(ng);
            assert(gviews(groups@) == gviews(before).push(gview(ng)));
            assert forall|j: int| 0 <= j < groups@.len() implies #[trigger] groups@[j].start < spans@.len()
                && groups@[j].end < spans@.len() && groups@[j].lo < groups@[j].hi && groups@[j].hi <= k + 1 by {
                if j < n {
                    assert(groups@[j] == before[j]);
                }
            }
        }
        k = k + 1;
    }
    let ghost gv = gviews(groups@);
    let orig = split_chars(original, '\n');
    let ghost ov = views(orig@);
    let mut out: Vec<Vec<char>> = Vec::new();
    let mut line_idx: usize = 0;
    let mut gi: usize = 0;
    while gi < groups.len()
        invariant
            gi <= groups@.len(),
            sv == span_views(spans@),
            mv == mviews(ms@),
            gv == gviews(groups@),
            ov == views(orig@),
            forall|j: int| 0 <= j < ms@.len() ==> #[trigger] ms@[j].match_index + ms@[j].match_len <= usize::MAX
                && ms@[j].match_index + ms@[j].match_len >= 1,
            forall|j: int| 0 <= j < groups@.len() ==> #[trigger] groups@[j].start < spans@.len()
                && groups@[j].end < spans@.len() && groups@[j].lo < groups@[j].hi && groups@[j].hi <= ms@.len(),
            rebuild_from(ov, base@, sv, mv, gv, 0, Seq::empty(), 0) == rebuild_from(
                ov,
                base@,
                sv,
                mv,
                gv,
                gi as nat,
                views(out@),
                line_idx as nat,
            ),
        decreases groups.len() - gi,
    {
        let g = &groups[gi];
        let ghost out0 = views(out@);
        assert(gv[gi as int] == gview(groups@[gi as int]));
        assert(groups@[gi as int].start < spans@.len());
        let sl = spans.len();
        assert(g.end < sl);
        clip_lines_exec(&orig, &mut out, line_idx, g.start);
        let ghost out1 = views(out@);
        assert(out1 == out0 + clip_lines(ov, line_idx as int, g.start as int));
        assert(sv[g.start as int] == (spans@[g.start as int].0 as nat, spans@[g.start as int].1 as nat));
        assert(sv[g.end as int] == (spans@[g.end as int].0 as nat, spans@[g.end as int].1 as nat));
        assert(mv[g.hi - 1] == mview(ms@[g.hi - 1]));
        let bs = spans[g.start].0;
        let last = &ms[g.hi - 1];
        let consumed = last.match_index + last.match_len > spans[g.end].1;
        let be = if consumed { spans[g.end].1 + 1 } else { spans[g.end].1 };
        let block = clip_chars(base, bs, be);
        let rewritten = splice_exec(&block, ms, g.lo, g.hi, bs);
        let pieces = split_chars(&rewritten, '\n');
        assert(consumed == consumes_newline(sv, mv, gv[gi as int]));
        if consumed && g.end + 1 < orig.len() {
            let np = pieces.len();
            let ghost before = out@;
            let mut p: usize = 0;
            while p + 1 < np
                invariant
                    np == pieces@.len(),
                    p + 1 <= np,
                    views(out@) == views(before) + views(pieces@).subrange(0, p as int),
                decreases np - p,
            {
                let ghost b2 = out@;
                out.push(copy_chars(&pieces[p]));
                assert(views(out@) == views(b2).push(pieces@[p as int]@));
                p = p + 1;
            }
            let mut joined = copy_chars(&pieces[np - 1]);
            append_chars(&mut joined, &orig[g.end + 1]);
            let ghost b3 = out@;
            out.push(joined);
            assert(views(out@) == views(b3).push(joined@));
            assert(views(pieces@).subrange(0, np - 1) == views(pieces@).drop_last());
            assert(orig@[g.end + 1]@ == ov[g.end + 1]);
            assert(views(out@) == out0 + clip_lines(ov, line_idx as int, g.start as int)
                + views(pieces@).drop_last() + seq![views(pieces@).last() + ov[g.end + 1]]);
            line_idx = g.end + 2;
        } else {
            let ghost before = out@;
            let mut p: usize = 0;
            while p < pieces.len()
                invariant
                    p <= pieces@.len(),
                    views(out@) == views(before) + views(pieces@).subrange(0, p as int),
                decreases pieces.len() - p,
            {
                let ghost b2 = out@;
                out.push(copy_chars(&pieces[p]));
                assert(views(out@) == views(b2).push(pieces@[p as int]@));
                p = p + 1;
            }
            assert(views(pieces@).subrange(0, pieces@.len() as int) == views(pieces@));
            assert(views(out@) == out0 + clip_lines(ov, line_idx as int, g.start as int) + views(pieces@));
            line_idx = g.end + 1;
        }
        gi = gi + 1;
    }
    clip_lines_exec(&orig, &mut out, line_idx, orig.len());
    let sep = vec!['\n'];
    assert(sep@ == seq!['\n']);
    join_chars(&out, &sep)
}


// ---------------------------------------------------------------------------
// Line diff
// ---------------------------------------------------------------------------

/// Length of the longest common subsequence of `a[i..]` and `b[j..]`.
pub open spec fn lcs(a: Seq<Seq<char>>, b: Seq<Seq<char>>, i: nat, j: nat) -> nat
    decreases a.len() - i + b.len() - j,
{
    if i >= a.len() || j >= b.len() {
        0
    } else if a[i as int] == b[j as int] {
        1 + lcs(a, b, i + 1, j + 1)
    } else {
        let x = lcs(a, b, i + 1, j);
        let y = lcs(a, b, i, j + 1);
        if x >= y { x } else { y }
    }
}

proof fn lemma_lcs_bound(a: Seq<Seq<char>>, b: Seq<Seq<char>>, i: nat, j: nat)
    ensures
        i <= a.len() ==> lcs(a, b, i, j) <= a.len() - i,
    decreases a.len() - i + b.len() - j,
{
    if i < a.len() && j < b.len() {
        lemma_lcs_bound(a, b, i + 1, j + 1);
        lemma_lcs_bound(a, b, i + 1, j);
        lemma_lcs_bound(a, b, i, j + 1);
    }
}

/// A context line: `  <new> | text`.
pub open spec fn ctx_line(nl: nat, line: Seq<char>) -> Seq<char> {
    "  "@ + dec(nl) + " | "@ + line + "\n"@
}

/// A removed line: `-<old>   | text`.
pub open spec fn del_line(ol: nat, line: Seq<char>) -> Seq<char> {
    "-"@ + dec(ol) + "   | "@ + line + "\n"@
}

/// An added line: `+<new>   | text`.
pub open spec fn add_line(nl: nat, line: Seq<char>) -> Seq<char> {
    "+"@ + dec(nl) + "   | "@ + line + "\n"@
}

pub open spec fn or_first(first: Option<nat>, nl: nat) -> Option<nat> {
    if first is None { Some(nl) } else { first }
}

/// Walk both line lists along the LCS, emitting context, removed and added
/// lines, and remembering the new-side line number of the first change.
pub open spec fn diff_walk(
    a: Seq<Seq<char>>,
    b: Seq<Seq<char>>,
    i: nat,
    j: nat,
    nl: nat,
    first: Option<nat>,
    out: Seq<char>,
) -> (Seq<char>, Option<nat>)
    decreases a.len() - i, b.len() - j,
{
    if i < a.len() && j < b.len() {
        if a[i as int] == b[j as int] {
            diff_walk(a, b, i + 1, j + 1, nl + 1, first, out + ctx_line(nl, a[i as int]))
        } else if lcs(a, b, i + 1, j) >= lcs(a, b, i, j + 1) {
            diff_walk(a, b, i + 1, j, nl, or_first(first, nl), out + del_line(i + 1, a[i as int]))
        } else {
            diff_walk(a, b, i, j + 1, nl + 1, or_first(first, nl), out + add_line(nl, b[j as int]))
        }
    } else if i < a.len() {
        diff_walk(a, b, i + 1, j, nl, or_first(first, nl), out + del_line(i + 1, a[i as int]))
    } else if j < b.len() {
        diff_walk(a, b, i, j + 1, nl + 1, or_first(first, nl), out + add_line(nl, b[j as int]))
    } else {
        (out, first)
    }
}

/// Minimal LCS line diff of `old` and `new`: the diff text and the 1-based
/// new-side line of the first change. Line lists too long to number in a
/// `usize` give an empty diff.
pub open spec fn line_diff(old: Seq<char>, new: Seq<char>) -> (Seq<char>, Option<nat>) {
    let a = split_on(old, '\n');
    let b = split_on(new, '\n');
    if a.len() + 2 >= usize::MAX || b.len() + 2 >= usize::MAX {
        (Seq::empty(), None)
    } else {
        diff_walk(a, b, 0, 0, 1, None, Seq::empty())
    }
}

fn push_ctx(out: &mut String, nl: usize, line: &[char])
    ensures
        final(out)@ == old(out)@ + ctx_line(nl as nat, line@),
{
    push_str(out, "  ");
    push_str(out, fmt_usize(nl).as_str());
    push_str(out, " | ");
    push_str(out, string_of(line).as_str());
    push_str(out, "\n");
}

fn push_del(out: &mut String, ol: usize, line: &[char])
    ensures
        final(out)@ == old(out)@ + del_line(ol as nat, line@),
{
    push_str(out, "-");
    push_str(out, fmt_usize(ol).as_str());
    push_str(out, "   | ");
    push_str(out, string_of(line).as_str());
    push_str(out, "\n");
}

fn push_add(out: &mut String, nl: usize, line: &[char])
    ensures
        final(out)@ == old(out)@ + add_line(nl as nat, line@),
{
    push_str(out, "+");
    push_str(out, fmt_usize(nl).as_str());
    push_str(out, "   | ");
    push_str(out, string_of(line).as_str());
    push_str(out, "\n");
}

pub open spec fn onat(o: Option<usize>) -> Option<nat> {
    match o {
        Some(v) => Some(v as nat),
        None => None,
    }
}

fn render_line_diff(old: &[char], new: &[char]) -> (r: (String, Option<usize>))
    ensures
        (r.0@, onat(r.1)) == line_diff(old@, new@),
{
    let a = split_chars(old, '\n');
    let b = split_chars(new, '\n');
    let ghost av = views(a@);
    let ghost bv = views(b@);
    let n = a.len();
    let m = b.len();
    if n >= usize::MAX - 2 || m >= usize::MAX - 2 {
        return (String::new(), None);
    }
    // table[n - i][j] == lcs(i, j)
    let mut table: Vec<Vec<usize>> = Vec::new();
    let mut last_row: Vec<usize> = Vec::new();
    let mut c: usize = 0;
    while c <= m
        invariant
            c <= m + 1,
            m + 2 < usize::MAX,
            last_row@.len() == c,
            forall|x: int| 0 <= x < c ==> last_row@[x] == 0,
        decreases m + 1 - c,
    {
        last_row.push(0);
        c = c + 1;
    }
    assert forall|x: int| 0 <= x <= m implies last_row@[x] as nat == lcs(av, bv, n as nat, x as nat) by {}
    table.push(last_row);
    let mut i: usize = n;
    while i > 0
        invariant
            i <= n,
            n == av.len(),
            m == bv.len(),
            av == views(a@),
            bv == views(b@),
            m + 2 < usize::MAX,
            table@.len() == n - i + 1,
            forall|r: int, x: int|
                0 <= r < table@.len() && 0 <= x <= m ==> #[trigger] table@[r]@[x] as nat == lcs(
                    av,
                    bv,
                    (n - r) as nat,
                    x as nat,
                ),
            forall|r: int| 0 <= r < table@.len() ==> #[trigger] table@[r]@.len() == m + 1,
        decreases i,
    {
        let ii = i - 1;
        let next = &table[n - i];
        let mut row: Vec<usize> = Vec::new();
        let mut c: usize = 0;
        while c <= m
            invariant
                c <= m + 1,
                m + 2 < usize::MAX,
                row@.len() == c,
                forall|x: int| 0 <= x < c ==> row@[x] == 0,
            decreases m + 1 - c,
        {
            row.push(0);
            c = c + 1;
        }
        let mut j: usize = m;
        while j > 0
            invariant
                j <= m,
                ii < n,
                a@.len() == n,
                b@.len() == m,
                av == views(a@),
                bv == views(b@),
                n == av.len(),
                m == bv.len(),
                row@.len() == m + 1,
                next@.len() == m + 1,
                forall|x: int| 0 <= x <= m ==> #[trigger] next@[x] as nat == lcs(av, bv, (ii + 1) as nat, x as nat),
                forall|x: int| j <= x <= m ==> #[trigger] row@[x] as nat == lcs(av, bv, ii as nat, x as nat),
            decreases j,
        {
            let jj = j - 1;
            proof {
                lemma_lcs_bound(av, bv, (ii + 1) as nat, (jj + 1) as nat);
            }
            let same = eq_chars(&a[ii], &b[jj]);
            assert(same == (av[ii as int] == bv[jj as int]));
            let v = if same {
                next[jj + 1] + 1
            } else {
                let x = next[jj];
                let y = row[jj + 1];
                if x >= y { x } else { y }
            };
            row.set(jj, v);
            j = jj;
        }
        table.push(row);
        i = ii;
    }
    let mut out = String::new();
    let mut first: Option<usize> = None;
    let mut i: usize = 0;
    let mut j: usize = 0;
    let mut nl: usize = 1;
    assert(out@ == Seq::<char>::empty());
    while i < n && j < m
        invariant
            i <= n,
            j <= m,
            nl == j + 1,
            n == av.len(),
            m == bv.len(),
            m + 2 < usize::MAX,
            av == views(a@),
            bv == views(b@),
            table@.len() == n + 1,
            forall|r: int, x: int|
                0 <= r < table@.len() && 0 <= x <= m ==> #[trigger] table@[r]@[x] as nat == lcs(
                    av,
                    bv,
                    (n - r) as nat,
                    x as nat,
                ),
            forall|r: int| 0 <= r < table@.len() ==> #[trigger] table@[r]@.len() == m + 1,
            diff_walk(av, bv, 0, 0, 1, None, Seq::empty()) == diff_walk(
                av,
                bv,
                i as nat,
                j as nat,
                nl as nat,
                onat(first),
                out@,
            ),
        decreases n - i + m - j,
    {
        if eq_chars(&a[i], &b[j]) {
            push_ctx(&mut out, nl, &a[i]);
            nl = nl + 1;
            i = i + 1;
            j = j + 1;
        } else {
            let down = table[n - i - 1][j];
            let right = table[n - i][j + 1];
            if down >= right {
                if first.is_none() {
                    first = Some(nl);
                }
                push_del(&mut out, i + 1, &a[i]);
                i = i + 1;
            } else {
                if first.is_none() {
                    first = Some(nl);
                }
                push_add(&mut out, nl, &b[j]);
                nl = nl + 1;
                j = j + 1;
            }
        }
    }
    while i < n
        invariant
            i <= n,
            j <= m,
            nl == j + 1,
            n == av.len(),
            m == bv.len(),
            av == views(a@),
            !(i < n && j < m),
            diff_walk(av, bv, 0, 0, 1, None, Seq::empty()) == diff_walk(
                av,
                bv,
                i as nat,
                j as nat,
                nl as nat,
                onat(first),
                out@,
            ),
        decreases n - i,
    {
        if first.is_none() {
            first = Some(nl);
        }
        push_del(&mut out, i + 1, &a[i]);
        i = i + 1;
    }
    while j < m
        invariant
            i == n,
            j <= m,
            nl == j + 1,
            n == av.len(),
            m == bv.len(),
            m + 2 < usize::MAX,
            bv == views(b@),
            diff_walk(av, bv, 0, 0, 1, None, Seq::empty()) == diff_walk(
                av,
                bv,
                i as nat,
                j as nat,
                nl as nat,
                onat(first),
                out@,
            ),
        decreases m - j,
    {
        if first.is_none() {
            first = Some(nl);
        }
        push_add(&mut out, nl, &b[j]);
        nl = nl + 1;
        j = j + 1;
    }
    (out, first)
}


proof fn lemma_insert_bound(sorted: Seq<MatchSpec>, m: MatchSpec, bound: nat)
    requires
        forall|j: int| 0 <= j < sorted.len() ==> #[trigger] sorted[j].index + sorted[j].len <= bound,
        m.index + m.len <= bound,
    ensures
        insert_by_index(sorted, m).len() == sorted.len() + 1,
        forall|j: int|
            0 <= j < insert_by_index(sorted, m).len() ==> #[trigger] insert_by_index(sorted, m)[j].index
                + insert_by_index(sorted, m)[j].len <= bound,
    decreases sorted.len(),
{
    if sorted.len() == 0 || sorted.last().index <= m.index {
    } else {
        lemma_insert_bound(sorted.drop_last(), m, bound);
        let r = insert_by_index(sorted, m);
        let q = insert_by_index(sorted.drop_last(), m);
        assert forall|j: int| 0 <= j < r.len() implies #[trigger] r[j].index + r[j].len <= bound by {
            if j < q.len() {
                assert(r[j] == q[j]);
            }
        }
    }
}

proof fn lemma_sort_bound(ms: Seq<MatchSpec>, bound: nat)
    requires
        forall|j: int| 0 <= j < ms.len() ==> #[trigger] ms[j].index + ms[j].len <= bound,
    ensures
        sort_by_index(ms).len() == ms.len(),
        forall|j: int|
            0 <= j < sort_by_index(ms).len() ==> #[trigger] sort_by_index(ms)[j].index + sort_by_index(
                ms,
            )[j].len <= bound,
    decreases ms.len(),
{
    if ms.len() > 0 {
        let init = ms.drop_last();
        assert forall|j: int| 0 <= j < init.len() implies #[trigger] init[j].index + init[j].len <= bound by {
            assert(init[j] == ms[j]);
        }
        lemma_sort_bound(init, bound);
        lemma_insert_bound(sort_by_index(init), ms.last(), bound);
    }
}

/// The normalized content: BOM stripped, line endings folded to LF.
pub open spec fn normalized_of(content: Seq<char>) -> Seq<char> {
    normalize_lf(after_bom(content))
}

/// The view matching runs against: the fuzzy view when some edit needs it.
pub open spec fn base_of(content: Seq<char>, es: Seq<Edit>) -> Seq<char> {
    let n = normalized_of(content);
    let f = trim_end_lines(n);
    if needs_fuzzy(n, f, olds_of(es)) { f } else { n }
}

/// The matches of every edit, sorted by start (when all were located).
pub open spec fn sorted_matches(content: Seq<char>, es: Seq<Edit>, path: Seq<char>) -> Result<Seq<MatchSpec>, Seq<char>> {
    let base = base_of(content, es);
    match match_from(base, trim_end_lines(base), olds_of(es), news_of(es), path, 0) {
        Ok(ms) => Ok(sort_by_index(ms)),
        Err(e) => Err(e),
    }
}

/// The inputs on which the line-preserving rewrite meets a zero-length
/// match at offset zero (an all-whitespace single-line old text located in
/// an empty fuzzy view): there the engine's line arithmetic underflows.
pub open spec fn edits_underflow(content: Seq<char>, es: Seq<Edit>, path: Seq<char>) -> bool {
    let n = normalized_of(content);
    &&& es.len() > 0
    &&& first_empty_from(olds_of(es), 0) is None
    &&& needs_fuzzy(n, trim_end_lines(n), olds_of(es))
    &&& sorted_matches(content, es, path) matches Ok(ms) && first_overlap(ms, 0) is None
        && exists|j: int| 0 <= j < ms.len() && #[trigger] ms[j].index + ms[j].len == 0
}

/// What `apply_edits` returns: the new content, the replaced block count,
/// the line diff and the first changed line, or the error message.
pub open spec fn applied(content: Seq<char>, es: Seq<Edit>, path: Seq<char>) -> Result<(Seq<char>, nat, Seq<char>, Option<nat>), Seq<char>> {
    if es.len() == 0 {
        Err(msg_empty_edits())
    } else {
        match first_empty_from(olds_of(es), 0) {
            Some(i) => Err(msg_empty(path, i, es.len())),
            None => {
                let n = normalized_of(content);
                let used = needs_fuzzy(n, trim_end_lines(n), olds_of(es));
                let base = base_of(content, es);
                match sorted_matches(content, es, path) {
                    Err(e) => Err(e),
                    Ok(ms) => match first_overlap(ms, 0) {
                        Some(k) => Err(msg_overlap(path, ms[k as int].edit, ms[(k + 1) as int].edit)),
                        None => {
                            let nn = if used { preserving(n, base, ms) } else { splice(n, ms, 0, 0) };
                            if nn == n {
                                Err(msg_no_change(path, es.len()))
                            } else {
                                let body = restore_endings(nn, crlf_ending(after_bom(content)));
                                let out = if has_bom(content) { seq![bom()] + body } else { body };
                                Ok((out, ms.len(), line_diff(n, nn).0, line_diff(n, nn).1))
                            }
                        },
                    },
                }
            },
        }
    }
}

proof fn lemma_match_from_len(
    base: Seq<char>,
    base_fuzzy: Seq<char>,
    olds: Seq<Seq<char>>,
    news: Seq<Seq<char>>,
    path: Seq<char>,
    i: nat,
)
    requires
        i <= olds.len(),
    ensures
        match_from(base, base_fuzzy, olds, news, path, i) matches Ok(ms) ==> ms.len() == olds.len() - i,
    decreases olds.len() - i,
{
    if i < olds.len() {
        lemma_match_from_len(base, base_fuzzy, olds, news, path, i + 1);
    }
}

proof fn lemma_insert_len(sorted: Seq<MatchSpec>, m: MatchSpec)
    ensures
        insert_by_index(sorted, m).len() == sorted.len() + 1,
    decreases sorted.len(),
{
    if sorted.len() > 0 && sorted.last().index > m.index {
        lemma_insert_len(sorted.drop_last(), m);
    }
}

proof fn lemma_sort_len(ms: Seq<MatchSpec>)
    ensures
        sort_by_index(ms).len() == ms.len(),
    decreases ms.len(),
{
    if ms.len() > 0 {
        lemma_sort_len(ms.drop_last());
        lemma_insert_len(sort_by_index(ms.drop_last()), ms.last());
    }
}

/// A successful apply replaces exactly one block per edit, and keeps a
/// leading byte-order mark.
pub proof fn lemma_applied_counts_every_edit_and_keeps_bom(content: Seq<char>, es: Seq<Edit>, path: Seq<char>)
    ensures
        applied(content, es, path) matches Ok(v) ==> v.1 == es.len() && (has_bom(content) ==> has_bom(v.0)),
{
    let base = base_of(content, es);
    lemma_match_from_len(base, trim_end_lines(base), olds_of(es), news_of(es), path, 0);
    match match_from(base, trim_end_lines(base), olds_of(es), news_of(es), path, 0) {
        Ok(ms) => {
            lemma_sort_len(ms);
        },
        Err(_) => {},
    }
}

proof fn lemma_restore_crlf(s: Seq<char>)
    ensures
        forall|i: int|
            0 <= i < restore_endings(s, true).len() && #[trigger] restore_endings(s, true)[i] == '\n' ==> i > 0
                && restore_endings(s, true)[i - 1] == '\r',
    decreases s.len(),
{
    if s.len() > 0 {
        let rest = restore_endings(s.drop_first(), true);
        lemma_restore_crlf(s.drop_first());
        let r = restore_endings(s, true);
        if s[0] == '\n' {
            assert(r == seq!['\r', '\n'] + rest);
            assert forall|i: int| 0 <= i < r.len() && #[trigger] r[i] == '\n' implies i > 0 && r[i - 1] == '\r' by {
                if i >= 2 {
                    assert(r[i] == rest[i - 2]);
                    assert(rest[i - 2] == '\n');
                    assert(r[i - 1] == rest[i - 3]);
                }
            }
        } else {
            assert(r == seq![s[0]] + rest);
            assert forall|i: int| 0 <= i < r.len() && #[trigger] r[i] == '\n' implies i > 0 && r[i - 1] == '\r' by {
                if i >= 1 {
                    assert(r[i] == rest[i - 1]);
                    assert(rest[i - 1] == '\n');
                    assert(r[i - 1] == rest[i - 2]);
                }
            }
        }
    }
}

/// A file with CRLF line endings stays CRLF: after a successful apply,
/// every newline of the result is preceded by a carriage return.
pub proof fn lemma_applied_keeps_crlf(content: Seq<char>, es: Seq<Edit>, path: Seq<char>)
    ensures
        crlf_ending(after_bom(content)) ==> match applied(content, es, path) {
            Ok(v) => forall|i: int| 0 <= i < v.0.len() && #[trigger] v.0[i] == '\n' ==> i > 0 && v.0[i - 1] == '\r',
            Err(_) => true,
        },
{
    if es.len() > 0 && first_empty_from(olds_of(es), 0) is None && crlf_ending(after_bom(content)) {
        match sorted_matches(content, es, path) {
            Ok(ms) => {
                if first_overlap(ms, 0) is None {
                    let n = normalized_of(content);
                    let used = needs_fuzzy(n, trim_end_lines(n), olds_of(es));
                    let base = base_of(content, es);
                    let nn = if used {
                        preserving(n, base, ms)
                    } else {
                        splice(n, ms, 0, 0)
                    };
                    if nn != n {
                        let body = restore_endings(nn, true);
                        lemma_restore_crlf(nn);
                        let out = if has_bom(content) {
                            seq![bom()] + body
                        } else {
                            body
                        };
                        assert(applied(content, es, path) == Ok::<(Seq<char>, nat, Seq<char>, Option<nat>), Seq<char>>(
                            (out, ms.len(), line_diff(n, nn).0, line_diff(n, nn).1),
                        ));
                        if has_bom(content) {
                            assert forall|i: int| 0 <= i < out.len() && #[trigger] out[i] == '\n' implies i > 0
                                && out[i - 1] == '\r' by {
                                if i >= 1 {
                                    assert(out[i] == body[i - 1]);
                                    if i >= 2 {
                                        assert(out[i - 1] == body[i - 2]);
                                    }
                                } else {
                                    assert(out[0] == bom());
                                }
                            }
                        }
                    }
                }
            },
            Err(_) => {},
        }
    }
}

/// An apply fails when there is no edit, or when some edit's old text is
/// empty.
pub proof fn lemma_applied_rejects_empty_requests(content: Seq<char>, es: Seq<Edit>, path: Seq<char>)
    ensures
        es.len() == 0 ==> applied(content, es, path) == Err::<(Seq<char>, nat, Seq<char>, Option<nat>), Seq<char>>(
            msg_empty_edits(),
        ),
        (exists|i: int| 0 <= i < es.len() && #[trigger] es[i].old_text@.len() == 0) ==> applied(
            content,
            es,
            path,
        ) is Err,
{
    if exists|i: int| 0 <= i < es.len() && #[trigger] es[i].old_text@.len() == 0 {
        let i = choose|i: int| 0 <= i < es.len() && #[trigger] es[i].old_text@.len() == 0;
        lemma_first_empty_found(olds_of(es), 0, i);
    }
}

proof fn lemma_first_empty_found(olds: Seq<Seq<char>>, k: nat, i: int)
    requires
        k <= i < olds.len(),
        olds[i].len() == 0,
    ensures
        first_empty_from(olds, k) is Some,
    decreases i - k,
{
    if olds[k as int].len() != 0 {
        lemma_first_empty_found(olds, k + 1, i);
    }
}

/// Where a request's edits land in a file: its BOM flag and line ending,
/// its normalized text, the view the edits are matched against, and the
/// matches sorted by position, none overlapping.
struct Located {
    has_bom: bool,
    crlf: bool,
    normalized: Vec<char>,
    base: Vec<char>,
    used_fuzzy: bool,
    ms: Vec<Match>,
}

/// Everything `apply_edits` checks before it rewrites: the request is not
/// empty, no old text is empty, every edit is found exactly once, and no two
/// matches overlap. Fails with the message `apply_edits` gives.
fn locate_edits(content: &str, edits: &[Edit], path: &str) -> (r: Result<Located, String>)
    ensures
        match r {
            Ok(l) => {
                &&& edits@.len() > 0
                &&& first_empty_from(olds_of(edits@), 0) is None
                &&& l.has_bom == has_bom(content@)
                &&& l.crlf == crlf_ending(after_bom(content@))
                &&& l.normalized@ == normalized_of(content@)
                &&& l.used_fuzzy == needs_fuzzy(
                    normalized_of(content@),
                    trim_end_lines(normalized_of(content@)),
                    olds_of(edits@),
                )
                &&& l.base@ == base_of(content@, edits@)
                &&& sorted_matches(content@, edits@, path@) == Ok::<Seq<MatchSpec>, Seq<char>>(mviews(l.ms@))
                &&& first_overlap(mviews(l.ms@), 0) is None
                &&& forall|j: int|
                    0 <= j < l.ms@.len() ==> #[trigger] l.ms@[j].match_index + l.ms@[j].match_len <= usize::MAX
            },
            Err(e) => {
                &&& applied(content@, edits@, path@) == Err::<(Seq<char>, nat, Seq<char>, Option<nat>), Seq<char>>(e@)
                &&& !(edits@.len() > 0 && first_empty_from(olds_of(edits@), 0) is None && (sorted_matches(
                    content@,
                    edits@,
                    path@,
                ) matches Ok(ms) && first_overlap(ms, 0) is None))
            },
        },
{
    if edits.len() == 0 {
        let mut m = String::new();
        push_str(&mut m, "edit tool input is invalid. edits must contain at least one replacement.");
        return Err(m);
    }
    let ghost es = edits@;
    let total = edits.len();
    // normalize old/new texts to LF (models may emit CRLF inside text)
    let mut olds: Vec<Vec<char>> = Vec::new();
    let mut news: Vec<Vec<char>> = Vec::new();
    let mut i: usize = 0;
    while i < total
        invariant
            i <= total,
            total == es.len(),
            es == edits@,
            olds@.len() == i,
            news@.len() == i,
            views(olds@) == olds_of(es).subrange(0, i as int),
            views(news@) == news_of(es).subrange(0, i as int),
        decreases total - i,
    {
        let o = normalize_to_lf(&chars_of(edits[i].old_text.as_str()));
        let w = normalize_to_lf(&chars_of(edits[i].new_text.as_str()));
        let ghost po = olds@;
        let ghost pw = news@;
        olds.push(o);
        news.push(w);
        assert(views(olds@) == views(po).push(o@));
        assert(views(news@) == views(pw).push(w@));
        assert(olds_of(es).subrange(0, i + 1) == olds_of(es).subrange(0, i as int).push(old_of(es[i as int])));
        assert(news_of(es).subrange(0, i + 1) == news_of(es).subrange(0, i as int).push(new_of(es[i as int])));
        i = i + 1;
    }
    assert(olds_of(es).subrange(0, total as int) == olds_of(es));
    assert(news_of(es).subrange(0, total as int) == news_of(es));
    let ghost ov = views(olds@);
    // empty old texts
    let mut i: usize = 0;
    while i < total
        invariant
            i <= total,
            olds@.len() == total,
            ov == views(olds@),
            ov.len() == total,
            first_empty_from(ov, 0) == first_empty_from(ov, i as nat),
            total == es.len(),
            ov == olds_of(es),
            es == edits@,
        decreases total - i,
    {
        assert(ov[i as int] == olds@[i as int]@);
        if olds[i].len() == 0 {
            assert(first_empty_from(ov, i as nat) == Some(i as nat));
            assert(first_empty_from(olds_of(es), 0) == Some(i as nat));
            let e = err_empty(path, i, total);
            assert(es.len() > 0);
            assert(applied(content@, es, path@) == Err::<(Seq<char>, nat, Seq<char>, Option<nat>), Seq<char>>(msg_empty(path@, i as nat, es.len())));
            assert(e@ == msg_empty(path@, i as nat, es.len()));
            assert(es == edits@);
            return Err(e);
        }
        i = i + 1;
    }
    let content_chars = chars_of(content);
    let (has_bom_flag, rest) = split_bom(&content_chars);
    let crlf = detect_line_ending(&rest);
    let normalized = normalize_to_lf(&rest);
    let fuzzy_content = trim_end_lines_exec(&normalized);
    // pass 1: does any edit need the fuzzy fallback?
    let mut used_fuzzy = false;
    let mut i: usize = 0;
    while i < total
        invariant
            i <= total,
            olds@.len() == total,
            ov == views(olds@),
            used_fuzzy == exists|j: int| 0 <= j < i && #[trigger] misses_exact_hits_fuzzy(normalized@, fuzzy_content@, ov[j]),
        decreases total - i,
    {
        let exact = find_chars(&normalized, &olds[i], 0);
        if exact.is_none() {
            let fo = trim_end_lines_exec(&olds[i]);
            let fz = find_chars(&fuzzy_content, &fo, 0);
            if fz.is_some() {
                used_fuzzy = true;
            }
        }
        assert(misses_exact_hits_fuzzy(normalized@, fuzzy_content@, ov[i as int]) == (exact.is_none()
            && contains(fuzzy_content@, trim_end_lines(ov[i as int]))));
        i = i + 1;
    }
    assert(used_fuzzy == needs_fuzzy(normalized@, fuzzy_content@, olds_of(es)));
    let base = if used_fuzzy { copy_chars(&fuzzy_content) } else { copy_chars(&normalized) };
    let base_fuzzy = trim_end_lines_exec(&base);
    // pass 2: match all edits against the same base
    let matched = match_edits(&base, &base_fuzzy, &olds, &news, path);
    let ms0 = match matched {
        Err(e) => {
            return Err(e);
        },
        Ok(ms0) => ms0,
    };
    proof {
        assert forall|j: int| 0 <= j < mviews(ms0@).len() implies #[trigger] mviews(ms0@)[j].index
            + mviews(ms0@)[j].len <= usize::MAX by {
            assert(mviews(ms0@)[j] == mview(ms0@[j]));
            assert(ms0@[j].match_index + ms0@[j].match_len <= usize::MAX);
        }
        lemma_sort_bound(mviews(ms0@), usize::MAX as nat);
    }
    let ms = sort_matches(ms0);
    assert forall|j: int| 0 <= j < ms@.len() implies #[trigger] ms@[j].match_index + ms@[j].match_len <= usize::MAX by {
        assert(mviews(ms@)[j] == mview(ms@[j]));
        assert(mviews(ms@)[j].index + mviews(ms@)[j].len <= usize::MAX);
    }
    assert(content_chars@ == content@);
    assert(normalized@ == normalized_of(content@));
    assert(base@ == base_of(content@, es));
    assert(sorted_matches(content@, es, path@) == Ok::<Seq<MatchSpec>, Seq<char>>(mviews(ms@)));
    match find_overlap(&ms) {
        Some(k) => {
            let nm = ms.len();
            assert(k + 1 < nm);
            assert(mviews(ms@)[k as int] == mview(ms@[k as int]));
            assert(mviews(ms@)[k + 1] == mview(ms@[k + 1]));
            return Err(err_overlap(path, ms[k].edit_index, ms[k + 1].edit_index));
        },
        None => {},
    }
    Ok(Located { has_bom: has_bom_flag, crlf, normalized, base, used_fuzzy, ms })
}

/// Applies `edits` to `content`. `content` may have CRLF or a BOM; both are
/// handled. On failure returns a human/LLM-facing error message.
pub fn apply_edits(content: &str, edits: &[Edit], path: &str) -> (r: Result<AppliedEdit, String>)
    requires
        !edits_underflow(content@, edits@, path@),
    ensures
        match (r, applied(content@, edits@, path@)) {
            (Ok(a), Ok(v)) => a.new_content@ == v.0 && a.replaced_blocks == v.1 && a.diff@ == v.2
                && onat(a.first_changed_line) == v.3,
            (Err(e), Err(m)) => e@ == m,
            _ => false,
        },
{
    let located = locate_edits(content, edits, path);
    let Located { has_bom: has_bom_flag, crlf, normalized, base, used_fuzzy, ms } = match located {
        Err(e) => {
            return Err(e);
        },
        Ok(l) => l,
    };
    let ghost es = edits@;
    let total = edits.len();

    let new_normalized = if used_fuzzy {
        assert(first_overlap(mviews(ms@), 0) is None);
        assert forall|j: int| 0 <= j < ms@.len() implies #[trigger] ms@[j].match_index + ms@[j].match_len <= usize::MAX
            && ms@[j].match_index + ms@[j].match_len >= 1 by {
            assert(mviews(ms@)[j] == mview(ms@[j]));
            if ms@[j].match_index + ms@[j].match_len == 0 {
                assert(mviews(ms@)[j].index + mviews(ms@)[j].len == 0);
                assert(edits_underflow(content@, es, path@));
            }
        }
        apply_preserving(&normalized, &base, &ms)
    } else {
        splice_exec(&normalized, &ms, 0, ms.len(), 0)
    };
    assert(mviews(ms@).subrange(0, ms@.len() as int) == mviews(ms@));
    if eq_chars(&new_normalized, &normalized) {
        return Err(err_no_change(path, total));
    }
    let (diff, first_changed_line) = render_line_diff(&normalized, &new_normalized);
    let body = restore_line_endings(&new_normalized, crlf);
    let mut out: Vec<char> = Vec::new();
    if has_bom_flag {
        out.push('\u{feff}');
    }
    append_chars(&mut out, &body);
    proof {
        if has_bom_flag {
            assert(out@ == seq![bom()] + body@);
        } else {
            assert(out@ == body@);
        }
    }
    Ok(AppliedEdit {
        new_content: string_of(&out),
        replaced_blocks: ms.len(),
        diff,
        first_changed_line,
    })
}

/// Whether `edits` are the one request `apply_edits` does not take (see
/// `edits_underflow`), so that a caller can test before it applies.
pub fn edits_would_underflow(content: &str, edits: &[Edit], path: &str) -> (b: bool)
    ensures
        b == edits_underflow(content@, edits@, path@),
{
    let l = match locate_edits(content, edits, path) {
        Err(_) => {
            return false;
        },
        Ok(l) => l,
    };
    if !l.used_fuzzy {
        return false;
    }
    let ghost mv = mviews(l.ms@);
    let mut j: usize = 0;
    while j < l.ms.len()
        invariant
            j <= l.ms@.len(),
            mv == mviews(l.ms@),
            edits@.len() > 0,
            first_empty_from(olds_of(edits@), 0) is None,
            needs_fuzzy(normalized_of(content@), trim_end_lines(normalized_of(content@)), olds_of(edits@)),
            sorted_matches(content@, edits@, path@) == Ok::<Seq<MatchSpec>, Seq<char>>(mv),
            first_overlap(mv, 0) is None,
            forall|k: int| 0 <= k < j ==> #[trigger] mv[k].index + mv[k].len != 0,
        decreases l.ms.len() - j,
    {
        assert(mv[j as int] == mview(l.ms@[j as int]));
        if l.ms[j].match_index == 0 && l.ms[j].match_len == 0 {
            assert(mv[j as int].index + mv[j as int].len == 0);
            return true;
        }
        j = j + 1;
    }
    false
}

/// Two matched regions do not overlap.
pub open spec fn regions_disjoint(a: MatchSpec, b: MatchSpec) -> bool {
    a.index + a.len <= b.index || b.index + b.len <= a.index
}

/// Matches in order of where they start.
pub open spec fn by_start(s: Seq<MatchSpec>) -> bool {
    forall|i: int, j: int| 0 <= i < j < s.len() ==> s[i].index <= s[j].index
}

/// Each match ends before the next one starts.
pub open spec fn chained(s: Seq<MatchSpec>) -> bool {
    forall|k: int| 0 <= k < s.len() - 1 ==> #[trigger] s[k].index + s[k].len <= s[k + 1].index
}

proof fn lemma_insert_shape(sorted: Seq<MatchSpec>, m: MatchSpec)
    ensures
        insert_by_index(sorted, m).len() == sorted.len() + 1,
        forall|x: MatchSpec| #[trigger] insert_by_index(sorted, m).contains(x) ==> sorted.contains(x) || x == m,
        insert_by_index(sorted, m).contains(m),
        forall|x: MatchSpec| sorted.contains(x) ==> #[trigger] insert_by_index(sorted, m).contains(x),
        insert_by_index(sorted, m).last() == m || (sorted.len() > 0 && insert_by_index(sorted, m).last()
            == sorted.last()),
    decreases sorted.len(),
{
    let r = insert_by_index(sorted, m);
    if sorted.len() == 0 || sorted.last().index <= m.index {
        assert(r == sorted.push(m));
        assert(r[r.len() - 1] == m);
        assert forall|x: MatchSpec| #[trigger] r.contains(x) implies sorted.contains(x) || x == m by {
            let k = choose|k: int| 0 <= k < r.len() && r[k] == x;
            if k < sorted.len() {
                assert(sorted[k] == x);
            }
        }
        assert forall|x: MatchSpec| sorted.contains(x) implies #[trigger] r.contains(x) by {
            let k = choose|k: int| 0 <= k < sorted.len() && sorted[k] == x;
            assert(r[k] == x);
        }
    } else {
        let init = sorted.drop_last();
        lemma_insert_shape(init, m);
        let q = insert_by_index(init, m);
        assert(r == q.push(sorted.last()));
        assert forall|x: MatchSpec| #[trigger] r.contains(x) implies sorted.contains(x) || x == m by {
            let k = choose|k: int| 0 <= k < r.len() && r[k] == x;
            if k < q.len() {
                assert(q[k] == x);
                assert(q.contains(x));
                if init.contains(x) {
                    let p = choose|p: int| 0 <= p < init.len() && init[p] == x;
                    assert(sorted[p] == x);
                }
            } else {
                assert(sorted[sorted.len() - 1] == x);
            }
        }
        assert(q.contains(m));
        let km = choose|k: int| 0 <= k < q.len() && q[k] == m;
        assert(r[km] == m);
        assert forall|x: MatchSpec| sorted.contains(x) implies #[trigger] r.contains(x) by {
            let k = choose|k: int| 0 <= k < sorted.len() && sorted[k] == x;
            if k < init.len() {
                assert(init[k] == x);
                assert(init.contains(x));
                assert(q.contains(x));
                let p = choose|p: int| 0 <= p < q.len() && q[p] == x;
                assert(r[p] == q[p]);
                assert(r[p] == x);
            } else {
                assert(r[r.len() - 1] == x);
            }
        }
    }
}

proof fn lemma_sort_contents(ms: Seq<MatchSpec>)
    ensures
        forall|x: MatchSpec| #[trigger] sort_by_index(ms).contains(x) ==> ms.contains(x),
    decreases ms.len(),
{
    if ms.len() > 0 {
        let init = ms.drop_last();
        lemma_sort_contents(init);
        lemma_insert_shape(sort_by_index(init), ms.last());
        assert forall|x: MatchSpec| #[trigger] sort_by_index(ms).contains(x) implies ms.contains(x) by {
            if sort_by_index(init).contains(x) {
                assert(init.contains(x));
                let p = choose|p: int| 0 <= p < init.len() && init[p] == x;
                assert(ms[p] == x);
            } else {
                assert(ms[ms.len() - 1] == x);
            }
        }
    }
}

proof fn lemma_insert_by_start(sorted: Seq<MatchSpec>, m: MatchSpec)
    requires
        by_start(sorted),
    ensures
        by_start(insert_by_index(sorted, m)),
    decreases sorted.len(),
{
    let r = insert_by_index(sorted, m);
    lemma_insert_shape(sorted, m);
    if sorted.len() == 0 || sorted.last().index <= m.index {
        assert forall|i: int, j: int| 0 <= i < j < r.len() implies r[i].index <= r[j].index by {
            if j < sorted.len() {
                assert(r[i] == sorted[i] && r[j] == sorted[j]);
            } else {
                assert(r[i] == sorted[i]);
                assert(sorted[i].index <= sorted[sorted.len() - 1].index);
            }
        }
    } else {
        let init = sorted.drop_last();
        assert(by_start(init)) by {
            assert forall|i: int, j: int| 0 <= i < j < init.len() implies init[i].index <= init[j].index by {
                assert(init[i] == sorted[i] && init[j] == sorted[j]);
            }
        }
        lemma_insert_by_start(init, m);
        lemma_insert_shape(init, m);
        let q = insert_by_index(init, m);
        assert forall|i: int, j: int| 0 <= i < j < r.len() implies r[i].index <= r[j].index by {
            if j < q.len() {
                assert(r[i] == q[i] && r[j] == q[j]);
            } else {
                assert(r[i] == q[i]);
                assert(q.contains(q[i]));
                if init.contains(q[i]) {
                    let p = choose|p: int| 0 <= p < init.len() && init[p] == q[i];
                    assert(sorted[p] == q[i]);
                }
            }
        }
    }
}

/// The matches are handed to the overlap check in order of where they
/// start, whatever order the edits were listed in.
pub proof fn lemma_sort_orders_by_start(ms: Seq<MatchSpec>)
    ensures
        by_start(sort_by_index(ms)),
        sort_by_index(ms).len() == ms.len(),
        forall|x: MatchSpec| #[trigger] sort_by_index(ms).contains(x) <==> ms.contains(x),
    decreases ms.len(),
{
    lemma_sort_len(ms);
    lemma_sort_contents(ms);
    if ms.len() > 0 {
        let init = ms.drop_last();
        lemma_sort_orders_by_start(init);
        lemma_insert_by_start(sort_by_index(init), ms.last());
        lemma_insert_shape(sort_by_index(init), ms.last());
        assert forall|x: MatchSpec| ms.contains(x) implies #[trigger] sort_by_index(ms).contains(x) by {
            let p = choose|p: int| 0 <= p < ms.len() && ms[p] == x;
            if p < init.len() {
                assert(init[p] == x);
                assert(init.contains(x));
                assert(sort_by_index(init).contains(x));
            }
        }
    }
}

proof fn lemma_insert_chained(sorted: Seq<MatchSpec>, m: MatchSpec)
    requires
        chained(sorted),
        m.len > 0,
        forall|x: MatchSpec| #[trigger] sorted.contains(x) ==> regions_disjoint(x, m),
    ensures
        chained(insert_by_index(sorted, m)),
    decreases sorted.len(),
{
    let r = insert_by_index(sorted, m);
    lemma_insert_shape(sorted, m);
    if sorted.len() == 0 || sorted.last().index <= m.index {
        if sorted.len() > 0 {
            assert(sorted.contains(sorted[sorted.len() - 1]));
        }
        assert forall|k: int| 0 <= k < r.len() - 1 implies #[trigger] r[k].index + r[k].len <= r[k + 1].index by {
            if k + 1 < sorted.len() {
                assert(r[k] == sorted[k] && r[k + 1] == sorted[k + 1]);
            } else {
                assert(r[k] == sorted[sorted.len() - 1]);
            }
        }
    } else {
        let init = sorted.drop_last();
        assert(chained(init)) by {
            assert forall|k: int| 0 <= k < init.len() - 1 implies #[trigger] init[k].index + init[k].len
                <= init[k + 1].index by {
                assert(init[k] == sorted[k] && init[k + 1] == sorted[k + 1]);
            }
        }
        assert forall|x: MatchSpec| #[trigger] init.contains(x) implies regions_disjoint(x, m) by {
            let p = choose|p: int| 0 <= p < init.len() && init[p] == x;
            assert(sorted[p] == x);
            assert(sorted.contains(x));
        }
        lemma_insert_chained(init, m);
        lemma_insert_shape(init, m);
        let q = insert_by_index(init, m);
        let last = sorted.last();
        assert(sorted.contains(last)) by {
            assert(sorted[sorted.len() - 1] == last);
        }
        assert(q.last().index + q.last().len <= last.index) by {
            if q.last() == m {
            } else {
                assert(init.len() > 0 && q.last() == init.last());
                assert(init.last() == sorted[sorted.len() - 2]);
            }
        }
        assert forall|k: int| 0 <= k < r.len() - 1 implies #[trigger] r[k].index + r[k].len <= r[k + 1].index by {
            if k + 1 < q.len() {
                assert(r[k] == q[k] && r[k + 1] == q[k + 1]);
            } else {
                assert(r[k] == q[q.len() - 1]);
                assert(r[k + 1] == last);
            }
        }
    }
}

proof fn lemma_sort_chained(ms: Seq<MatchSpec>)
    requires
        forall|i: int| 0 <= i < ms.len() ==> #[trigger] ms[i].len > 0,
        forall|i: int, j: int| 0 <= i < ms.len() && 0 <= j < ms.len() && i != j ==> regions_disjoint(ms[i], ms[j]),
    ensures
        chained(sort_by_index(ms)),
    decreases ms.len(),
{
    if ms.len() > 0 {
        let init = ms.drop_last();
        assert forall|i: int, j: int| 0 <= i < init.len() && 0 <= j < init.len() && i != j implies regions_disjoint(
            init[i],
            init[j],
        ) by {
            assert(init[i] == ms[i] && init[j] == ms[j]);
        }
        assert forall|i: int| 0 <= i < init.len() implies #[trigger] init[i].len > 0 by {
            assert(init[i] == ms[i]);
        }
        lemma_sort_chained(init);
        lemma_sort_contents(init);
        let m = ms.last();
        assert(m.len > 0) by {
            assert(ms[ms.len() - 1] == m);
        }
        assert forall|x: MatchSpec| #[trigger] sort_by_index(init).contains(x) implies regions_disjoint(x, m) by {
            assert(init.contains(x));
            let p = choose|p: int| 0 <= p < init.len() && init[p] == x;
            assert(ms[p] == x);
            assert(regions_disjoint(ms[p], ms[ms.len() - 1]));
        }
        lemma_insert_chained(sort_by_index(init), m);
    }
}

proof fn lemma_chained_no_overlap(s: Seq<MatchSpec>, k: nat)
    requires
        chained(s),
    ensures
        first_overlap(s, k) is None,
    decreases s.len() - k,
{
    if k + 1 < s.len() {
        assert(s[k as int].index + s[k as int].len <= s[k + 1int].index);
        lemma_chained_no_overlap(s, k + 1);
    }
}

/// Several edits, each found exactly once, whose matched regions do not
/// overlap, are applied together, in whatever order they are listed: the
/// matches reach the overlap check in order of where they start, the check
/// passes, and the apply succeeds unless the edits change nothing.
pub proof fn lemma_disjoint_edits_apply(content: Seq<char>, es: Seq<Edit>, path: Seq<char>)
    requires
        es.len() > 0,
        first_empty_from(olds_of(es), 0) is None,
        ({
            let base = base_of(content, es);
            match_from(base, trim_end_lines(base), olds_of(es), news_of(es), path, 0) matches Ok(ms) && (forall|
                i: int,
            |
                0 <= i < ms.len() ==> #[trigger] ms[i].len > 0) && (forall|i: int, j: int|
                0 <= i < ms.len() && 0 <= j < ms.len() && i != j ==> regions_disjoint(ms[i], ms[j]))
        }),
    ensures
        sorted_matches(content, es, path) matches Ok(s) && by_start(s) && first_overlap(s, 0) is None,
        applied(content, es, path) is Ok || applied(content, es, path) == Err::<
            (Seq<char>, nat, Seq<char>, Option<nat>),
            Seq<char>,
        >(msg_no_change(path, es.len())),
{
    let base = base_of(content, es);
    let ms = match_from(base, trim_end_lines(base), olds_of(es), news_of(es), path, 0)->Ok_0;
    lemma_sort_orders_by_start(ms);
    lemma_sort_chained(ms);
    lemma_chained_no_overlap(sort_by_index(ms), 0);
}

} // verus!
