//! Line-window slicing behind the `read` tool's `offset`/`limit` arguments.
//! The file access itself lives with the tool binding.
use vstd::prelude::*;
use crate::text::{chars_of, copy_chars, join, join_chars, split_chars, split_on, string_of, views};

verus! {

broadcast use vstd::seq_lib::group_seq_properties;

/// The `\n`-separated lines of `content`, without the empty element a
/// trailing newline leaves.
pub open spec fn raw_lines(content: Seq<char>) -> Seq<Seq<char>> {
    let parts = split_on(content, '\n');
    if content.len() > 0 && content.last() == '\n' {
        parts.drop_last()
    } else {
        parts
    }
}

pub open spec fn min_nat(a: nat, b: nat) -> nat {
    if a <= b {
        a
    } else {
        b
    }
}

/// Lines `skip..skip + take` of `ls`, clamped to its end.
pub open spec fn window(ls: Seq<Seq<char>>, skip: nat, take: nat) -> Seq<Seq<char>> {
    ls.subrange(min_nat(skip, ls.len()) as int, min_nat(skip + take, ls.len()) as int)
}

/// The lines of `content` from `skip` onward, at most `take` of them, joined
/// with `\n`.
pub open spec fn spec_slice(content: Seq<char>, skip: nat, take: nat) -> Seq<char> {
    join(window(raw_lines(content), skip, take), seq!['\n'])
}

/// `n - 1`, but 0 for 0.
pub open spec fn pred_sat(n: nat) -> nat {
    if n == 0 {
        0
    } else {
        (n - 1) as nat
    }
}

/// The 1-indexed `offset` / `limit` window of `content`: no window (no
/// limit and an offset of at most 1) gives the content unchanged; a missing
/// offset is 1; a missing limit reads to the end; a zero limit gives nothing.
pub open spec fn spec_slice_lines(content: Seq<char>, offset: Option<usize>, limit: Option<usize>) -> Seq<char> {
    let off: nat = match offset {
        Some(o) => o as nat,
        None => 1,
    };
    match limit {
        None => if off <= 1 {
            content
        } else {
            spec_slice(content, pred_sat(off), usize::MAX as nat)
        },
        Some(l) => if l == 0 {
            Seq::empty()
        } else {
            spec_slice(content, pred_sat(off), l as nat)
        },
    }
}

/// Slice file content to a 1-indexed `offset`..`offset+limit-1` line window.
///
/// - no range args (or an offset of 1 with no limit): the content unchanged;
/// - `offset` is 1-indexed and clamps below 1 to the first line;
/// - `offset` without `limit` reads to the end;
/// - `limit` without `offset` reads from line 1;
/// - an offset past the end (or a zero limit) yields an empty slice.
///
/// Trailing-newline and CRLF content stay exact within the window.
pub fn slice_lines(content: &str, offset: Option<usize>, limit: Option<usize>) -> (r: String)
    ensures
        r@ == spec_slice_lines(content@, offset, limit),
{
    let off: usize = match offset {
        Some(o) => o,
        None => 1,
    };
    match limit {
        None => {
            if off <= 1 {
                return content.to_owned();
            }
            slice(content, off - 1, usize::MAX)
        },
        Some(l) => {
            if l == 0 {
                return String::new();
            }
            let skip: usize = if off == 0 {
                0
            } else {
                off - 1
            };
            slice(content, skip, l)
        },
    }
}

/// Join the `\n`-separated lines of `content` from `skip` onward, taking at
/// most `take` of them, dropping the empty element a trailing newline leaves.
pub fn slice(content: &str, skip: usize, take: usize) -> (r: String)
    ensures
        r@ == spec_slice(content@, skip as nat, take as nat),
{
    let cs = chars_of(content);
    let parts = split_chars(&cs, '\n');
    let n: usize = if cs.len() > 0 && cs[cs.len() - 1] == '\n' {
        parts.len() - 1
    } else {
        parts.len()
    };
    let ghost ls = raw_lines(content@);
    assert(ls == views(parts@).subrange(0, n as int));
    let start: usize = if skip <= n {
        skip
    } else {
        n
    };
    let end: usize = if take <= n - start {
        start + take
    } else {
        n
    };
    assert(end == min_nat(skip as nat + take as nat, ls.len()));
    let mut picked: Vec<Vec<char>> = Vec::new();
    let mut i: usize = start;
    while i < end
        invariant
            start <= i <= end,
            end <= n,
            n <= parts@.len(),
            views(picked@) == views(parts@).subrange(start as int, i as int),
        decreases end - i,
    {
        let ghost before = picked@;
        picked.push(copy_chars(&parts[i]));
        assert(views(picked@) == views(before).push(parts@[i as int]@));
        i = i + 1;
    }
    assert(views(picked@) == window(ls, skip as nat, take as nat));
    let sep: Vec<char> = vec!['\n'];
    assert(sep@ == seq!['\n']);
    string_of(&join_chars(&picked, &sep))
}

} // verus!
