//! The session store's byte quota: once the whole store exceeds its quota,
//! session files are deleted oldest first (by modification time; ties keep
//! their listing order), never the active session, until the store is back
//! at half the quota.
use vstd::prelude::*;

verus! {

/// A session file as the quota sees it: its size, its modification time
/// (nanoseconds since the epoch), and whether it is the active session.
#[derive(Clone, Copy, Debug, PartialEq, Eq)]
pub struct StoreFile {
    pub size: u64,
    pub mtime: u128,
    pub active: bool,
}

/// File `a` goes before file `b`: it is older, or as old and listed first.
pub open spec fn older(files: Seq<StoreFile>, a: int, b: int) -> bool {
    files[a].mtime < files[b].mtime || (files[a].mtime == files[b].mtime && a < b)
}

/// The size the store is brought back to once it exceeds `max_bytes`:
/// half the quota; `None` while the store is within its quota.
pub fn quota_target(total: u64, max_bytes: u64) -> (t: Option<u64>)
    ensures
        total <= max_bytes ==> t is None,
        total > max_bytes ==> t == Some((max_bytes / 2) as u64),
{
    if total <= max_bytes {
        None
    } else {
        Some(max_bytes / 2)
    }
}

/// The deletion order: every file but the active one, oldest first.
pub fn eviction_order(files: &[StoreFile]) -> (order: Vec<usize>)
    ensures
        forall|k: int| 0 <= k < order@.len() ==> order@[k] < files@.len() && !files@[order@[k] as int].active,
        forall|i: int| 0 <= i < files@.len() && !files@[i].active ==> order@.contains(i as usize),
        forall|a: int, b: int| 0 <= a < b < order@.len() ==> older(files@, order@[a] as int, order@[b] as int),
{
    let mut order: Vec<usize> = Vec::new();
    let mut i: usize = 0;
    while i < files.len()
        invariant
            i <= files@.len(),
            forall|k: int| 0 <= k < order@.len() ==> order@[k] < i && !files@[order@[k] as int].active,
            forall|j: int| 0 <= j < i && !files@[j].active ==> order@.contains(j as usize),
            forall|a: int, b: int| 0 <= a < b < order@.len() ==> older(files@, order@[a] as int, order@[b] as int),
        decreases files.len() - i,
    {
        if !files[i].active {
            let m = files[i].mtime;
            let mut q: usize = 0;
            while q < order.len() && files[order[q]].mtime <= m
                invariant
                    q <= order@.len(),
                    i < files@.len(),
                    forall|k: int| 0 <= k < order@.len() ==> order@[k] < i,
                    forall|k: int| 0 <= k < q ==> files@[order@[k] as int].mtime <= m,
                decreases order.len() - q,
            {
                q = q + 1;
            }
            let ghost before = order@;
            order.insert(q, i);
            assert forall|a: int, b: int| 0 <= a < b < order@.len() implies older(
                files@,
                order@[a] as int,
                order@[b] as int,
            ) by {
                if a < q && b < q {
                    assert(older(files@, before[a] as int, before[b] as int));
                } else if a < q && b == q {
                    assert(files@[before[a] as int].mtime <= m);
                } else if a < q && b > q {
                    assert(older(files@, before[a] as int, before[b - 1] as int));
                } else if a == q {
                    assert(files@[before[q as int] as int].mtime > m);
                    if b - 1 > q {
                        assert(older(files@, before[q as int] as int, before[b - 1] as int));
                    }
                } else {
                    assert(older(files@, before[a - 1] as int, before[b - 1] as int));
                }
            }
            assert forall|j: int| 0 <= j < i + 1 && !files@[j].active implies order@.contains(j as usize) by {
                if j == i {
                    assert(order@[q as int] == i);
                } else {
                    let k = choose|k: int| 0 <= k < before.len() && before[k] == j as usize;
                    if k < q {
                        assert(order@[k] == j as usize);
                    } else {
                        assert(order@[k + 1] == j as usize);
                    }
                }
            }
        }
        i = i + 1;
    }
    order
}

} // verus!
