//! Choosing how the entries of an archive are written.
//!
//! Small archives are written one entry after the other, in the order of
//! the archive. Once the files of an archive declare more than
//! `PARALLEL_THRESHOLD_BYTES` in all, the entries may be written side by
//! side. The choice changes how fast the tree appears, never what it holds.

use crate::entry::{MemEntry, MemEntryView};
use vstd::prelude::*;

verus! {

/// The total declared size above which entries are written side by side:
/// 10 MiB.
pub const PARALLEL_THRESHOLD_BYTES: u64 = 10_485_760;

/// How the entries of one archive are written.
#[derive(Debug, Clone, Copy, PartialEq, Eq, Structural)]
pub enum WriteStrategy {
    /// One entry after the other, in the order of the archive.
    Sequential,
    /// All entries handed to a pool of workers, in no particular order.
    Parallel,
}

/// The size that an entry adds to the total: its declared size for a file,
/// nothing for a directory.
pub open spec fn payload_size(entry: MemEntryView) -> nat {
    if entry.is_dir {
        0
    } else {
        entry.data_size as nat
    }
}

/// The sum of the declared sizes of the files among `entries`.
pub open spec fn total_payload(entries: Seq<MemEntryView>) -> nat
    decreases entries.len(),
{
    if entries.len() == 0 {
        0
    } else {
        total_payload(entries.drop_last()) + payload_size(entries.last())
    }
}

/// The strategy for a total declared size.
pub open spec fn strategy_for(total: nat) -> WriteStrategy {
    if total > PARALLEL_THRESHOLD_BYTES {
        WriteStrategy::Parallel
    } else {
        WriteStrategy::Sequential
    }
}

/// The sum of the declared sizes of the files among `entries`, held at
/// `u64::MAX` where it would pass it.
pub fn sum_payload(entries: &Vec<MemEntry>) -> (total: u64)
    ensures
        total == if total_payload(entries.deep_view()) > u64::MAX {
            u64::MAX as nat
        } else {
            total_payload(entries.deep_view())
        },
{
    let ghost model = entries.deep_view();
    let n = entries.len();
    let mut total: u64 = 0;
    let mut i: usize = 0;
    assert(model.take(0) == Seq::<MemEntryView>::empty());
    while i < n
        invariant
            n == entries.len(),
            model == entries.deep_view(),
            i <= n,
            total == if total_payload(model.take(i as int)) > u64::MAX {
                u64::MAX as nat
            } else {
                total_payload(model.take(i as int))
            },
        decreases n - i,
    {
        proof {
            let next = model.take(i + 1);
            assert(next.drop_last() == model.take(i as int));
            assert(next.last() == entries[i as int]@);
        }
        if !entries[i].is_dir {
            total = total.saturating_add(entries[i]._data_size);
        }
        i += 1;
    }
    assert(model.take(n as int) == model);
    total
}

/// The strategy for a total declared size: side by side above the
/// threshold, in order at or below it.
pub fn choose_strategy(total: u64) -> (strategy: WriteStrategy)
    ensures
        strategy == strategy_for(total as nat),
{
    if total > PARALLEL_THRESHOLD_BYTES {
        WriteStrategy::Parallel
    } else {
        WriteStrategy::Sequential
    }
}

/// The strategy for writing `entries`.
pub fn schedule(entries: &Vec<MemEntry>) -> (strategy: WriteStrategy)
    ensures
        strategy == strategy_for(total_payload(entries.deep_view())),
{
    choose_strategy(sum_payload(entries))
}

} // verus!
