use vstd::prelude::*;
use crate::descriptor::{MemoryCategory, Usage, UsageFlag};
use crate::solver::Entry;

verus! {

/// One buffer that is really allocated.
#[derive(Clone, Copy, Debug, PartialEq, Eq, Structural)]
pub struct PhysicalBuffer {
    pub category: MemoryCategory,
    pub size: u64,
    pub usage: Usage,
}

/// Some name is backed by physical buffer `i` and is as large as it.
pub open spec fn sized_by(e: Seq<Entry>, ph: Seq<PhysicalBuffer>, i: int) -> bool {
    exists|k: int| 0 <= k < e.len() && (#[trigger] e[k]).slot == i && e[k].size == ph[i].size
}

/// Some name that is backed by physical buffer `i` asks for `flag`.
pub open spec fn flagged(e: Seq<Entry>, i: int, flag: UsageFlag) -> bool {
    exists|k: int| 0 <= k < e.len() && (#[trigger] e[k]).slot == i && e[k].usage.has(flag)
}

/// When the name at `k` is first needed, physical buffer `i` still backs an earlier
/// name that is alive.
pub open spec fn blocked(e: Seq<Entry>, k: int, i: int) -> bool {
    exists|b: int| 0 <= b < k && (#[trigger] e[b]).slot == i && e[b].last >= e[k].first
}

/// Physical buffer `i` backs a name that is still alive at `stage`.
pub open spec fn busy(e: Seq<Entry>, i: int, stage: usize) -> bool {
    exists|b: int| 0 <= b < e.len() && (#[trigger] e[b]).slot == i && e[b].last >= stage
}

/// The name at `k` is the first that its physical buffer backs.
pub open spec fn opens(e: Seq<Entry>, k: int) -> bool {
    forall|a: int| 0 <= a < k ==> (#[trigger] e[a]).slot != e[k].slot
}

/// Every name is backed by a physical buffer of its own category.
pub open spec fn slots_in_range(e: Seq<Entry>, ph: Seq<PhysicalBuffer>) -> bool {
    forall|k: int|
        0 <= k < e.len() ==> (#[trigger] e[k]).slot < ph.len() && ph[e[k].slot as int].category
            == e[k].category
}

/// A persistent name shares its physical buffer with no other name.
pub open spec fn persistent_alone(e: Seq<Entry>) -> bool {
    forall|a: int, b: int|
        0 <= a < e.len() && 0 <= b < e.len() && a != b && (#[trigger] e[a]).category
            == MemoryCategory::Persistent ==> e[a].slot != (#[trigger] e[b]).slot
}

/// Two names that share a physical buffer are never alive at the same stage.
pub open spec fn windows_apart(e: Seq<Entry>) -> bool {
    forall|a: int, b: int|
        0 <= a < b < e.len() && (#[trigger] e[a]).slot == (#[trigger] e[b]).slot ==> e[a].last
            < e[b].first
}

/// A physical buffer is as large as the largest name it backs, and no larger.
pub open spec fn sizes_fit(e: Seq<Entry>, ph: Seq<PhysicalBuffer>) -> bool {
    &&& forall|k: int|
        0 <= k < e.len() && (#[trigger] e[k]).slot < ph.len() ==> e[k].size
            <= ph[e[k].slot as int].size
    &&& forall|i: int| 0 <= i < ph.len() ==> #[trigger] sized_by(e, ph, i)
}

/// A physical buffer has exactly the usages that the names it backs ask for.
pub open spec fn usages_joined(e: Seq<Entry>, ph: Seq<PhysicalBuffer>) -> bool {
    forall|i: int, flag: UsageFlag|
        0 <= i < ph.len() ==> (#[trigger] ph[i].usage.has(flag) <==> flagged(e, i, flag))
}

/// The physical buffers are numbered in the order in which they are first needed.
pub open spec fn numbered_by_opening(e: Seq<Entry>) -> bool {
    forall|a: int, b: int|
        0 <= a < b < e.len() && #[trigger] opens(e, a) && #[trigger] opens(e, b) ==> e[a].slot
            < e[b].slot
}

/// The names at `a` and `k` are both transient, `a` comes first, and its physical
/// buffer has a smaller number than that of `k`.
pub open spec fn passed_over(e: Seq<Entry>, a: int, k: int) -> bool {
    &&& 0 <= a < k < e.len()
    &&& e[a].slot < e[k].slot
    &&& e[a].category == MemoryCategory::Transient
    &&& e[k].category == MemoryCategory::Transient
}

/// A transient name takes the first transient physical buffer that is free: every
/// transient buffer with a smaller number is still in use when the name is first
/// needed.
pub open spec fn first_fit(e: Seq<Entry>) -> bool {
    forall|a: int, k: int| #[trigger] passed_over(e, a, k) ==> blocked(e, k, e[a].slot as int)
}

/// `ph` is the allocation that the solver makes for the names `e`, and the slots of
/// `e` say which physical buffer backs which name.
pub open spec fn allocates(e: Seq<Entry>, ph: Seq<PhysicalBuffer>) -> bool {
    &&& slots_in_range(e, ph)
    &&& persistent_alone(e)
    &&& windows_apart(e)
    &&& sizes_fit(e, ph)
    &&& usages_joined(e, ph)
    &&& numbered_by_opening(e)
    &&& first_fit(e)
}

/// The physical buffer that a name opens.
pub open spec fn opened_buffer(entry: Entry) -> PhysicalBuffer {
    PhysicalBuffer { category: entry.category, size: entry.size, usage: entry.usage }
}

/// The physical buffer `buffer` once it also backs `entry`.
pub open spec fn shared_buffer(buffer: PhysicalBuffer, entry: Entry) -> PhysicalBuffer {
    PhysicalBuffer {
        category: buffer.category,
        size: if buffer.size < entry.size {
            entry.size
        } else {
            buffer.size
        },
        usage: buffer.usage.spec_union(entry.usage),
    }
}

/// A physical buffer of its own keeps every name in a buffer of its category.
proof fn lemma_open_range(e: Seq<Entry>, ph: Seq<PhysicalBuffer>, entry: Entry)
    requires
        slots_in_range(e, ph),
        entry.slot == ph.len(),
    ensures
        slots_in_range(e.push(entry), ph.push(opened_buffer(entry))),
{
    let e2 = e.push(entry);
    let ph2 = ph.push(opened_buffer(entry));
    assert forall|k: int| 0 <= k < e2.len() implies (#[trigger] e2[k]).slot < ph2.len()
        && ph2[e2[k].slot as int].category == e2[k].category by {
        if k < e.len() {
            assert(e2[k] == e[k]);
        }
    }
}

/// A physical buffer of its own is shared with no earlier name.
proof fn lemma_open_alone(e: Seq<Entry>, ph: Seq<PhysicalBuffer>, entry: Entry)
    requires
        slots_in_range(e, ph),
        persistent_alone(e),
        entry.slot == ph.len(),
    ensures
        persistent_alone(e.push(entry)),
        forall|b: int| 0 <= b < e.len() ==> (#[trigger] e[b]).slot != entry.slot,
{
    let e2 = e.push(entry);
    assert forall|a: int, b: int|
        0 <= a < e2.len() && 0 <= b < e2.len() && a != b && (#[trigger] e2[a]).category
            == MemoryCategory::Persistent implies e2[a].slot != (#[trigger] e2[b]).slot by {
        if a < e.len() {
            assert(e2[a] == e[a]);
        }
        if b < e.len() {
            assert(e2[b] == e[b]);
        }
    }
}

/// A physical buffer of its own is as large as its one name.
proof fn lemma_open_sizes(e: Seq<Entry>, ph: Seq<PhysicalBuffer>, entry: Entry)
    requires
        slots_in_range(e, ph),
        sizes_fit(e, ph),
        entry.slot == ph.len(),
    ensures
        sizes_fit(e.push(entry), ph.push(opened_buffer(entry))),
{
    let e2 = e.push(entry);
    let ph2 = ph.push(opened_buffer(entry));
    let n = e.len() as int;
    assert forall|k: int| 0 <= k < e2.len() && (#[trigger] e2[k]).slot < ph2.len() implies e2[k].size
        <= ph2[e2[k].slot as int].size by {
        if k < n {
            assert(e2[k] == e[k]);
        }
    }
    assert forall|i: int| 0 <= i < ph2.len() implies #[trigger] sized_by(e2, ph2, i) by {
        if i < ph.len() {
            assert(sized_by(e, ph, i));
            let k = choose|k: int|
                0 <= k < e.len() && (#[trigger] e[k]).slot == i && e[k].size == ph[i].size;
            assert(e2[k].slot == i && e2[k].size == ph2[i].size);
        } else {
            assert(e2[n].slot == i && e2[n].size == ph2[i].size);
        }
    }
}

/// A physical buffer of its own has the usages of its one name.
proof fn lemma_open_usages(e: Seq<Entry>, ph: Seq<PhysicalBuffer>, entry: Entry)
    requires
        slots_in_range(e, ph),
        usages_joined(e, ph),
        entry.slot == ph.len(),
    ensures
        usages_joined(e.push(entry), ph.push(opened_buffer(entry))),
{
    let e2 = e.push(entry);
    let ph2 = ph.push(opened_buffer(entry));
    let n = e.len() as int;
    assert forall|i: int, flag: UsageFlag| 0 <= i < ph2.len() implies (
    #[trigger] ph2[i].usage.has(flag) <==> flagged(e2, i, flag)) by {
        if i < ph.len() {
            assert(ph[i].usage.has(flag) <==> flagged(e, i, flag));
            if flagged(e, i, flag) {
                let k = choose|k: int|
                    0 <= k < e.len() && (#[trigger] e[k]).slot == i && e[k].usage.has(flag);
                assert(e2[k].slot == i && e2[k].usage.has(flag));
            }
            if flagged(e2, i, flag) {
                let k = choose|k: int|
                    0 <= k < e2.len() && (#[trigger] e2[k]).slot == i && e2[k].usage.has(flag);
                assert(e[k].slot == i && e[k].usage.has(flag));
            }
        } else {
            if entry.usage.has(flag) {
                assert(e2[n].slot == i && e2[n].usage.has(flag));
            }
            if flagged(e2, i, flag) {
                let k = choose|k: int|
                    0 <= k < e2.len() && (#[trigger] e2[k]).slot == i && e2[k].usage.has(flag);
                if k < n {
                    assert(e2[k] == e[k]);
                }
            }
        }
    }
}

/// Giving a name a physical buffer of its own keeps the allocation right.
proof fn lemma_open_slot(e: Seq<Entry>, ph: Seq<PhysicalBuffer>, entry: Entry)
    requires
        allocates(e, ph),
        entry.slot == ph.len(),
        entry.category == MemoryCategory::Transient ==> forall|i: int|
            0 <= i < ph.len() && ph[i].category == MemoryCategory::Transient ==> #[trigger] busy(
                e,
                i,
                entry.first,
            ),
    ensures
        allocates(e.push(entry), ph.push(opened_buffer(entry))),
{
    lemma_open_range(e, ph, entry);
    lemma_open_alone(e, ph, entry);
    lemma_push_apart(e, entry);
    lemma_open_sizes(e, ph, entry);
    lemma_open_usages(e, ph, entry);
    assert forall|a: int| 0 <= a < e.len() implies (#[trigger] e[a]).slot < entry.slot by {}
    lemma_push_numbered(e, entry);
    lemma_push_first_fit(e, ph, entry);
}

/// Sharing keeps every name in a physical buffer of its category.
proof fn lemma_reuse_range(e: Seq<Entry>, ph: Seq<PhysicalBuffer>, entry: Entry, i: int)
    requires
        slots_in_range(e, ph),
        0 <= i < ph.len(),
        entry.slot == i,
        ph[i].category == entry.category,
    ensures
        slots_in_range(e.push(entry), ph.update(i, shared_buffer(ph[i], entry))),
{
    let e2 = e.push(entry);
    let ph2 = ph.update(i, shared_buffer(ph[i], entry));
    assert forall|k: int| 0 <= k < e2.len() implies (#[trigger] e2[k]).slot < ph2.len()
        && ph2[e2[k].slot as int].category == e2[k].category by {
        if k < e.len() {
            assert(e2[k] == e[k]);
        }
    }
}

/// Sharing among transient names leaves every persistent name alone.
proof fn lemma_reuse_alone(e: Seq<Entry>, ph: Seq<PhysicalBuffer>, entry: Entry, i: int)
    requires
        slots_in_range(e, ph),
        persistent_alone(e),
        0 <= i < ph.len(),
        entry.slot == i,
        ph[i].category == MemoryCategory::Transient,
        entry.category == MemoryCategory::Transient,
    ensures
        persistent_alone(e.push(entry)),
{
    let e2 = e.push(entry);
    assert forall|a: int, b: int|
        0 <= a < e2.len() && 0 <= b < e2.len() && a != b && (#[trigger] e2[a]).category
            == MemoryCategory::Persistent implies e2[a].slot != (#[trigger] e2[b]).slot by {
        if a < e.len() {
            assert(e2[a] == e[a]);
        }
        if b < e.len() {
            assert(e2[b] == e[b]);
        }
    }
}

/// A name that comes after every name of its physical buffer keeps the windows apart.
proof fn lemma_push_apart(e: Seq<Entry>, entry: Entry)
    requires
        windows_apart(e),
        forall|b: int|
            0 <= b < e.len() && (#[trigger] e[b]).slot == entry.slot ==> e[b].last < entry.first,
    ensures
        windows_apart(e.push(entry)),
{
    let e2 = e.push(entry);
    assert forall|a: int, b: int|
        0 <= a < b < e2.len() && (#[trigger] e2[a]).slot == (#[trigger] e2[b]).slot implies e2[a].last
        < e2[b].first by {
        assert(e2[a] == e[a]);
        if b < e.len() {
            assert(e2[b] == e[b]);
        }
    }
}

/// Sharing makes the physical buffer as large as its largest name.
proof fn lemma_reuse_sizes(e: Seq<Entry>, ph: Seq<PhysicalBuffer>, entry: Entry, i: int)
    requires
        slots_in_range(e, ph),
        sizes_fit(e, ph),
        0 <= i < ph.len(),
        entry.slot == i,
    ensures
        sizes_fit(e.push(entry), ph.update(i, shared_buffer(ph[i], entry))),
{
    let e2 = e.push(entry);
    let ph2 = ph.update(i, shared_buffer(ph[i], entry));
    let n = e.len() as int;
    assert forall|k: int| 0 <= k < e2.len() && (#[trigger] e2[k]).slot < ph2.len() implies e2[k].size
        <= ph2[e2[k].slot as int].size by {
        if k < n {
            assert(e2[k] == e[k]);
        }
    }
    assert forall|j: int| 0 <= j < ph2.len() implies #[trigger] sized_by(e2, ph2, j) by {
        assert(sized_by(e, ph, j));
        let k = choose|k: int|
            0 <= k < e.len() && (#[trigger] e[k]).slot == j && e[k].size == ph[j].size;
        if j == i && ph[i].size < entry.size {
            assert(e2[n].slot == j && e2[n].size == ph2[j].size);
        } else {
            assert(e2[k].slot == j && e2[k].size == ph2[j].size);
        }
    }
}

/// Sharing adds the usages of the new name to those of the physical buffer.
proof fn lemma_reuse_usages(e: Seq<Entry>, ph: Seq<PhysicalBuffer>, entry: Entry, i: int)
    requires
        usages_joined(e, ph),
        0 <= i < ph.len(),
        entry.slot == i,
    ensures
        usages_joined(e.push(entry), ph.update(i, shared_buffer(ph[i], entry))),
{
    let e2 = e.push(entry);
    let ph2 = ph.update(i, shared_buffer(ph[i], entry));
    let n = e.len() as int;
    assert forall|j: int, flag: UsageFlag| 0 <= j < ph2.len() implies (
    #[trigger] ph2[j].usage.has(flag) <==> flagged(e2, j, flag)) by {
        assert(ph[j].usage.has(flag) <==> flagged(e, j, flag));
        if flagged(e, j, flag) {
            let k = choose|k: int|
                0 <= k < e.len() && (#[trigger] e[k]).slot == j && e[k].usage.has(flag);
            assert(e2[k].slot == j && e2[k].usage.has(flag));
        }
        if j == i && entry.usage.has(flag) {
            assert(e2[n].slot == j && e2[n].usage.has(flag));
        }
        if flagged(e2, j, flag) {
            let k = choose|k: int|
                0 <= k < e2.len() && (#[trigger] e2[k]).slot == j && e2[k].usage.has(flag);
            if k < n {
                assert(e[k].slot == j && e[k].usage.has(flag));
            }
        }
    }
}

/// A name that comes last opens a physical buffer only above all that are open, and
/// then the numbering stays in the order of opening.
proof fn lemma_push_numbered(e: Seq<Entry>, entry: Entry)
    requires
        numbered_by_opening(e),
        opens(e.push(entry), e.len() as int) ==> forall|a: int|
            0 <= a < e.len() ==> (#[trigger] e[a]).slot < entry.slot,
    ensures
        numbered_by_opening(e.push(entry)),
{
    let e2 = e.push(entry);
    assert forall|a: int, b: int|
        0 <= a < b < e2.len() && #[trigger] opens(e2, a) && #[trigger] opens(
            e2,
            b,
        ) implies e2[a].slot < e2[b].slot by {
        assert(e2[a] == e[a]);
        if b < e.len() {
            assert(e2[b] == e[b]);
            assert(opens(e, a)) by {
                assert forall|c: int| 0 <= c < a implies (#[trigger] e[c]).slot != e[a].slot by {
                    assert(e2[c].slot != e2[a].slot);
                }
            }
            assert(opens(e, b)) by {
                assert forall|c: int| 0 <= c < b implies (#[trigger] e[c]).slot != e[b].slot by {
                    assert(e2[c].slot != e2[b].slot);
                }
            }
        }
    }
}

/// A name that passes over busy physical buffers only keeps the choice first-fit.
proof fn lemma_push_first_fit(e: Seq<Entry>, ph: Seq<PhysicalBuffer>, entry: Entry)
    requires
        first_fit(e),
        slots_in_range(e, ph),
        entry.category == MemoryCategory::Transient ==> forall|j: int|
            0 <= j < entry.slot && j < ph.len() && ph[j].category == MemoryCategory::Transient
                ==> #[trigger] busy(e, j, entry.first),
    ensures
        first_fit(e.push(entry)),
{
    let e2 = e.push(entry);
    let n = e.len() as int;
    assert forall|a: int, k: int| #[trigger] passed_over(e2, a, k) implies blocked(
        e2,
        k,
        e2[a].slot as int,
    ) by {
        assert(e2[a] == e[a]);
        let j = e[a].slot as int;
        if k < n {
            assert(e2[k] == e[k]);
            assert(passed_over(e, a, k));
            assert(blocked(e, k, j));
            let b = choose|b: int|
                0 <= b < k && (#[trigger] e[b]).slot == j && e[b].last >= e[k].first;
            assert(e2[b].slot == j && e2[b].last >= e2[k].first);
        } else {
            assert(ph[j].category == MemoryCategory::Transient);
            assert(busy(e, j, entry.first));
            let b = choose|b: int|
                0 <= b < e.len() && (#[trigger] e[b]).slot == j && e[b].last >= entry.first;
            assert(e2[b].slot == j && e2[b].last >= e2[k].first);
        }
    }
}

/// Letting a transient name share a free transient physical buffer keeps the
/// allocation right.
proof fn lemma_reuse_slot(e: Seq<Entry>, ph: Seq<PhysicalBuffer>, entry: Entry, i: int)
    requires
        allocates(e, ph),
        0 <= i < ph.len(),
        entry.slot == i,
        ph[i].category == MemoryCategory::Transient,
        entry.category == MemoryCategory::Transient,
        forall|b: int| 0 <= b < e.len() && (#[trigger] e[b]).slot == i ==> e[b].last < entry.first,
        forall|j: int|
            0 <= j < i && ph[j].category == MemoryCategory::Transient ==> #[trigger] busy(
                e,
                j,
                entry.first,
            ),
    ensures
        allocates(e.push(entry), ph.update(i, shared_buffer(ph[i], entry))),
{
    lemma_reuse_range(e, ph, entry, i);
    lemma_reuse_alone(e, ph, entry, i);
    lemma_push_apart(e, entry);
    lemma_reuse_sizes(e, ph, entry, i);
    lemma_reuse_usages(e, ph, entry, i);
    assert(!opens(e.push(entry), e.len() as int)) by {
        assert(sized_by(e, ph, i));
        let k = choose|k: int|
            0 <= k < e.len() && (#[trigger] e[k]).slot == i && e[k].size == ph[i].size;
        assert(e.push(entry)[k].slot == e.push(entry)[e.len() as int].slot);
    }
    lemma_push_numbered(e, entry);
    lemma_push_first_fit(e, ph, entry);
}

/// The entry `entry` backed by physical buffer `slot`.
pub open spec fn with_slot(entry: Entry, slot: usize) -> Entry {
    Entry {
        name: entry.name,
        category: entry.category,
        size: entry.size,
        usage: entry.usage,
        first: entry.first,
        last: entry.last,
        slot,
    }
}

/// `until[i]` is the last stage at which a name backed by physical buffer `i` is alive.
pub open spec fn tracks(e: Seq<Entry>, until: Seq<usize>) -> bool {
    &&& forall|b: int|
        0 <= b < e.len() && (#[trigger] e[b]).slot < until.len() ==> e[b].last
            <= until[e[b].slot as int]
    &&& forall|i: int| 0 <= i < until.len() ==> #[trigger] busy(e, i, until[i])
}

/// The first transient physical buffer whose names are all dead before `first`.
fn find_free(physical: &Vec<PhysicalBuffer>, until: &Vec<usize>, first: usize) -> (found: Option<
    usize,
>)
    requires
        until.len() == physical.len(),
    ensures
        match found {
            Some(i) => {
                &&& i < physical.len()
                &&& physical[i as int].category == MemoryCategory::Transient
                &&& until[i as int] < first
                &&& forall|j: int|
                    0 <= j < i && physical[j].category == MemoryCategory::Transient ==> until[j]
                        >= first
            },
            None => forall|j: int|
                0 <= j < physical.len() && physical[j].category == MemoryCategory::Transient
                    ==> until[j] >= first,
        },
{
    let mut i: usize = 0;
    while i < physical.len()
        invariant
            i <= physical.len(),
            until.len() == physical.len(),
            forall|j: int|
                0 <= j < i && physical[j].category == MemoryCategory::Transient ==> until[j]
                    >= first,
        decreases physical.len() - i,
    {
        if physical[i].category == MemoryCategory::Transient && until[i] < first {
            return Some(i);
        }
        i += 1;
    }
    None
}

/// A physical buffer that is in use until `stage` is in use at every earlier stage.
proof fn lemma_busy_earlier(e: Seq<Entry>, i: int, stage: usize, earlier: usize)
    requires
        busy(e, i, stage),
        earlier <= stage,
    ensures
        busy(e, i, earlier),
{
    let b = choose|b: int| 0 <= b < e.len() && (#[trigger] e[b]).slot == i && e[b].last >= stage;
    assert(e[b].slot == i && e[b].last >= earlier);
}

/// The record of last stages once a name has opened a physical buffer.
proof fn lemma_tracks_open(e: Seq<Entry>, until: Seq<usize>, entry: Entry)
    requires
        tracks(e, until),
        forall|b: int| 0 <= b < e.len() ==> (#[trigger] e[b]).slot < until.len(),
        entry.slot == until.len(),
    ensures
        tracks(e.push(entry), until.push(entry.last)),
{
    let e2 = e.push(entry);
    let until2 = until.push(entry.last);
    let n = e.len() as int;
    assert forall|b: int| 0 <= b < e2.len() && (#[trigger] e2[b]).slot < until2.len() implies e2[b].last
        <= until2[e2[b].slot as int] by {
        if b < n {
            assert(e2[b] == e[b]);
        }
    }
    assert forall|i: int| 0 <= i < until2.len() implies #[trigger] busy(e2, i, until2[i]) by {
        if i < until.len() {
            assert(busy(e, i, until[i]));
            let b = choose|b: int|
                0 <= b < e.len() && (#[trigger] e[b]).slot == i && e[b].last >= until[i];
            assert(e2[b].slot == i && e2[b].last >= until2[i]);
        } else {
            assert(e2[n].slot == i && e2[n].last >= until2[i]);
        }
    }
}

/// The record of last stages once a name shares physical buffer `i`, which was free.
proof fn lemma_tracks_reuse(e: Seq<Entry>, until: Seq<usize>, entry: Entry, i: int)
    requires
        tracks(e, until),
        0 <= i < until.len(),
        entry.slot == i,
        until[i] < entry.first,
        entry.first <= entry.last,
    ensures
        tracks(e.push(entry), until.update(i, entry.last)),
{
    let e2 = e.push(entry);
    let until2 = until.update(i, entry.last);
    let n = e.len() as int;
    assert forall|b: int| 0 <= b < e2.len() && (#[trigger] e2[b]).slot < until2.len() implies e2[b].last
        <= until2[e2[b].slot as int] by {
        if b < n {
            assert(e2[b] == e[b]);
        }
    }
    assert forall|j: int| 0 <= j < until2.len() implies #[trigger] busy(e2, j, until2[j]) by {
        if j != i {
            assert(busy(e, j, until[j]));
            let b = choose|b: int|
                0 <= b < e.len() && (#[trigger] e[b]).slot == j && e[b].last >= until[j];
            assert(e2[b].slot == j && e2[b].last >= until2[j]);
        } else {
            assert(e2[n].slot == j && e2[n].last >= until2[j]);
        }
    }
}

/// Gives every name its physical buffer: a persistent name one of its own, a
/// transient name the first transient buffer that is free when the name is first
/// needed, or a new one where none is free.
pub fn assign_slots(entries: &Vec<Entry>) -> (r: (Vec<Entry>, Vec<PhysicalBuffer>))
    requires
        forall|k: int| 0 <= k < entries.len() ==> (#[trigger] entries[k]).first <= entries[k].last,
    ensures
        r.0.len() == entries.len(),
        forall|k: int|
            0 <= k < entries.len() ==> #[trigger] r.0[k] == with_slot(entries[k], r.0[k].slot),
        allocates(r.0@, r.1@),
{
    let mut placed: Vec<Entry> = Vec::new();
    let mut physical: Vec<PhysicalBuffer> = Vec::new();
    let mut until: Vec<usize> = Vec::new();
    let mut k: usize = 0;
    while k < entries.len()
        invariant
            k <= entries.len(),
            placed.len() == k,
            forall|a: int| 0 <= a < entries.len() ==> (#[trigger] entries[a]).first <= entries[a].last,
            forall|a: int| 0 <= a < k ==> #[trigger] placed[a] == with_slot(entries[a], placed[a].slot),
            allocates(placed@, physical@),
            until.len() == physical.len(),
            tracks(placed@, until@),
        decreases entries.len() - k,
    {
        let e = entries[k];
        let ghost before = placed@;
        let ghost buffers = physical@;
        let ghost stages = until@;
        let free = if e.category == MemoryCategory::Transient {
            find_free(&physical, &until, e.first)
        } else {
            None
        };
        match free {
            Some(i) => {
                let entry = Entry {
                    name: e.name,
                    category: e.category,
                    size: e.size,
                    usage: e.usage,
                    first: e.first,
                    last: e.last,
                    slot: i,
                };
                let old = physical[i];
                let shared = PhysicalBuffer {
                    category: old.category,
                    size: if old.size < e.size {
                        e.size
                    } else {
                        old.size
                    },
                    usage: old.usage.union(e.usage),
                };
                proof {
                    assert forall|j: int|
                        0 <= j < i && buffers[j].category
                            == MemoryCategory::Transient implies #[trigger] busy(
                        before,
                        j,
                        entry.first,
                    ) by {
                        assert(busy(before, j, stages[j]));
                        lemma_busy_earlier(before, j, stages[j], entry.first);
                    }
                    lemma_reuse_slot(before, buffers, entry, i as int);
                    lemma_tracks_reuse(before, stages, entry, i as int);
                }
                physical.set(i, shared);
                until.set(i, e.last);
                placed.push(entry);
            },
            None => {
                let entry = Entry {
                    name: e.name,
                    category: e.category,
                    size: e.size,
                    usage: e.usage,
                    first: e.first,
                    last: e.last,
                    slot: physical.len(),
                };
                proof {
                    if entry.category == MemoryCategory::Transient {
                        assert forall|j: int|
                            0 <= j < buffers.len() && buffers[j].category
                                == MemoryCategory::Transient implies #[trigger] busy(
                            before,
                            j,
                            entry.first,
                        ) by {
                            assert(busy(before, j, stages[j]));
                            lemma_busy_earlier(before, j, stages[j], entry.first);
                        }
                    }
                    lemma_open_slot(before, buffers, entry);
                    lemma_tracks_open(before, stages, entry);
                }
                physical.push(
                    PhysicalBuffer { category: e.category, size: e.size, usage: e.usage },
                );
                until.push(e.last);
                placed.push(entry);
            },
        }
        k += 1;
    }
    (placed, physical)
}

} // verus!
