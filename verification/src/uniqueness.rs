use vstd::prelude::*;
use crate::allocation::{
    allocates, blocked, flagged, opens, passed_over, sized_by, with_slot, PhysicalBuffer,
};
use crate::descriptor::{lemma_usage_extensional, MemoryCategory, UsageFlag};
use crate::laws::lemma_opener;
use crate::plan::PlanView;
use crate::solver::{
    describes, first_pos, lemma_first_pos, listed, summarises, Declaration, Entry,
};

verus! {

/// Two summaries of the same declarations list the same names in the same order.
pub proof fn lemma_names_agree(d: Seq<Declaration>, e1: Seq<Entry>, e2: Seq<Entry>, k: int)
    requires
        summarises(d, e1),
        summarises(d, e2),
        0 <= k < e1.len(),
        k < e2.len(),
    ensures
        e1[k].name == e2[k].name,
    decreases k, 1int,
{
    assert(describes(d, e1[k]));
    assert(describes(d, e2[k]));
    lemma_first_pos(d, e1[k].name);
    lemma_first_pos(d, e2[k].name);
    lemma_not_earlier(d, e1, e2, k);
    lemma_not_earlier(d, e2, e1, k);
}

/// The name at `k` of one summary does not first appear before the name at `k` of
/// another summary of the same declarations.
proof fn lemma_not_earlier(d: Seq<Declaration>, e1: Seq<Entry>, e2: Seq<Entry>, k: int)
    requires
        summarises(d, e1),
        summarises(d, e2),
        0 <= k < e1.len(),
        k < e2.len(),
    ensures
        first_pos(d, e1[k].name) >= first_pos(d, e2[k].name),
    decreases k, 0int,
{
    if first_pos(d, e1[k].name) < first_pos(d, e2[k].name) {
        assert(describes(d, e1[k]));
        let name = e1[k].name;
        let f1 = first_pos(d, name);
        lemma_first_pos(d, name);
        assert(listed(e2, d[f1].descriptor.name));
        let j = choose|j: int| 0 <= j < e2.len() && #[trigger] e2[j].name == name;
        if j > k {
            assert(first_pos(d, e2[k].name) < first_pos(d, e2[j].name));
        } else if j < k {
            lemma_names_agree(d, e1, e2, j);
            assert(first_pos(d, e1[j].name) < first_pos(d, e1[k].name));
        }
    }
}

/// A summary of some declarations has no more names than another.
proof fn lemma_no_longer(d: Seq<Declaration>, e1: Seq<Entry>, e2: Seq<Entry>)
    requires
        summarises(d, e1),
        summarises(d, e2),
    ensures
        e2.len() <= e1.len(),
{
    if e1.len() < e2.len() {
        let k = e1.len() as int;
        assert(describes(d, e2[k]));
        let name = e2[k].name;
        lemma_first_pos(d, name);
        assert(listed(e1, d[first_pos(d, name)].descriptor.name));
        let j = choose|j: int| 0 <= j < e1.len() && #[trigger] e1[j].name == name;
        lemma_names_agree(d, e1, e2, j);
        assert(first_pos(d, e2[j].name) < first_pos(d, e2[k].name));
    }
}

/// Two summaries of the same declarations differ at most in the slots.
pub proof fn lemma_summaries_agree(d: Seq<Declaration>, e1: Seq<Entry>, e2: Seq<Entry>)
    requires
        summarises(d, e1),
        summarises(d, e2),
    ensures
        e1.len() == e2.len(),
        forall|k: int| 0 <= k < e1.len() ==> #[trigger] e1[k] == with_slot(e2[k], e1[k].slot),
{
    lemma_no_longer(d, e1, e2);
    lemma_no_longer(d, e2, e1);
    assert forall|k: int| 0 <= k < e1.len() implies #[trigger] e1[k] == with_slot(
        e2[k],
        e1[k].slot,
    ) by {
        lemma_names_agree(d, e1, e2, k);
        assert(describes(d, e1[k]));
        assert(describes(d, e2[k]));
    }
}

/// A name that opens a physical buffer finds every buffer with a smaller number
/// in use by an earlier name.
pub proof fn lemma_below_new_slot(e: Seq<Entry>, ph: Seq<PhysicalBuffer>, k: int, i: int) -> (a: int)
    requires
        allocates(e, ph),
        0 <= k < e.len(),
        opens(e, k),
        0 <= i < e[k].slot,
    ensures
        0 <= a < k,
        e[a].slot == i,
{
    assert(e[k].slot < ph.len());
    assert(sized_by(e, ph, i));
    let b = choose|b: int| 0 <= b < e.len() && (#[trigger] e[b]).slot == i && e[b].size == ph[i].size;
    let a = lemma_opener(e, b);
    if k < a {
        assert(opens(e, k) && opens(e, a));
        assert(e[k].slot < e[a].slot);
    }
    a
}

/// A name that opens a physical buffer gets a greater number than every earlier
/// name.
pub proof fn lemma_above_earlier(e: Seq<Entry>, ph: Seq<PhysicalBuffer>, k: int, a: int)
    requires
        allocates(e, ph),
        0 <= a < k < e.len(),
        opens(e, k),
    ensures
        e[a].slot < e[k].slot,
{
    let first = lemma_opener(e, a);
    assert(opens(e, first) && opens(e, k));
}

/// Where two allocations of the same names agree on the slots of the first `k`
/// names, the slot of the next name in the one is not smaller than in the other.
proof fn lemma_slot_not_less(
    e1: Seq<Entry>,
    ph1: Seq<PhysicalBuffer>,
    e2: Seq<Entry>,
    ph2: Seq<PhysicalBuffer>,
    k: int,
)
    requires
        allocates(e1, ph1),
        allocates(e2, ph2),
        e1.len() == e2.len(),
        forall|j: int| 0 <= j < e1.len() ==> #[trigger] e1[j] == with_slot(e2[j], e1[j].slot),
        0 <= k < e1.len(),
        forall|j: int| 0 <= j < k ==> (#[trigger] e1[j]).slot == e2[j].slot,
    ensures
        e1[k].slot >= e2[k].slot,
{
    let s1 = e1[k].slot;
    let s2 = e2[k].slot;
    if s1 < s2 {
        assert(e1[k] == with_slot(e2[k], e1[k].slot));
        // An earlier name is backed by `s1`, in both allocations.
        let a: int = if opens(e2, k) {
            lemma_below_new_slot(e2, ph2, k, s1 as int)
        } else {
            let a2 = choose|a2: int| 0 <= a2 < k && (#[trigger] e2[a2]).slot == e2[k].slot;
            assert(e1[a2].slot == e2[a2].slot);
            if opens(e1, k) {
                lemma_above_earlier(e1, ph1, k, a2);
                0
            } else {
                let a1 = choose|a1: int| 0 <= a1 < k && (#[trigger] e1[a1]).slot == e1[k].slot;
                a1
            }
        };
        assert(e1[a].slot == e2[a].slot);
        assert(e1[a].slot == s1);
        assert(e1[a] == with_slot(e2[a], e1[a].slot));
        assert(e1[k].category == MemoryCategory::Transient);
        assert(ph1[s1 as int].category == e1[a].category);
        assert(passed_over(e2, a, k));
        assert(blocked(e2, k, e2[a].slot as int));
        let b = choose|b: int|
            0 <= b < k && (#[trigger] e2[b]).slot == e2[a].slot as int && e2[b].last
                >= e2[k].first;
        assert(e1[b].slot == e2[b].slot);
        assert(e1[b] == with_slot(e2[b], e1[b].slot));
        assert(e1[b].last < e1[k].first);
    }
}

/// Two allocations of the same names give every name the same slot.
pub proof fn lemma_slots_agree(
    e1: Seq<Entry>,
    ph1: Seq<PhysicalBuffer>,
    e2: Seq<Entry>,
    ph2: Seq<PhysicalBuffer>,
    k: int,
)
    requires
        allocates(e1, ph1),
        allocates(e2, ph2),
        e1.len() == e2.len(),
        forall|j: int| 0 <= j < e1.len() ==> #[trigger] e1[j] == with_slot(e2[j], e1[j].slot),
        0 <= k < e1.len(),
    ensures
        e1[k].slot == e2[k].slot,
    decreases k,
{
    assert forall|j: int| 0 <= j < k implies (#[trigger] e1[j]).slot == e2[j].slot by {
        lemma_slots_agree(e1, ph1, e2, ph2, j);
    }
    assert forall|j: int| 0 <= j < e2.len() implies #[trigger] e2[j] == with_slot(
        e1[j],
        e2[j].slot,
    ) by {
        assert(e1[j] == with_slot(e2[j], e1[j].slot));
    }
    assert forall|j: int| 0 <= j < k implies (#[trigger] e2[j]).slot == e1[j].slot by {
        assert(e1[j].slot == e2[j].slot);
    }
    lemma_slot_not_less(e1, ph1, e2, ph2, k);
    lemma_slot_not_less(e2, ph2, e1, ph1, k);
}

/// An allocation has no more physical buffers than another of the same names
/// with the same slots.
proof fn lemma_no_more_buffers(e: Seq<Entry>, ph1: Seq<PhysicalBuffer>, ph2: Seq<PhysicalBuffer>)
    requires
        allocates(e, ph1),
        allocates(e, ph2),
    ensures
        ph2.len() <= ph1.len(),
{
    if ph1.len() < ph2.len() {
        let i = ph1.len() as int;
        assert(sized_by(e, ph2, i));
        let k = choose|k: int| 0 <= k < e.len() && (#[trigger] e[k]).slot == i && e[k].size == ph2[i].size;
        assert(e[k].slot < ph1.len());
    }
}

/// A physical buffer is no larger in one allocation than in another of the same
/// names with the same slots.
proof fn lemma_no_larger(e: Seq<Entry>, ph1: Seq<PhysicalBuffer>, ph2: Seq<PhysicalBuffer>, i: int)
    requires
        allocates(e, ph1),
        allocates(e, ph2),
        0 <= i < ph1.len(),
        i < ph2.len(),
    ensures
        ph1[i].size <= ph2[i].size,
        ph1[i].category == ph2[i].category,
{
    assert(sized_by(e, ph1, i));
    let k = choose|k: int| 0 <= k < e.len() && (#[trigger] e[k]).slot == i && e[k].size == ph1[i].size;
    assert(e[k].size <= ph2[e[k].slot as int].size);
}

/// The names and their slots fix the physical buffers.
pub proof fn lemma_physical_agree(e: Seq<Entry>, ph1: Seq<PhysicalBuffer>, ph2: Seq<PhysicalBuffer>)
    requires
        allocates(e, ph1),
        allocates(e, ph2),
    ensures
        ph1 == ph2,
{
    lemma_no_more_buffers(e, ph1, ph2);
    lemma_no_more_buffers(e, ph2, ph1);
    assert forall|i: int| 0 <= i < ph1.len() implies ph1[i] == ph2[i] by {
        lemma_no_larger(e, ph1, ph2, i);
        lemma_no_larger(e, ph2, ph1, i);
        assert forall|flag: UsageFlag| ph1[i].usage.has(flag) == ph2[i].usage.has(flag) by {
            assert(ph1[i].usage.has(flag) <==> flagged(e, i, flag));
            assert(ph2[i].usage.has(flag) <==> flagged(e, i, flag));
        }
        lemma_usage_extensional(ph1[i].usage, ph2[i].usage);
    }
    assert(ph1 =~= ph2);
}

/// The declarations fix the plan: two plans that summarise the same declarations
/// and allocate as the solver does are the same plan. So they need the same bytes,
/// and whether these can be counted is a matter of the declarations alone.
pub proof fn lemma_plan_unique(v1: PlanView, v2: PlanView)
    requires
        summarises(v1.declarations, v1.entries),
        allocates(v1.entries, v1.physical),
        summarises(v2.declarations, v2.entries),
        allocates(v2.entries, v2.physical),
        v1.declarations == v2.declarations,
    ensures
        v1 == v2,
{
    let d = v1.declarations;
    lemma_summaries_agree(d, v1.entries, v2.entries);
    assert forall|k: int| 0 <= k < v1.entries.len() implies v1.entries[k] == v2.entries[k] by {
        lemma_slots_agree(v1.entries, v1.physical, v2.entries, v2.physical, k);
    }
    assert(v1.entries =~= v2.entries);
    lemma_physical_agree(v1.entries, v1.physical, v2.physical);
}

} // verus!
