use vstd::prelude::*;
use crate::allocation::{allocates, blocked, opens, passed_over, sized_by, PhysicalBuffer};
use crate::descriptor::{Buffers, MemoryCategory};
use crate::plan::{backs, solved, total_bytes, PlanView};
use gpwgpu::shaderpreprocessor::ShaderProcessor;
use crate::operations::{
    first_failing, pass_made, to_texture_bindings, to_texture_specialisation, AutoWhiteBalance,
    BlackLevel, CommandView, Debayer, RGBSpaceOperations,
};
use crate::pass::{bound, pass_of, refuses, Binding, PassView, Resource, StateError, Wanted};
use crate::pipeline::{AllOperations, Operation, Stage};
use crate::push::ISPParams;
use crate::setup::{constructed, made_for, stages, state_specs, Params, State, StateView};
use crate::shader::{expands, Specialisation};
use crate::solver::{
    compatible, describes, first_pos, lemma_first_pos, lemma_last_pos, listed, Entry,
};
use crate::uniqueness::lemma_plan_unique;

verus! {

/// A name is alive from the first stage that declares it to the last.
pub open spec fn live_at(entry: Entry, stage: usize) -> bool {
    entry.first <= stage <= entry.last
}

/// The entries of a plan stand in the order of the stages at which their names are
/// first declared, and no window ends before it starts.
pub proof fn lemma_entries_by_first_stage(v: PlanView)
    requires
        solved(v),
    ensures
        forall|a: int, b: int|
            0 <= a <= b < v.entries.len() ==> (#[trigger] v.entries[a]).first <= (
            #[trigger] v.entries[b]).first,
        forall|k: int| 0 <= k < v.entries.len() ==> (#[trigger] v.entries[k]).first <= v.entries[k].last,
{
    let d = v.declarations;
    let e = v.entries;
    assert forall|k: int| 0 <= k < e.len() implies (#[trigger] e[k]).first <= e[k].last by {
        assert(describes(d, e[k]));
        lemma_first_pos(d, e[k].name);
        lemma_last_pos(d, e[k].name);
    }
    assert forall|a: int, b: int| 0 <= a <= b < e.len() implies (#[trigger] e[a]).first <= (
    #[trigger] e[b]).first by {
        assert(describes(d, e[a]));
        assert(describes(d, e[b]));
        lemma_first_pos(d, e[a].name);
        lemma_first_pos(d, e[b].name);
        if a < b {
            assert(first_pos(d, e[a].name) < first_pos(d, e[b].name));
        }
    }
}

/// Every declared name has exactly one entry, and the entry has the size and the
/// category of every declaration of the name.
pub proof fn lemma_entry_of(v: PlanView, p: int) -> (k: int)
    requires
        solved(v),
        0 <= p < v.declarations.len(),
    ensures
        0 <= k < v.entries.len(),
        v.entries[k].name == v.declarations[p].descriptor.name,
        v.entries[k].size == v.declarations[p].descriptor.size,
        v.entries[k].category == v.declarations[p].descriptor.category,
        v.entries[k].first <= v.declarations[p].stage <= v.entries[k].last,
        forall|b: int| 0 <= b < v.entries.len() && b != k ==> (#[trigger] v.entries[b]).name != v.entries[k].name,
{
    let d = v.declarations;
    let e = v.entries;
    let name = d[p].descriptor.name;
    assert(listed(e, d[p].descriptor.name));
    let k = choose|k: int| 0 <= k < e.len() && #[trigger] e[k].name == name;
    assert(describes(d, e[k]));
    lemma_first_pos(d, name);
    lemma_last_pos(d, name);
    assert(compatible(d[first_pos(d, name)].descriptor, d[p].descriptor));
    assert forall|b: int| 0 <= b < e.len() && b != k implies (#[trigger] e[b]).name
        != e[k].name by {
        if b < k {
            assert(first_pos(d, e[b].name) < first_pos(d, e[k].name));
        } else {
            assert(first_pos(d, e[k].name) < first_pos(d, e[b].name));
        }
    }
    k
}

/// However many stages declare a persistent name, exactly one physical buffer backs
/// it, the buffer backs no other name, and it has the size that the declarations of
/// the name agree on.
pub proof fn lemma_persistent_buffer(v: PlanView, p: int) -> (slot: usize)
    requires
        solved(v),
        0 <= p < v.declarations.len(),
        v.declarations[p].descriptor.category == MemoryCategory::Persistent,
    ensures
        slot < v.physical.len(),
        backs(v, v.declarations[p].descriptor.name, slot),
        forall|other: usize| backs(v, v.declarations[p].descriptor.name, other) ==> other == slot,
        forall|name: Buffers| backs(v, name, slot) ==> name == v.declarations[p].descriptor.name,
        v.physical[slot as int].category == MemoryCategory::Persistent,
        v.physical[slot as int].size == v.declarations[p].descriptor.size,
{
    let e = v.entries;
    let name = v.declarations[p].descriptor.name;
    let k = lemma_entry_of(v, p);
    let slot = e[k].slot;
    assert(sized_by(e, v.physical, slot as int));
    let big = choose|big: int|
        0 <= big < e.len() && (#[trigger] e[big]).slot == slot as int && e[big].size
            == v.physical[slot as int].size;
    assert(big == k);
    assert forall|other: usize| backs(v, name, other) implies other == slot by {
        let b = choose|b: int|
            0 <= b < e.len() && (#[trigger] e[b]).name == name && e[b].slot == other;
        assert(b == k);
    }
    assert forall|other: Buffers| backs(v, other, slot) implies other == name by {
        let b = choose|b: int|
            0 <= b < e.len() && (#[trigger] e[b]).name == other && e[b].slot == slot;
        assert(b == k);
    }
    slot
}

/// Two names that share a physical buffer are both transient, and every
/// declaration of the one that appears first belongs to an earlier stage than every
/// declaration of the other: the two are never alive at the same time.
pub proof fn lemma_shared_buffer_is_safe(v: PlanView, p: int, q: int, slot: usize)
    requires
        solved(v),
        0 <= p < v.declarations.len(),
        0 <= q < v.declarations.len(),
        v.declarations[p].descriptor.name != v.declarations[q].descriptor.name,
        backs(v, v.declarations[p].descriptor.name, slot),
        backs(v, v.declarations[q].descriptor.name, slot),
    ensures
        v.declarations[p].descriptor.category == MemoryCategory::Transient,
        v.declarations[q].descriptor.category == MemoryCategory::Transient,
        v.declarations[p].stage != v.declarations[q].stage,
        (v.declarations[p].stage < v.declarations[q].stage) == (first_pos(
            v.declarations,
            v.declarations[p].descriptor.name,
        ) < first_pos(v.declarations, v.declarations[q].descriptor.name)),
{
    let e = v.entries;
    let d = v.declarations;
    let a = lemma_entry_of(v, p);
    let b = lemma_entry_of(v, q);
    let a2 = choose|a2: int|
        0 <= a2 < e.len() && (#[trigger] e[a2]).name == d[p].descriptor.name && e[a2].slot == slot;
    let b2 = choose|b2: int|
        0 <= b2 < e.len() && (#[trigger] e[b2]).name == d[q].descriptor.name && e[b2].slot == slot;
    assert(a2 == a && b2 == b);
    assert(a != b);
    if a < b {
        assert(e[a].last < e[b].first);
        assert(first_pos(d, e[a].name) < first_pos(d, e[b].name));
    } else {
        assert(e[b].last < e[a].first);
        assert(first_pos(d, e[b].name) < first_pos(d, e[a].name));
    }
}

/// The first name that physical buffer `i` backs.
pub proof fn lemma_opener(e: Seq<Entry>, k: int) -> (a: int)
    requires
        0 <= k < e.len(),
    ensures
        0 <= a <= k,
        e[a].slot == e[k].slot,
        opens(e, a),
    decreases k,
{
    if opens(e, k) {
        k
    } else {
        let b = choose|b: int| 0 <= b < k && (#[trigger] e[b]).slot == e[k].slot;
        lemma_opener(e, b)
    }
}

/// The first name that physical buffer `i` backs stands at position `i` or later:
/// the buffers are opened one by one.
pub proof fn lemma_opener_of(e: Seq<Entry>, ph: Seq<PhysicalBuffer>, i: int) -> (a: int)
    requires
        allocates(e, ph),
        0 <= i < ph.len(),
    ensures
        i <= a < e.len(),
        e[a].slot == i,
        opens(e, a),
    decreases i,
{
    assert(sized_by(e, ph, i));
    let some = choose|k: int|
        0 <= k < e.len() && (#[trigger] e[k]).slot == i && e[k].size == ph[i].size;
    let a = lemma_opener(e, some);
    if i > 0 {
        let below = lemma_opener_of(e, ph, i - 1);
        if a < below {
            assert(opens(e, a) && opens(e, below));
            assert(e[a].slot < e[below].slot);
        }
    }
    a
}

/// A plan has no more physical buffers than names.
pub proof fn lemma_no_more_buffers_than_names(e: Seq<Entry>, ph: Seq<PhysicalBuffer>)
    requires
        allocates(e, ph),
    ensures
        ph.len() <= e.len(),
{
    if ph.len() > 0 {
        let a = lemma_opener_of(e, ph, ph.len() - 1);
    }
}

/// Physical buffers of which none is larger than `limit` need no more than
/// `limit` bytes each.
pub proof fn lemma_total_at_most(ph: Seq<PhysicalBuffer>, limit: int)
    requires
        forall|i: int| 0 <= i < ph.len() ==> (#[trigger] ph[i]).size <= limit,
    ensures
        total_bytes(ph) <= ph.len() * limit,
    decreases ph.len(),
{
    if ph.len() > 0 {
        let rest = ph.drop_last();
        assert forall|i: int| 0 <= i < rest.len() implies (#[trigger] rest[i]).size <= limit by {
            assert(rest[i] == ph[i]);
        }
        lemma_total_at_most(rest, limit);
        assert(ph.last() == ph[ph.len() - 1]);
        assert(rest.len() * limit + limit == ph.len() * limit) by (nonlinear_arith)
            requires
                rest.len() + 1 == ph.len(),
        ;
    }
}

/// The transient physical buffer with the greatest number, where there is one.
pub proof fn lemma_last_transient(ph: Seq<PhysicalBuffer>, n: int) -> (top: int)
    requires
        0 <= n <= ph.len(),
        exists|i: int| 0 <= i < n && (#[trigger] ph[i]).category == MemoryCategory::Transient,
    ensures
        0 <= top < n,
        ph[top].category == MemoryCategory::Transient,
        forall|i: int| top < i < n ==> (#[trigger] ph[i]).category != MemoryCategory::Transient,
    decreases n,
{
    if ph[n - 1].category == MemoryCategory::Transient {
        n - 1
    } else {
        let i = choose|i: int|
            0 <= i < n && (#[trigger] ph[i]).category == MemoryCategory::Transient;
        assert(i < n - 1);
        lemma_last_transient(ph, n - 1)
    }
}

/// Physical buffer `i` backs a name that is alive at `stage`.
pub open spec fn in_use(e: Seq<Entry>, i: int, stage: usize) -> bool {
    exists|k: int| 0 <= k < e.len() && (#[trigger] e[k]).slot == i && live_at(e[k], stage)
}

/// No transient physical buffer could be saved: there is a stage at which every
/// one of them backs a name that is alive. So the plan has as many transient
/// buffers as the greatest number of transient names that are alive at once.
pub proof fn lemma_transient_buffers_all_in_use(v: PlanView) -> (stage: usize)
    requires
        solved(v),
    ensures
        forall|i: int|
            0 <= i < v.physical.len() && (#[trigger] v.physical[i]).category
                == MemoryCategory::Transient ==> in_use(v.entries, i, stage),
{
    let e = v.entries;
    let ph = v.physical;
    if exists|i: int| 0 <= i < ph.len() && (#[trigger] ph[i]).category == MemoryCategory::Transient {
        let top = lemma_last_transient(ph, ph.len() as int);
        assert(sized_by(e, ph, top));
        let some = choose|k: int|
            0 <= k < e.len() && (#[trigger] e[k]).slot == top && e[k].size == ph[top].size;
        let k = lemma_opener(e, some);
        let stage = e[k].first;
        lemma_entries_by_first_stage(v);
        assert forall|i: int|
            0 <= i < ph.len() && (#[trigger] ph[i]).category
                == MemoryCategory::Transient implies in_use(e, i, stage) by {
            if i == top {
                assert(e[k].slot == i && live_at(e[k], stage));
            } else {
                assert(i < top);
                assert(sized_by(e, ph, i));
                let other = choose|b: int|
                    0 <= b < e.len() && (#[trigger] e[b]).slot == i && e[b].size == ph[i].size;
                let a = lemma_opener(e, other);
                assert(a != k);
                if k < a {
                    assert(opens(e, k) && opens(e, a));
                    assert(e[k].slot < e[a].slot);
                }
                assert(a < k);
                assert(passed_over(e, a, k));
                assert(blocked(e, k, e[a].slot as int));
                let b = choose|b: int|
                    0 <= b < k && (#[trigger] e[b]).slot == i && e[b].last >= e[k].first;
                assert(e[b].first <= e[k].first);
                assert(e[b].slot == i && live_at(e[b], stage));
            }
        }
        stage
    } else {
        0
    }
}

/// The bytes of the transient physical buffers.
pub open spec fn transient_bytes(ph: Seq<PhysicalBuffer>) -> int
    decreases ph.len(),
{
    if ph.len() == 0 {
        0
    } else {
        transient_bytes(ph.drop_last()) + if ph.last().category == MemoryCategory::Transient {
            ph.last().size as int
        } else {
            0
        }
    }
}

/// The name is transient and, where a stage is given, alive at that stage.
pub open spec fn counts(entry: Entry, at: Option<usize>) -> bool {
    &&& entry.category == MemoryCategory::Transient
    &&& at matches Some(stage) ==> live_at(entry, stage)
}

/// The bytes that an entry counts for among the physical buffers from `low` up to
/// `high`: its size if it counts and is backed by one of them.
pub open spec fn counted(entry: Entry, at: Option<usize>, low: int, high: int) -> int {
    if counts(entry, at) && low <= entry.slot < high {
        entry.size as int
    } else {
        0
    }
}

/// The bytes of the names that count and are backed by a physical buffer from
/// `low` up to `high`.
pub open spec fn name_bytes_between(e: Seq<Entry>, at: Option<usize>, low: int, high: int) -> int
    decreases e.len(),
{
    if e.len() == 0 {
        0
    } else {
        name_bytes_between(e.drop_last(), at, low, high) + counted(e.last(), at, low, high)
    }
}

/// The bytes of the transient names: of all of them, or of those that are alive at
/// the stage that is given.
pub open spec fn transient_name_bytes(e: Seq<Entry>, at: Option<usize>) -> int
    decreases e.len(),
{
    if e.len() == 0 {
        0
    } else {
        transient_name_bytes(e.drop_last(), at) + if counts(e.last(), at) {
            e.last().size as int
        } else {
            0
        }
    }
}

/// The bytes of the transient names that are alive at `stage`.
pub open spec fn live_transient_bytes(e: Seq<Entry>, stage: usize) -> int {
    transient_name_bytes(e, Some(stage))
}

/// The bytes of all transient names: what the transient buffers would need if no
/// two names shared one.
pub open spec fn all_transient_bytes(e: Seq<Entry>) -> int {
    transient_name_bytes(e, None)
}

/// The bytes of two adjoining ranges of physical buffers add up.
pub proof fn lemma_name_bytes_split(
    e: Seq<Entry>,
    at: Option<usize>,
    low: int,
    mid: int,
    high: int,
)
    requires
        low <= mid <= high,
    ensures
        name_bytes_between(e, at, low, high) == name_bytes_between(e, at, low, mid)
            + name_bytes_between(e, at, mid, high),
    decreases e.len(),
{
    if e.len() > 0 {
        lemma_name_bytes_split(e.drop_last(), at, low, mid, high);
    }
}

/// No sum of sizes of names is negative.
pub proof fn lemma_name_bytes_nonnegative(e: Seq<Entry>, at: Option<usize>, low: int, high: int)
    ensures
        name_bytes_between(e, at, low, high) >= 0,
    decreases e.len(),
{
    if e.len() > 0 {
        lemma_name_bytes_nonnegative(e.drop_last(), at, low, high);
    }
}

/// The bytes of a range are at least those of any one name that counts.
pub proof fn lemma_name_bytes_hold(e: Seq<Entry>, at: Option<usize>, low: int, high: int, k: int)
    requires
        0 <= k < e.len(),
    ensures
        name_bytes_between(e, at, low, high) >= counted(e[k], at, low, high),
    decreases e.len(),
{
    lemma_name_bytes_nonnegative(e.drop_last(), at, low, high);
    if k < e.len() - 1 {
        lemma_name_bytes_hold(e.drop_last(), at, low, high, k);
        assert(e.drop_last()[k] == e[k]);
    }
}

/// Where every name is backed by a physical buffer below `high`, the bytes below
/// `high` are all the bytes.
pub proof fn lemma_name_bytes_all(e: Seq<Entry>, at: Option<usize>, high: int)
    requires
        forall|k: int| 0 <= k < e.len() ==> (#[trigger] e[k]).slot < high,
    ensures
        name_bytes_between(e, at, 0, high) == transient_name_bytes(e, at),
    decreases e.len(),
{
    if e.len() > 0 {
        assert forall|k: int| 0 <= k < e.drop_last().len() implies (#[trigger] e.drop_last()[k]).slot
            < high by {
            assert(e.drop_last()[k] == e[k]);
        }
        lemma_name_bytes_all(e.drop_last(), at, high);
        assert(e.last() == e[e.len() - 1]);
    }
}

/// Physical buffer `i` backs a name that counts and is as large as the buffer.
pub open spec fn filled(e: Seq<Entry>, ph: Seq<PhysicalBuffer>, i: int, at: Option<usize>) -> bool {
    exists|k: int|
        0 <= k < e.len() && (#[trigger] e[k]).slot == i && counts(e[k], at) && e[k].size
            == ph[i].size
}

/// Where every transient physical buffer is filled, the first `n` physical buffers
/// need no more transient bytes than the names that count and that they back.
pub proof fn lemma_bytes_below(e: Seq<Entry>, ph: Seq<PhysicalBuffer>, at: Option<usize>, n: int)
    requires
        0 <= n <= ph.len(),
        forall|i: int|
            0 <= i < ph.len() && ph[i].category == MemoryCategory::Transient ==> #[trigger] filled(
                e,
                ph,
                i,
                at,
            ),
    ensures
        transient_bytes(ph.take(n)) <= name_bytes_between(e, at, 0, n),
    decreases n,
{
    if n > 0 {
        lemma_bytes_below(e, ph, at, n - 1);
        assert(ph.take(n).drop_last() =~= ph.take(n - 1));
        assert(ph.take(n).last() == ph[n - 1]);
        lemma_name_bytes_split(e, at, 0, n - 1, n);
        lemma_name_bytes_nonnegative(e, at, n - 1, n);
        if ph[n - 1].category == MemoryCategory::Transient {
            assert(filled(e, ph, n - 1, at));
            let k = choose|k: int|
                0 <= k < e.len() && (#[trigger] e[k]).slot == n - 1 && counts(e[k], at)
                    && e[k].size == ph[n - 1].size;
            lemma_name_bytes_hold(e, at, n - 1, n, k);
        }
    } else {
        lemma_name_bytes_nonnegative(e, at, 0, 0);
    }
}

/// Where every transient physical buffer is filled, the transient physical
/// buffers need no more bytes than the names that count.
pub proof fn lemma_bytes_covered(v: PlanView, at: Option<usize>)
    requires
        solved(v),
        forall|i: int|
            0 <= i < v.physical.len() && v.physical[i].category == MemoryCategory::Transient
                ==> #[trigger] filled(v.entries, v.physical, i, at),
    ensures
        transient_bytes(v.physical) <= transient_name_bytes(v.entries, at),
{
    let e = v.entries;
    let ph = v.physical;
    lemma_bytes_below(e, ph, at, ph.len() as int);
    assert(ph.take(ph.len() as int) =~= ph);
    assert forall|k: int| 0 <= k < e.len() implies (#[trigger] e[k]).slot < ph.len() by {}
    lemma_name_bytes_all(e, at, ph.len() as int);
}

/// Sharing never costs: the transient physical buffers need no more bytes than
/// all transient names together.
pub proof fn lemma_sharing_saves(v: PlanView)
    requires
        solved(v),
    ensures
        transient_bytes(v.physical) <= all_transient_bytes(v.entries),
{
    let e = v.entries;
    let ph = v.physical;
    assert forall|i: int|
        0 <= i < ph.len() && ph[i].category == MemoryCategory::Transient implies #[trigger] filled(
        e,
        ph,
        i,
        None,
    ) by {
        assert(sized_by(e, ph, i));
        let k = choose|k: int|
            0 <= k < e.len() && (#[trigger] e[k]).slot == i && e[k].size == ph[i].size;
        assert(e[k].category == MemoryCategory::Transient);
    }
    lemma_bytes_covered(v, None);
}

/// Where all transient declarations have the size `size`, so have all transient
/// names.
pub proof fn lemma_uniform_entries(v: PlanView, size: u64, k: int)
    requires
        solved(v),
        forall|p: int|
            0 <= p < v.declarations.len() && (#[trigger] v.declarations[p]).descriptor.category
                == MemoryCategory::Transient ==> v.declarations[p].descriptor.size == size,
        0 <= k < v.entries.len(),
        v.entries[k].category == MemoryCategory::Transient,
    ensures
        v.entries[k].size == size,
{
    let d = v.declarations;
    let e = v.entries;
    assert(describes(d, e[k]));
    lemma_first_pos(d, e[k].name);
    assert(d[first_pos(d, e[k].name)].descriptor.category == MemoryCategory::Transient);
}

/// Where all transient names have the size `size`, a transient physical buffer
/// that is in use at `stage` is filled at that stage.
pub proof fn lemma_filled(v: PlanView, size: u64, stage: usize, i: int)
    requires
        solved(v),
        forall|p: int|
            0 <= p < v.declarations.len() && (#[trigger] v.declarations[p]).descriptor.category
                == MemoryCategory::Transient ==> v.declarations[p].descriptor.size == size,
        0 <= i < v.physical.len(),
        v.physical[i].category == MemoryCategory::Transient,
        in_use(v.entries, i, stage),
    ensures
        filled(v.entries, v.physical, i, Some(stage)),
{
    let e = v.entries;
    let ph = v.physical;
    assert(sized_by(e, ph, i));
    let big = choose|k: int|
        0 <= k < e.len() && (#[trigger] e[k]).slot == i && e[k].size == ph[i].size;
    let k = choose|k: int| 0 <= k < e.len() && (#[trigger] e[k]).slot == i && live_at(e[k], stage);
    assert(e[big].category == MemoryCategory::Transient);
    assert(e[k].category == MemoryCategory::Transient);
    lemma_uniform_entries(v, size, big);
    lemma_uniform_entries(v, size, k);
}

/// Where all transient names have the same size, the transient physical buffers
/// need no more bytes than the transient names that are alive at one stage of the
/// pipeline.
pub proof fn lemma_transient_bytes_bounded(v: PlanView, size: u64) -> (stage: usize)
    requires
        solved(v),
        forall|p: int|
            0 <= p < v.declarations.len() && (#[trigger] v.declarations[p]).descriptor.category
                == MemoryCategory::Transient ==> v.declarations[p].descriptor.size == size,
    ensures
        transient_bytes(v.physical) <= live_transient_bytes(v.entries, stage),
{
    let e = v.entries;
    let ph = v.physical;
    let stage = lemma_transient_buffers_all_in_use(v);
    assert forall|i: int|
        0 <= i < ph.len() && ph[i].category == MemoryCategory::Transient implies #[trigger] filled(
        e,
        ph,
        i,
        Some(stage),
    ) by {
        lemma_filled(v, size, stage, i);
    }
    lemma_bytes_covered(v, Some(stage));
    stage
}

/// A plan backs a name by one physical buffer only.
pub proof fn lemma_backs_one(v: PlanView, name: Buffers, first: usize, second: usize)
    requires
        solved(v),
        backs(v, name, first),
        backs(v, name, second),
    ensures
        first == second,
{
    let d = v.declarations;
    let e = v.entries;
    let a = choose|a: int| 0 <= a < e.len() && (#[trigger] e[a]).name == name && e[a].slot == first;
    let b = choose|b: int| 0 <= b < e.len() && (#[trigger] e[b]).name == name && e[b].slot == second;
    if a < b {
        assert(first_pos(d, e[a].name) < first_pos(d, e[b].name));
    } else if b < a {
        assert(first_pos(d, e[b].name) < first_pos(d, e[a].name));
    }
}

/// The plan binds a stage to its buffers in one way only.
pub proof fn lemma_bound_one(
    plan: PlanView,
    stage: usize,
    wanted: Seq<Wanted>,
    one: Seq<Binding>,
    other: Seq<Binding>,
)
    requires
        solved(plan),
        bound(plan, stage, wanted, one, wanted.len() as int),
        bound(plan, stage, wanted, other, wanted.len() as int),
    ensures
        one == other,
{
    assert forall|i: int| 0 <= i < one.len() implies one[i] == other[i] by {
        assert(one[i].binding == wanted[i].binding);
        assert(other[i].binding == wanted[i].binding);
        let first = choose|slot: usize|
            one[i].resource == Resource::Buffer(slot) && backs(plan, wanted[i].name, slot) && slot
                < plan.physical.len();
        let second = choose|slot: usize|
            other[i].resource == Resource::Buffer(slot) && backs(plan, wanted[i].name, slot)
                && slot < plan.physical.len();
        lemma_backs_one(plan, wanted[i].name, first, second);
    }
    assert(one =~= other);
}

/// The parameters, the plan and the position fix a pass: its shader source, its
/// work groups and its bindings.
pub proof fn lemma_pass_one(
    one: PassView,
    other: PassView,
    shaders: ShaderProcessor<'static>,
    spec: Specialisation,
    plan: PlanView,
    stage: usize,
    wanted: Seq<Wanted>,
)
    requires
        solved(plan),
        pass_made(one, shaders, spec, plan, stage, wanted),
        pass_made(other, shaders, spec, plan, stage, wanted),
    ensures
        one == other,
{
    lemma_bound_one(plan, stage, wanted, one.bindings, other.bindings);
}

/// Two stages of one kind that are constructed at the same position for the same
/// parameters against the same plan have the same passes and record the same
/// commands.
pub proof fn lemma_stage_commands_agree(
    one: Stage,
    other: Stage,
    operation: Operation,
    params: Params,
    plan: PlanView,
    stage: usize,
    args: ISPParams,
)
    requires
        solved(plan),
        one.made_for(operation, &params, plan, stage),
        other.made_for(operation, &params, plan, stage),
    ensures
        one.passes() == other.passes(),
        one.commands(&args) == other.commands(&args),
{
    let shaders = params.shader_processor;
    match (one, other) {
        (Stage::BlackLevel(a), Stage::BlackLevel(b)) => {
            lemma_pass_one(
                a.pass@,
                b.pass@,
                shaders,
                BlackLevel::specialisation(&params),
                plan,
                stage,
                BlackLevel::wanted(),
            );
        },
        (Stage::AutoWhiteBalance(a), Stage::AutoWhiteBalance(b)) => {
            lemma_backs_one(plan, Buffers::TempMean, a.mean.input, b.mean.input);
            lemma_backs_one(plan, Buffers::Mean, a.mean.output, b.mean.output);
            lemma_pass_one(
                a.align@,
                b.align@,
                shaders,
                AutoWhiteBalance::align_specialisation(&params),
                plan,
                stage,
                AutoWhiteBalance::align_wanted(),
            );
            lemma_pass_one(
                a.gain_application@,
                b.gain_application@,
                shaders,
                AutoWhiteBalance::gain_specialisation(&params),
                plan,
                stage,
                AutoWhiteBalance::gain_wanted(),
            );
        },
        (Stage::Debayer(a), Stage::Debayer(b)) => {
            lemma_pass_one(
                a.pass@,
                b.pass@,
                shaders,
                Debayer::specialisation(&params),
                plan,
                stage,
                Debayer::wanted(),
            );
        },
        (Stage::RGBSpaceOperations(a), Stage::RGBSpaceOperations(b)) => {
            lemma_pass_one(
                a.pass@,
                b.pass@,
                shaders,
                RGBSpaceOperations::specialisation(&params),
                plan,
                stage,
                RGBSpaceOperations::wanted(),
            );
        },
        _ => {},
    }
}

/// Two pipelines whose stages are constructed for the same parameters have the
/// same plan and the same passes, and record the same commands for the same
/// arguments.
pub proof fn lemma_same_parameters_same_commands(
    one: AllOperations,
    other: AllOperations,
    params: Params,
    operations: Seq<Operation>,
    args: ISPParams,
)
    requires
        one.made_for(&params, operations),
        other.made_for(&params, operations),
    ensures
        one.buffers@ == other.buffers@,
        one.commands(&args) == other.commands(&args),
        forall|i: int|
            0 <= i < operations.len() ==> (#[trigger] one.operations@[i]).passes()
                == other.operations@[i].passes(),
{
    lemma_plan_unique(one.buffers@, other.buffers@);
    lemma_commands_agree(one, other, params, operations, args, operations.len() as int);
    assert forall|i: int| 0 <= i < operations.len() implies (#[trigger] one.operations@[i]).passes()
        == other.operations@[i].passes() by {
        assert(other.operations@[i].made_for(operations[i], &params, other.buffers@, i as usize));
        lemma_stage_commands_agree(
            one.operations@[i],
            other.operations@[i],
            operations[i],
            params,
            one.buffers@,
            i as usize,
            args,
        );
    }
}

/// The first `n` stages of two pipelines that are constructed for the same
/// parameters against the same plan record the same commands.
pub proof fn lemma_commands_agree(
    one: AllOperations,
    other: AllOperations,
    params: Params,
    operations: Seq<Operation>,
    args: ISPParams,
    n: int,
)
    requires
        one.made_for(&params, operations),
        other.made_for(&params, operations),
        one.buffers@ == other.buffers@,
        0 <= n <= operations.len(),
    ensures
        AllOperations::commands_of(one.operations@, &args, n) == AllOperations::commands_of(
            other.operations@,
            &args,
            n,
        ),
    decreases n,
{
    if n > 0 {
        lemma_commands_agree(one, other, params, operations, args, n - 1);
        assert(one.operations@[n - 1].made_for(
            operations[n - 1],
            &params,
            one.buffers@,
            (n - 1) as usize,
        ));
        assert(other.operations@[n - 1].made_for(
            operations[n - 1],
            &params,
            other.buffers@,
            (n - 1) as usize,
        ));
        lemma_stage_commands_agree(
            one.operations@[n - 1],
            other.operations@[n - 1],
            operations[n - 1],
            params,
            one.buffers@,
            (n - 1) as usize,
            args,
        );
    }
}

/// A pipeline that is constructed anew for the same parameters is the same
/// pipeline: it has the same plan and the same passes, shader sources included,
/// records the same commands for the same arguments, and writes the result into
/// the texture by the same pass.
pub proof fn lemma_reload_changes_nothing(
    before: StateView,
    after: StateView,
    params: Params,
    args: ISPParams,
)
    requires
        made_for(before, params),
        made_for(after, params),
    ensures
        before.sequential.buffers@ == after.sequential.buffers@,
        forall|i: int|
            0 <= i < stages().len() ==> (#[trigger] before.sequential.operations@[i]).passes()
                == after.sequential.operations@[i].passes(),
        before.sequential.commands(&args) == after.sequential.commands(&args),
        before.to_texture@ == after.to_texture@,
{
    lemma_same_parameters_same_commands(
        before.sequential,
        after.sequential,
        params,
        stages(),
        args,
    );
    let plan = before.sequential.buffers@;
    let first = choose|slot: usize|
        #![trigger to_texture_bindings(slot)]
        backs(before.sequential.buffers@, Buffers::RGB, slot) && before.to_texture@ == pass_of(
            params.shader_processor,
            to_texture_specialisation(&params),
            to_texture_bindings(slot),
        );
    let second = choose|slot: usize|
        #![trigger to_texture_bindings(slot)]
        backs(after.sequential.buffers@, Buffers::RGB, slot) && after.to_texture@ == pass_of(
            params.shader_processor,
            to_texture_specialisation(&params),
            to_texture_bindings(slot),
        );
    lemma_backs_one(plan, Buffers::RGB, first, second);
}

/// Where a pipeline stands that was constructed for some parameters, constructing
/// one for the same parameters succeeds.
pub proof fn lemma_reload_succeeds(before: StateView, params: Params, r: Result<State, StateError>)
    requires
        made_for(before, params),
        constructed(params, r),
    ensures
        r is Ok,
{
    if r is Err {
        let err = r->Err_0;
        if err is Shader {
            let shaders = params.shader_processor;
            let specs = state_specs(&params);
            let i = choose|i: int|
                #[trigger] first_failing(shaders, specs, i) && refuses(
                    shaders,
                    specs[i],
                    err->Shader_0,
                );
            assert(expands(shaders, specs[i]));
        }
    }
}

/// What a frame adds to the recorded commands depends on the stages and on the
/// arguments alone: recorded twice, behind whatever was recorded before, the same
/// arguments give the same commands.
pub proof fn lemma_frame_repeats(
    all: AllOperations,
    args: ISPParams,
    earlier: Seq<CommandView>,
    later: Seq<CommandView>,
)
    ensures
        (earlier + all.commands(&args)).skip(earlier.len() as int) == (later + all.commands(
            &args,
        )).skip(later.len() as int),
{
    assert((earlier + all.commands(&args)).skip(earlier.len() as int) =~= all.commands(&args));
    assert((later + all.commands(&args)).skip(later.len() as int) =~= all.commands(&args));
}

} // verus!
