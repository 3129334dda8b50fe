use vstd::prelude::*;
use crate::descriptor::{BufferDescriptor, Buffers, MemoryCategory, Usage, UsageFlag};

verus! {

/// One buffer declaration, together with the position of the stage that makes it.
#[derive(Clone, Copy, Debug, PartialEq, Eq, Structural)]
pub struct Declaration {
    pub stage: usize,
    pub descriptor: BufferDescriptor,
}

/// What the solver knows of one buffer name once every declaration has been read.
#[derive(Clone, Copy, Debug, PartialEq, Eq, Structural)]
pub struct Entry {
    pub name: Buffers,
    pub category: MemoryCategory,
    /// The size every declaration of the name agrees on.
    pub size: u64,
    /// The union of the usages of every declaration of the name.
    pub usage: Usage,
    /// The first stage that declares the name.
    pub first: usize,
    /// The last stage that declares the name.
    pub last: usize,
    /// The physical buffer that backs the name.
    pub slot: usize,
}

/// The declarations come stage by stage.
pub open spec fn ordered(d: Seq<Declaration>) -> bool {
    forall|p: int, q: int| 0 <= p <= q < d.len() ==> d[p].stage <= d[q].stage
}

/// Two descriptors of one name can be reconciled: they agree on size and category.
pub open spec fn compatible(a: BufferDescriptor, b: BufferDescriptor) -> bool {
    a.size == b.size && a.category == b.category
}

/// Any two declarations of one name can be reconciled.
pub open spec fn consistent(d: Seq<Declaration>) -> bool {
    forall|p: int, q: int|
        0 <= p < d.len() && 0 <= q < d.len() && d[p].descriptor.name == d[q].descriptor.name
            ==> compatible(d[p].descriptor, d[q].descriptor)
}

/// Some declaration is of `name`.
pub open spec fn occurs(d: Seq<Declaration>, name: Buffers) -> bool {
    exists|p: int| 0 <= p < d.len() && #[trigger] d[p].descriptor.name == name
}

/// Stage `stage` declares `name`.
pub open spec fn declared_by(d: Seq<Declaration>, stage: usize, name: Buffers) -> bool {
    exists|p: int|
        0 <= p < d.len() && #[trigger] d[p].descriptor.name == name && d[p].stage == stage
}

/// The position of the first declaration of `name`, where there is one.
pub open spec fn first_pos(d: Seq<Declaration>, name: Buffers) -> int
    decreases d.len(),
{
    if d.len() == 0 {
        0
    } else if occurs(d.drop_last(), name) {
        first_pos(d.drop_last(), name)
    } else {
        d.len() - 1
    }
}

/// The position of the last declaration of `name`, where there is one.
pub open spec fn last_pos(d: Seq<Declaration>, name: Buffers) -> int
    decreases d.len(),
{
    if d.len() == 0 {
        0
    } else if d.last().descriptor.name == name {
        d.len() - 1
    } else {
        last_pos(d.drop_last(), name)
    }
}

/// The union of the usages that the declarations of `name` ask for.
pub open spec fn usage_of(d: Seq<Declaration>, name: Buffers) -> Usage
    decreases d.len(),
{
    if d.len() == 0 {
        Usage { map_read: false, map_write: false, copy_src: false, copy_dst: false, storage: false }
    } else if d.last().descriptor.name == name {
        usage_of(d.drop_last(), name).spec_union(d.last().descriptor.usage)
    } else {
        usage_of(d.drop_last(), name)
    }
}

/// `entry` is what the declarations say of its name. Its slot is left open.
pub open spec fn describes(d: Seq<Declaration>, entry: Entry) -> bool {
    &&& occurs(d, entry.name)
    &&& entry.category == d[first_pos(d, entry.name)].descriptor.category
    &&& entry.size == d[first_pos(d, entry.name)].descriptor.size
    &&& entry.usage == usage_of(d, entry.name)
    &&& entry.first == d[first_pos(d, entry.name)].stage
    &&& entry.last == d[last_pos(d, entry.name)].stage
}

/// Some entry of `e` is of `name`.
pub open spec fn listed(e: Seq<Entry>, name: Buffers) -> bool {
    exists|k: int| 0 <= k < e.len() && #[trigger] e[k].name == name
}

/// `e` lists every declared name once, in the order in which the names first appear,
/// each with what the declarations say of it.
pub open spec fn summarises(d: Seq<Declaration>, e: Seq<Entry>) -> bool {
    &&& forall|p: int| 0 <= p < d.len() ==> listed(e, (#[trigger] d[p]).descriptor.name)
    &&& forall|k: int| 0 <= k < e.len() ==> describes(d, #[trigger] e[k])
    &&& forall|a: int, b: int|
        0 <= a < b < e.len() ==> first_pos(d, #[trigger] e[a].name) < first_pos(
            d,
            #[trigger] e[b].name,
        )
}

/// Where `name` occurs, its first position holds it and no earlier position does.
pub proof fn lemma_first_pos(d: Seq<Declaration>, name: Buffers)
    requires
        occurs(d, name),
    ensures
        0 <= first_pos(d, name) < d.len(),
        d[first_pos(d, name)].descriptor.name == name,
        forall|q: int| 0 <= q < first_pos(d, name) ==> d[q].descriptor.name != name,
    decreases d.len(),
{
    let rest = d.drop_last();
    if occurs(rest, name) {
        lemma_first_pos(rest, name);
        assert forall|q: int| 0 <= q < first_pos(d, name) implies d[q].descriptor.name
            != name by {
            assert(rest[q].descriptor.name != name);
        }
    } else {
        let p = choose|p: int| 0 <= p < d.len() && #[trigger] d[p].descriptor.name == name;
        if p < d.len() - 1 {
            assert(rest[p].descriptor.name == name);
        }
        assert forall|q: int| 0 <= q < d.len() - 1 implies d[q].descriptor.name != name by {
            assert(rest[q].descriptor.name == d[q].descriptor.name);
        }
    }
}

/// Where `name` occurs, its last position holds it and no later position does.
pub proof fn lemma_last_pos(d: Seq<Declaration>, name: Buffers)
    requires
        occurs(d, name),
    ensures
        0 <= last_pos(d, name) < d.len(),
        d[last_pos(d, name)].descriptor.name == name,
        forall|q: int| last_pos(d, name) < q < d.len() ==> d[q].descriptor.name != name,
        first_pos(d, name) <= last_pos(d, name),
    decreases d.len(),
{
    lemma_first_pos(d, name);
    let rest = d.drop_last();
    if d.last().descriptor.name != name {
        let p = choose|p: int| 0 <= p < d.len() && #[trigger] d[p].descriptor.name == name;
        assert(rest[p].descriptor.name == name);
        lemma_last_pos(rest, name);
        lemma_first_pos(rest, name);
        assert forall|q: int| last_pos(d, name) < q < d.len() implies d[q].descriptor.name
            != name by {
            if q < d.len() - 1 {
                assert(rest[q].descriptor.name != name);
            }
        }
    }
}

/// A flag is in the union exactly when some declaration of the name asks for it.
pub proof fn lemma_usage_of(d: Seq<Declaration>, name: Buffers, flag: UsageFlag)
    ensures
        usage_of(d, name).has(flag) <==> exists|p: int|
            0 <= p < d.len() && #[trigger] d[p].descriptor.name == name
                && d[p].descriptor.usage.has(flag),
    decreases d.len(),
{
    if d.len() > 0 {
        let rest = d.drop_last();
        lemma_usage_of(rest, name, flag);
        if usage_of(d, name).has(flag) {
            if d.last().descriptor.name == name && d.last().descriptor.usage.has(flag) {
                assert(d[d.len() - 1].descriptor.name == name);
            } else {
                let p = choose|p: int|
                    0 <= p < rest.len() && #[trigger] rest[p].descriptor.name == name
                        && rest[p].descriptor.usage.has(flag);
                assert(d[p].descriptor.name == name && d[p].descriptor.usage.has(flag));
            }
        }
        if exists|p: int|
            0 <= p < d.len() && #[trigger] d[p].descriptor.name == name
                && d[p].descriptor.usage.has(flag) {
            let p = choose|p: int|
                0 <= p < d.len() && #[trigger] d[p].descriptor.name == name
                    && d[p].descriptor.usage.has(flag);
            if p < d.len() - 1 {
                assert(rest[p].descriptor.name == name && rest[p].descriptor.usage.has(flag));
            }
        }
    }
}

/// How the model of the first `m + 1` declarations follows from that of the first `m`.
pub proof fn lemma_extend(d: Seq<Declaration>, m: int, name: Buffers)
    requires
        0 <= m < d.len(),
    ensures
        d.take(m + 1).drop_last() == d.take(m),
        d.take(m + 1).last() == d[m],
        occurs(d.take(m + 1), name) == (occurs(d.take(m), name) || d[m].descriptor.name == name),
        usage_of(d.take(m + 1), name) == (if d[m].descriptor.name == name {
            usage_of(d.take(m), name).spec_union(d[m].descriptor.usage)
        } else {
            usage_of(d.take(m), name)
        }),
        first_pos(d.take(m + 1), name) == (if occurs(d.take(m), name) {
            first_pos(d.take(m), name)
        } else {
            m
        }),
        last_pos(d.take(m + 1), name) == (if d[m].descriptor.name == name {
            m
        } else {
            last_pos(d.take(m), name)
        }),
{
    let pre = d.take(m);
    let next = d.take(m + 1);
    assert(next.drop_last() =~= pre);
    if occurs(pre, name) {
        let p = choose|p: int| 0 <= p < pre.len() && #[trigger] pre[p].descriptor.name == name;
        assert(next[p].descriptor.name == name);
    }
    if d[m].descriptor.name == name {
        assert(next[m].descriptor.name == name);
    }
    if occurs(next, name) {
        let p = choose|p: int| 0 <= p < next.len() && #[trigger] next[p].descriptor.name == name;
        if p < m {
            assert(pre[p].descriptor.name == name);
        }
    }
}

/// A name that no declaration mentions is asked for no usage.
pub proof fn lemma_usage_absent(d: Seq<Declaration>, name: Buffers)
    requires
        !occurs(d, name),
    ensures
        usage_of(d, name) == (Usage {
            map_read: false,
            map_write: false,
            copy_src: false,
            copy_dst: false,
            storage: false,
        }),
    decreases d.len(),
{
    if d.len() > 0 {
        let rest = d.drop_last();
        assert(d[d.len() - 1].descriptor.name != name);
        assert forall|p: int| 0 <= p < rest.len() implies #[trigger] rest[p].descriptor.name
            != name by {
            assert(d[p].descriptor.name != name);
        }
        lemma_usage_absent(rest, name);
    }
}

/// Why a set of declarations has no allocation plan.
#[derive(Clone, Copy, Debug, PartialEq, Eq, Structural)]
pub enum ResolutionError {
    /// The declaration at `position` belongs to an earlier stage than the one before it.
    OutOfOrder { position: usize },
    /// A declaration of `name` made by `stage` disagrees in size or category with an
    /// earlier declaration of the same name.
    Incompatible { name: Buffers, stage: usize },
    /// The physical buffers together need more bytes than can be counted.
    Overflow,
}

/// The declaration at `p` is the first that cannot be reconciled with those before it.
pub open spec fn conflict_at(d: Seq<Declaration>, p: int) -> bool {
    &&& 0 <= p < d.len()
    &&& consistent(d.take(p))
    &&& !consistent(d.take(p + 1))
}

/// The declaration at `p` is the first that belongs to an earlier stage than the one
/// before it.
pub open spec fn disorder_at(d: Seq<Declaration>, p: int) -> bool {
    &&& 0 < p < d.len()
    &&& ordered(d.take(p))
    &&& d[p].stage < d[p - 1].stage
}

/// Declarations with a first conflict are not consistent.
pub proof fn lemma_conflict(d: Seq<Declaration>, p: int)
    requires
        conflict_at(d, p),
    ensures
        !consistent(d),
{
    let next = d.take(p + 1);
    if consistent(d) {
        assert forall|a: int, b: int|
            0 <= a < next.len() && 0 <= b < next.len() && next[a].descriptor.name
                == next[b].descriptor.name implies compatible(
            next[a].descriptor,
            next[b].descriptor,
        ) by {
            assert(compatible(d[a].descriptor, d[b].descriptor));
        }
    }
}

/// Declarations of which one belongs to an earlier stage than the one before it do
/// not come stage by stage.
pub proof fn lemma_disorder(d: Seq<Declaration>, p: int)
    requires
        disorder_at(d, p),
    ensures
        !ordered(d),
{
    if ordered(d) {
        assert(d[p - 1].stage <= d[p].stage);
    }
}

/// The position of the entry of `name`, if the list has one.
pub fn find_entry(entries: &Vec<Entry>, name: Buffers) -> (found: Option<usize>)
    ensures
        match found {
            Some(k) => k < entries.len() && entries[k as int].name == name && forall|a: int|
                0 <= a < k ==> entries[a].name != name,
            None => !listed(entries@, name),
        },
{
    let mut k: usize = 0;
    while k < entries.len()
        invariant
            k <= entries.len(),
            forall|a: int| 0 <= a < k ==> entries[a].name != name,
        decreases entries.len() - k,
    {
        if entries[k].name == name {
            return Some(k);
        }
        k += 1;
    }
    None
}

/// Finds the first declaration that belongs to an earlier stage than the one before it.
pub fn check_order(declarations: &Vec<Declaration>) -> (found: Option<usize>)
    ensures
        match found {
            Some(p) => disorder_at(declarations@, p as int),
            None => ordered(declarations@),
        },
{
    if declarations.len() == 0 {
        return None;
    }
    let mut p: usize = 1;
    while p < declarations.len()
        invariant
            1 <= p <= declarations.len(),
            ordered(declarations@.take(p as int)),
        decreases declarations.len() - p,
    {
        if declarations[p].stage < declarations[p - 1].stage {
            return Some(p);
        }
        proof {
            let d = declarations@;
            let next = d.take(p + 1);
            assert forall|a: int, b: int| 0 <= a <= b < next.len() implies next[a].stage
                <= next[b].stage by {
                if b < p {
                    assert(d.take(p as int)[a].stage <= d.take(p as int)[b].stage);
                } else if a < p {
                    assert(d.take(p as int)[a].stage <= d.take(p as int)[p - 1].stage);
                }
            }
        }
        p += 1;
    }
    proof {
        assert(declarations@.take(declarations.len() as int) =~= declarations@);
    }
    None
}

/// The entry of a name whose first declaration is `x`.
pub open spec fn fresh_entry(x: Declaration) -> Entry {
    Entry {
        name: x.descriptor.name,
        category: x.descriptor.category,
        size: x.descriptor.size,
        usage: x.descriptor.usage,
        first: x.stage,
        last: x.stage,
        slot: 0,
    }
}

/// The entry `e` once a further declaration `x` of its name has been read.
pub open spec fn merged_entry(e: Entry, x: Declaration) -> Entry {
    Entry {
        name: e.name,
        category: e.category,
        size: e.size,
        usage: e.usage.spec_union(x.descriptor.usage),
        first: e.first,
        last: x.stage,
        slot: e.slot,
    }
}

/// What the entries of a summary have in common with the declarations they summarise.
proof fn lemma_entry_positions(pre: Seq<Declaration>, e: Seq<Entry>, k: int)
    requires
        summarises(pre, e),
        0 <= k < e.len(),
    ensures
        occurs(pre, e[k].name),
        0 <= first_pos(pre, e[k].name) <= last_pos(pre, e[k].name) < pre.len(),
        pre[first_pos(pre, e[k].name)].descriptor.name == e[k].name,
        pre[last_pos(pre, e[k].name)].descriptor.name == e[k].name,
        forall|a: int| 0 <= a < e.len() && a != k ==> (#[trigger] e[a]).name != e[k].name,
{
    assert(describes(pre, e[k]));
    lemma_first_pos(pre, e[k].name);
    lemma_last_pos(pre, e[k].name);
    assert forall|a: int| 0 <= a < e.len() && a != k implies (#[trigger] e[a]).name
        != e[k].name by {
        if a < k {
            assert(first_pos(pre, e[a].name) < first_pos(pre, e[k].name));
        } else {
            assert(first_pos(pre, e[k].name) < first_pos(pre, e[a].name));
        }
    }
}

/// An entry of another name than the declaration just read stays as it was.
proof fn lemma_entry_kept(d: Seq<Declaration>, m: int, entry: Entry)
    requires
        0 <= m < d.len(),
        describes(d.take(m), entry),
        entry.name != d[m].descriptor.name,
    ensures
        describes(d.take(m + 1), entry),
        first_pos(d.take(m + 1), entry.name) == first_pos(d.take(m), entry.name),
        first_pos(d.take(m), entry.name) < m,
{
    let pre = d.take(m);
    let next = d.take(m + 1);
    lemma_extend(d, m, entry.name);
    lemma_first_pos(pre, entry.name);
    lemma_last_pos(pre, entry.name);
    assert(next[first_pos(pre, entry.name)] == pre[first_pos(pre, entry.name)]);
    assert(next[last_pos(pre, entry.name)] == pre[last_pos(pre, entry.name)]);
}

/// An entry takes in a further declaration of its name.
proof fn lemma_entry_merged(d: Seq<Declaration>, m: int, entry: Entry)
    requires
        0 <= m < d.len(),
        describes(d.take(m), entry),
        entry.name == d[m].descriptor.name,
    ensures
        describes(d.take(m + 1), merged_entry(entry, d[m])),
        first_pos(d.take(m + 1), entry.name) == first_pos(d.take(m), entry.name),
        first_pos(d.take(m), entry.name) < m,
{
    let pre = d.take(m);
    let next = d.take(m + 1);
    lemma_extend(d, m, entry.name);
    lemma_first_pos(pre, entry.name);
    assert(next[first_pos(pre, entry.name)] == pre[first_pos(pre, entry.name)]);
    assert(next[m] == d[m]);
}

/// The first declaration of a name gives its entry.
proof fn lemma_entry_fresh(d: Seq<Declaration>, m: int)
    requires
        0 <= m < d.len(),
        !occurs(d.take(m), d[m].descriptor.name),
    ensures
        describes(d.take(m + 1), fresh_entry(d[m])),
        first_pos(d.take(m + 1), d[m].descriptor.name) == m,
{
    let pre = d.take(m);
    let next = d.take(m + 1);
    lemma_extend(d, m, d[m].descriptor.name);
    lemma_usage_absent(pre, d[m].descriptor.name);
    assert(next[m] == d[m]);
}

/// Every name that was listed stays listed when the entries keep their names and
/// the name of the declaration just read is listed too.
proof fn lemma_listed_next(
    d: Seq<Declaration>,
    m: int,
    before: Seq<Entry>,
    after: Seq<Entry>,
    k: int,
)
    requires
        0 <= m < d.len(),
        forall|p: int| 0 <= p < m ==> listed(before, (#[trigger] d.take(m)[p]).descriptor.name),
        before.len() <= after.len(),
        forall|a: int| 0 <= a < before.len() ==> (#[trigger] after[a]).name == before[a].name,
        0 <= k < after.len(),
        after[k].name == d[m].descriptor.name,
    ensures
        forall|p: int|
            0 <= p < m + 1 ==> listed(after, (#[trigger] d.take(m + 1)[p]).descriptor.name),
{
    let pre = d.take(m);
    let next = d.take(m + 1);
    assert forall|p: int| 0 <= p < m + 1 implies listed(
        after,
        (#[trigger] next[p]).descriptor.name,
    ) by {
        if p < m {
            assert(listed(before, pre[p].descriptor.name));
            let w = choose|w: int|
                0 <= w < before.len() && #[trigger] before[w].name == pre[p].descriptor.name;
            assert(after[w].name == next[p].descriptor.name);
        } else {
            assert(after[k].name == next[p].descriptor.name);
        }
    }
}

/// A declaration that agrees with the first of its name agrees with all of them.
proof fn lemma_consistent_next(d: Seq<Declaration>, m: int)
    requires
        0 <= m < d.len(),
        consistent(d.take(m)),
        occurs(d.take(m), d[m].descriptor.name) ==> compatible(
            d[first_pos(d.take(m), d[m].descriptor.name)].descriptor,
            d[m].descriptor,
        ),
    ensures
        consistent(d.take(m + 1)),
{
    let pre = d.take(m);
    let next = d.take(m + 1);
    let name = d[m].descriptor.name;
    assert forall|p: int, q: int|
        0 <= p < next.len() && 0 <= q < next.len() && next[p].descriptor.name
            == next[q].descriptor.name implies compatible(
        next[p].descriptor,
        next[q].descriptor,
    ) by {
        if p < m {
            assert(pre[p] == next[p]);
        }
        if q < m {
            assert(pre[q] == next[q]);
        }
        if p < m && q < m {
            assert(compatible(pre[p].descriptor, pre[q].descriptor));
        } else if p < m {
            assert(pre[p].descriptor.name == name);
            lemma_first_pos(pre, name);
            assert(compatible(pre[p].descriptor, pre[first_pos(pre, name)].descriptor));
        } else if q < m {
            assert(pre[q].descriptor.name == name);
            lemma_first_pos(pre, name);
            assert(compatible(pre[q].descriptor, pre[first_pos(pre, name)].descriptor));
        }
    }
}

/// Reading one more declaration of a name that has an entry keeps the summary.
proof fn lemma_merge_step(d: Seq<Declaration>, m: int, before: Seq<Entry>, k: int)
    requires
        0 <= m < d.len(),
        summarises(d.take(m), before),
        0 <= k < before.len(),
        before[k].name == d[m].descriptor.name,
    ensures
        summarises(d.take(m + 1), before.update(k, merged_entry(before[k], d[m]))),
{
    let pre = d.take(m);
    let next = d.take(m + 1);
    let after = before.update(k, merged_entry(before[k], d[m]));
    lemma_entry_positions(pre, before, k);
    assert forall|a: int| 0 <= a < after.len() implies describes(next, #[trigger] after[a]) by {
        assert(describes(pre, before[a]));
        if a == k {
            lemma_entry_merged(d, m, before[k]);
        } else {
            assert(before[a].name != before[k].name);
            lemma_entry_kept(d, m, before[a]);
        }
    }
    assert forall|a: int, b: int| 0 <= a < b < after.len() implies first_pos(
        next,
        #[trigger] after[a].name,
    ) < first_pos(next, #[trigger] after[b].name) by {
        assert(describes(pre, before[a]));
        assert(describes(pre, before[b]));
        assert(first_pos(pre, before[a].name) < first_pos(pre, before[b].name));
        if a == k {
            lemma_entry_merged(d, m, before[a]);
        } else {
            assert(before[a].name != before[k].name);
            lemma_entry_kept(d, m, before[a]);
        }
        if b == k {
            lemma_entry_merged(d, m, before[b]);
        } else {
            assert(before[b].name != before[k].name);
            lemma_entry_kept(d, m, before[b]);
        }
    }
    lemma_listed_next(d, m, before, after, k);
}

/// Reading the first declaration of a name adds its entry at the end of the summary.
proof fn lemma_fresh_step(d: Seq<Declaration>, m: int, before: Seq<Entry>)
    requires
        0 <= m < d.len(),
        summarises(d.take(m), before),
        !listed(before, d[m].descriptor.name),
    ensures
        !occurs(d.take(m), d[m].descriptor.name),
        summarises(d.take(m + 1), before.push(fresh_entry(d[m]))),
{
    let pre = d.take(m);
    let next = d.take(m + 1);
    let name = d[m].descriptor.name;
    let after = before.push(fresh_entry(d[m]));
    if occurs(pre, name) {
        let p = choose|p: int| 0 <= p < pre.len() && #[trigger] pre[p].descriptor.name == name;
        assert(listed(before, pre[p].descriptor.name));
    }
    lemma_entry_fresh(d, m);
    assert forall|a: int| 0 <= a < after.len() implies describes(next, #[trigger] after[a]) by {
        if a < before.len() {
            assert(describes(pre, before[a]));
            assert(before[a].name != name);
            lemma_entry_kept(d, m, before[a]);
        }
    }
    assert forall|a: int, b: int| 0 <= a < b < after.len() implies first_pos(
        next,
        #[trigger] after[a].name,
    ) < first_pos(next, #[trigger] after[b].name) by {
        assert(describes(pre, before[a]));
        assert(before[a].name != name);
        lemma_entry_kept(d, m, before[a]);
        if b < before.len() {
            assert(describes(pre, before[b]));
            assert(before[b].name != name);
            lemma_entry_kept(d, m, before[b]);
            assert(first_pos(pre, before[a].name) < first_pos(pre, before[b].name));
        }
    }
    lemma_listed_next(d, m, before, after, before.len() as int);
}

/// A declaration that disagrees with the entry of its name is the first conflict.
proof fn lemma_clash(d: Seq<Declaration>, m: int, before: Seq<Entry>, k: int)
    requires
        0 <= m < d.len(),
        consistent(d.take(m)),
        summarises(d.take(m), before),
        0 <= k < before.len(),
        before[k].name == d[m].descriptor.name,
        before[k].size != d[m].descriptor.size || before[k].category != d[m].descriptor.category,
    ensures
        conflict_at(d, m),
{
    let pre = d.take(m);
    let next = d.take(m + 1);
    lemma_entry_positions(pre, before, k);
    assert(describes(pre, before[k]));
    let fp = first_pos(pre, before[k].name);
    assert(next[fp] == pre[fp]);
    assert(next[m] == d[m]);
    assert(next[fp].descriptor.name == next[m].descriptor.name);
    assert(!compatible(next[fp].descriptor, next[m].descriptor));
}

/// Reads the declarations one by one and gathers, for each name, what they say of it.
pub fn collect_entries(declarations: &Vec<Declaration>) -> (r: Result<
    Vec<Entry>,
    ResolutionError,
>)
    ensures
        match r {
            Ok(entries) => {
                &&& consistent(declarations@)
                &&& summarises(declarations@, entries@)
                &&& forall|k: int| 0 <= k < entries.len() ==> (#[trigger] entries[k]).slot == 0
            },
            Err(err) => exists|p: int|
                #![trigger conflict_at(declarations@, p)]
                conflict_at(declarations@, p) && err == (ResolutionError::Incompatible {
                    name: declarations[p].descriptor.name,
                    stage: declarations[p].stage,
                }),
        },
{
    let ghost d = declarations@;
    let mut entries: Vec<Entry> = Vec::new();
    let mut m: usize = 0;
    while m < declarations.len()
        invariant
            d == declarations@,
            m <= declarations.len(),
            consistent(d.take(m as int)),
            summarises(d.take(m as int), entries@),
            forall|k: int| 0 <= k < entries.len() ==> (#[trigger] entries[k]).slot == 0,
        decreases declarations.len() - m,
    {
        let x = declarations[m];
        let ghost before = entries@;
        match find_entry(&entries, x.descriptor.name) {
            Some(k) => {
                let e = entries[k];
                if e.size != x.descriptor.size || e.category != x.descriptor.category {
                    proof {
                        lemma_clash(d, m as int, before, k as int);
                    }
                    return Err(
                        ResolutionError::Incompatible { name: x.descriptor.name, stage: x.stage },
                    );
                }
                let merged = Entry {
                    name: e.name,
                    category: e.category,
                    size: e.size,
                    usage: e.usage.union(x.descriptor.usage),
                    first: e.first,
                    last: x.stage,
                    slot: e.slot,
                };
                entries.set(k, merged);
                proof {
                    lemma_merge_step(d, m as int, before, k as int);
                    lemma_entry_positions(d.take(m as int), before, k as int);
                    assert(describes(d.take(m as int), before[k as int]));
                    lemma_consistent_next(d, m as int);
                }
            },
            None => {
                entries.push(
                    Entry {
                        name: x.descriptor.name,
                        category: x.descriptor.category,
                        size: x.descriptor.size,
                        usage: x.descriptor.usage,
                        first: x.stage,
                        last: x.stage,
                        slot: 0,
                    },
                );
                proof {
                    lemma_fresh_step(d, m as int, before);
                    lemma_consistent_next(d, m as int);
                }
            },
        }
        m += 1;
    }
    proof {
        assert(d.take(m as int) =~= d);
    }
    Ok(entries)
}

} // verus!
