use vstd::prelude::*;
use crate::allocation::{allocates, assign_slots, with_slot, PhysicalBuffer};
use crate::descriptor::Buffers;
use crate::solver::{
    check_order, collect_entries, conflict_at, consistent, declared_by, describes, disorder_at,
    find_entry, first_pos, lemma_conflict, lemma_disorder, lemma_first_pos, lemma_last_pos,
    listed, occurs, ordered, summarises, Declaration, Entry, ResolutionError,
};

verus! {

/// The number of bytes that the physical buffers need together.
pub open spec fn total_bytes(ph: Seq<PhysicalBuffer>) -> int
    decreases ph.len(),
{
    if ph.len() == 0 {
        0
    } else {
        total_bytes(ph.drop_last()) + ph.last().size
    }
}

/// What a buffer plan is made of.
pub struct PlanView {
    /// The declarations the plan was made for.
    pub declarations: Seq<Declaration>,
    /// One entry for each declared name, in the order of first appearance.
    pub entries: Seq<Entry>,
    /// The physical buffers, in the order in which they are first needed.
    pub physical: Seq<PhysicalBuffer>,
}

/// The plan is the one the solver makes for its declarations.
pub open spec fn solved(v: PlanView) -> bool {
    &&& ordered(v.declarations)
    &&& consistent(v.declarations)
    &&& summarises(v.declarations, v.entries)
    &&& allocates(v.entries, v.physical)
    &&& total_bytes(v.physical) <= u64::MAX
}

/// Physical buffer `slot` backs `name`.
pub open spec fn backs(v: PlanView, name: Buffers, slot: usize) -> bool {
    exists|k: int|
        0 <= k < v.entries.len() && (#[trigger] v.entries[k]).name == name && v.entries[k].slot
            == slot
}

/// A stage asked for a buffer that it did not declare.
#[derive(Clone, Copy, Debug, PartialEq, Eq, Structural)]
pub struct UnboundBufferError {
    pub stage: usize,
    pub name: Buffers,
}

/// The allocation plan of a pipeline: which physical buffers exist and which of
/// them backs which name.
#[derive(Debug)]
pub struct BufferPlan {
    declarations: Vec<Declaration>,
    entries: Vec<Entry>,
    physical: Vec<PhysicalBuffer>,
}

impl View for BufferPlan {
    type V = PlanView;

    closed spec fn view(&self) -> PlanView {
        PlanView {
            declarations: self.declarations@,
            entries: self.entries@,
            physical: self.physical@,
        }
    }
}

impl BufferPlan {
    #[verifier::type_invariant]
    spec fn inv(self) -> bool {
        solved(self@)
    }

    /// The number of physical buffers.
    pub fn len(&self) -> (n: usize)
        ensures
            solved(self@),
            n == self@.physical.len(),
    {
        proof {
            use_type_invariant(self);
        }
        self.physical.len()
    }

    /// The physical buffer with number `slot`, if there is one.
    pub fn buffer(&self, slot: usize) -> (r: Option<PhysicalBuffer>)
        ensures
            solved(self@),
            r == (if slot < self@.physical.len() {
                Some(self@.physical[slot as int])
            } else {
                None
            }),
    {
        proof {
            use_type_invariant(self);
        }
        if slot < self.physical.len() {
            Some(self.physical[slot])
        } else {
            None
        }
    }

    /// What the plan knows of `name`, if any stage declares it.
    pub fn entry(&self, name: Buffers) -> (r: Option<Entry>)
        ensures
            solved(self@),
            match r {
                Some(entry) => {
                    &&& occurs(self@.declarations, name)
                    &&& entry.name == name
                    &&& self@.entries.contains(entry)
                    &&& backs(self@, name, entry.slot)
                    &&& entry.slot < self@.physical.len()
                },
                None => !occurs(self@.declarations, name),
            },
    {
        proof {
            use_type_invariant(self);
        }
        match find_entry(&self.entries, name) {
            Some(k) => {
                proof {
                    assert(describes(self@.declarations, self@.entries[k as int]));
                    assert(self@.entries[k as int] == self.entries[k as int]);
                }
                Some(self.entries[k])
            },
            None => {
                proof {
                    if occurs(self@.declarations, name) {
                        let p = choose|p: int|
                            0 <= p < self@.declarations.len()
                                && #[trigger] self@.declarations[p].descriptor.name == name;
                        assert(listed(self@.entries, self@.declarations[p].descriptor.name));
                    }
                }
                None
            },
        }
    }

    /// The number of the physical buffer that backs `name`, whichever stage declares
    /// it.
    pub fn lookup_any(&self, name: Buffers) -> (r: Option<usize>)
        ensures
            solved(self@),
            match r {
                Some(slot) => occurs(self@.declarations, name) && backs(self@, name, slot) && slot
                    < self@.physical.len(),
                None => !occurs(self@.declarations, name),
            },
    {
        match self.entry(name) {
            Some(entry) => Some(entry.slot),
            None => None,
        }
    }

    /// Whether `stage` declares `name`.
    pub fn declares(&self, stage: usize, name: Buffers) -> (r: bool)
        ensures
            solved(self@),
            r == declared_by(self@.declarations, stage, name),
    {
        proof {
            use_type_invariant(self);
        }
        let mut p: usize = 0;
        while p < self.declarations.len()
            invariant
                solved(self@),
                p <= self.declarations.len(),
                forall|q: int|
                    0 <= q < p ==> !((#[trigger] self.declarations[q]).descriptor.name == name
                        && self.declarations[q].stage == stage),
            decreases self.declarations.len() - p,
        {
            if self.declarations[p].descriptor.name == name && self.declarations[p].stage == stage {
                proof {
                    assert(self@.declarations[p as int].descriptor.name == name);
                }
                return true;
            }
            p += 1;
        }
        proof {
            if declared_by(self@.declarations, stage, name) {
                let q = choose|q: int|
                    0 <= q < self@.declarations.len()
                        && #[trigger] self@.declarations[q].descriptor.name == name
                        && self@.declarations[q].stage == stage;
                assert(self.declarations[q].descriptor.name == name);
            }
        }
        false
    }

    /// The number of the physical buffer that backs `name` for `stage`. A stage
    /// reaches only the buffers that it declared itself.
    pub fn lookup(&self, stage: usize, name: Buffers) -> (r: Result<usize, UnboundBufferError>)
        ensures
            solved(self@),
            match r {
                Ok(slot) => declared_by(self@.declarations, stage, name) && backs(
                    self@,
                    name,
                    slot,
                ) && slot < self@.physical.len(),
                Err(err) => !declared_by(self@.declarations, stage, name) && err == (
                UnboundBufferError { stage, name }),
            },
    {
        if !self.declares(stage, name) {
            return Err(UnboundBufferError { stage, name });
        }
        proof {
            let q = choose|q: int|
                0 <= q < self@.declarations.len()
                    && #[trigger] self@.declarations[q].descriptor.name == name
                    && self@.declarations[q].stage == stage;
            assert(self@.declarations[q].descriptor.name == name);
        }
        match self.entry(name) {
            Some(entry) => Ok(entry.slot),
            None => Err(UnboundBufferError { stage, name }),
        }
    }

    /// The number of bytes that the physical buffers need together.
    pub fn total_bytes(&self) -> (bytes: u64)
        ensures
            solved(self@),
            bytes == total_bytes(self@.physical),
    {
        proof {
            use_type_invariant(self);
        }
        match sum_sizes(&self.physical) {
            Some(bytes) => bytes,
            None => 0,
        }
    }

    /// The declarations the plan was made for.
    pub fn declarations(&self) -> (d: &Vec<Declaration>)
        ensures
            solved(self@),
            d@ == self@.declarations,
    {
        proof {
            use_type_invariant(self);
        }
        &self.declarations
    }
}

/// The sum of the sizes of `physical`, unless it cannot be counted.
pub fn sum_sizes(physical: &Vec<PhysicalBuffer>) -> (sum: Option<u64>)
    ensures
        match sum {
            Some(bytes) => bytes == total_bytes(physical@),
            None => total_bytes(physical@) > u64::MAX,
        },
{
    let mut bytes: u64 = 0;
    let mut i: usize = 0;
    while i < physical.len()
        invariant
            i <= physical.len(),
            bytes == total_bytes(physical@.take(i as int)),
        decreases physical.len() - i,
    {
        proof {
            assert(physical@.take(i + 1).drop_last() =~= physical@.take(i as int));
        }
        match bytes.checked_add(physical[i].size) {
            Some(more) => {
                bytes = more;
            },
            None => {
                proof {
                    lemma_total_grows(physical@, i + 1);
                }
                return None;
            },
        }
        i += 1;
    }
    proof {
        assert(physical@.take(i as int) =~= physical@);
    }
    Some(bytes)
}

/// The bytes of the first `n` physical buffers are at most those of all of them.
pub proof fn lemma_total_grows(ph: Seq<PhysicalBuffer>, n: int)
    requires
        0 <= n <= ph.len(),
    ensures
        0 <= total_bytes(ph.take(n)) <= total_bytes(ph),
    decreases ph.len() - n,
{
    if n == ph.len() {
        assert(ph.take(n) =~= ph);
        lemma_total_nonnegative(ph);
    } else {
        lemma_total_grows(ph, n + 1);
        assert(ph.take(n + 1).drop_last() =~= ph.take(n));
        lemma_total_nonnegative(ph.take(n));
    }
}

/// No sum of sizes is negative.
pub proof fn lemma_total_nonnegative(ph: Seq<PhysicalBuffer>)
    ensures
        0 <= total_bytes(ph),
    decreases ph.len(),
{
    if ph.len() > 0 {
        lemma_total_nonnegative(ph.drop_last());
    }
}

/// Turns declarations into an allocation plan.
pub struct BufferSolver;

impl BufferSolver {
    /// Makes the allocation plan for `declarations`, which are given stage by stage.
    ///
    /// Every persistent name gets a physical buffer of its own. A transient name takes
    /// the first transient physical buffer whose names are all dead before the name is
    /// first declared, and a new one where there is none.
    ///
    /// Declarations that do not come stage by stage are refused; else declarations
    /// of one name that disagree in size or category; else a plan that needs more
    /// bytes than can be counted.
    pub fn resolve(declarations: &Vec<Declaration>) -> (r: Result<BufferPlan, ResolutionError>)
        ensures
            match r {
                Ok(plan) => plan@.declarations == declarations@ && solved(plan@),
                Err(ResolutionError::OutOfOrder { position }) => !ordered(declarations@)
                    && disorder_at(declarations@, position as int),
                Err(ResolutionError::Incompatible { name, stage }) => ordered(declarations@)
                    && !consistent(declarations@) && exists|p: int|
                    #![trigger conflict_at(declarations@, p)]
                    conflict_at(declarations@, p) && name == declarations[p].descriptor.name
                        && stage == declarations[p].stage,
                Err(ResolutionError::Overflow) => ordered(declarations@) && consistent(
                    declarations@,
                ) && exists|v: PlanView|
                    #![trigger v.physical]
                    v.declarations == declarations@ && summarises(v.declarations, v.entries)
                        && allocates(v.entries, v.physical) && total_bytes(v.physical) > u64::MAX,
            },
    {
        match check_order(declarations) {
            Some(position) => {
                proof {
                    lemma_disorder(declarations@, position as int);
                }
                return Err(ResolutionError::OutOfOrder { position });
            },
            None => {},
        }
        let gathered = match collect_entries(declarations) {
            Ok(gathered) => gathered,
            Err(err) => {
                proof {
                    let p = choose|p: int|
                        #![trigger conflict_at(declarations@, p)]
                        conflict_at(declarations@, p);
                    lemma_conflict(declarations@, p);
                }
                return Err(err);
            },
        };
        proof {
            assert forall|k: int| 0 <= k < gathered.len() implies (#[trigger] gathered[k]).first
                <= gathered[k].last by {
                lemma_window(declarations@, gathered[k]);
            }
        }
        let (entries, physical) = assign_slots(&gathered);
        proof {
            lemma_slots_keep_summary(declarations@, gathered@, entries@);
        }
        match sum_sizes(&physical) {
            Some(_) => {},
            None => {
                proof {
                    let v = PlanView {
                        declarations: declarations@,
                        entries: entries@,
                        physical: physical@,
                    };
                    assert(total_bytes(v.physical) > u64::MAX);
                }
                return Err(ResolutionError::Overflow);
            },
        }
        let mut copy: Vec<Declaration> = Vec::new();
        let mut i: usize = 0;
        while i < declarations.len()
            invariant
                i <= declarations.len(),
                copy@ == declarations@.take(i as int),
            decreases declarations.len() - i,
        {
            copy.push(declarations[i]);
            proof {
                assert(copy@ =~= declarations@.take(i + 1));
            }
            i += 1;
        }
        proof {
            assert(declarations@.take(i as int) =~= declarations@);
        }
        Ok(BufferPlan { declarations: copy, entries, physical })
    }
}

/// The window of an entry starts no later than it ends.
pub proof fn lemma_window(d: Seq<Declaration>, entry: Entry)
    requires
        ordered(d),
        describes(d, entry),
    ensures
        entry.first <= entry.last,
{
    lemma_first_pos(d, entry.name);
    lemma_last_pos(d, entry.name);
}

/// Entries that differ from a summary in their slots only are a summary too.
pub proof fn lemma_slots_keep_summary(d: Seq<Declaration>, before: Seq<Entry>, after: Seq<Entry>)
    requires
        summarises(d, before),
        after.len() == before.len(),
        forall|k: int|
            0 <= k < before.len() ==> #[trigger] after[k] == with_slot(
                before[k],
                after[k].slot,
            ),
    ensures
        summarises(d, after),
{
    assert forall|k: int| 0 <= k < after.len() implies describes(d, #[trigger] after[k]) by {
        assert(describes(d, before[k]));
    }
    assert forall|p: int| 0 <= p < d.len() implies listed(
        after,
        (#[trigger] d[p]).descriptor.name,
    ) by {
        assert(listed(before, d[p].descriptor.name));
        let w = choose|w: int|
            0 <= w < before.len() && #[trigger] before[w].name == d[p].descriptor.name;
        assert(after[w].name == d[p].descriptor.name);
    }
    assert forall|a: int, b: int| 0 <= a < b < after.len() implies first_pos(
        d,
        #[trigger] after[a].name,
    ) < first_pos(d, #[trigger] after[b].name) by {
        assert(after[a].name == before[a].name);
        assert(after[b].name == before[b].name);
    }
}

} // verus!
