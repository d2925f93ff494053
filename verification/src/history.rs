//! Histories of concurrent operations and the linearizability checks over them.

use vstd::prelude::*;

use crate::text::append_str;
use crate::text::append_u128;
use crate::text::decimal;
use crate::time::MonotonicInstant;

verus! {

/// Stable identity and program-order position for one client operation.
#[derive(Clone, Copy, Debug, PartialEq, Eq, Hash, Structural)]
pub struct OperationId {
    pub client: usize,
    pub sequence: usize,
}

/// The typed result returned by a worker action.
#[derive(Clone, Debug)]
pub struct CompletedOperation<Operation, Output, Tag> {
    pub operation: Operation,
    pub output: Output,
    /// Implementation-defined evidence used to construct a candidate order.
    pub tag: Tag,
}

/// One completed operation observed during the concurrent execution.
#[derive(Clone, Debug)]
pub struct Observation<Operation, Output, Tag> {
    pub id: OperationId,
    pub start_time: MonotonicInstant,
    pub end_time: MonotonicInstant,
    pub completed: CompletedOperation<Operation, Output, Tag>,
}

/// Why a history or a candidate order was rejected.
#[derive(Clone, Debug)]
pub enum HistoryError {
    DuplicateOperationIds,
    CandidateNotPermutation,
    CandidateInvalid,
    EndedBeforeStart { id: OperationId },
    MalformedSequence { client: usize },
    Overlap { client: usize, first: usize, second: usize },
    ReversedClientOrder { client: usize, previous: usize, sequence: usize },
    RealTimeViolation { before: OperationId, after: OperationId },
    OperationFailed { id: OperationId, message: String },
    OrderingCycle,
    NoPosition { id: OperationId },
}

/// Completed concurrent operations and their observed results.
pub struct History<Operation, Output, Tag> {
    observations: Vec<Observation<Operation, Output, Tag>>,
}

/// `a` must come before `b` in any linearization: either the same client
/// issued `a` earlier, or `a` finished before `b` started.
pub open spec fn observation_precedes<Op, Out, Tag>(
    a: Observation<Op, Out, Tag>,
    b: Observation<Op, Out, Tag>,
) -> bool {
    ||| (a.id.client == b.id.client && a.id.sequence < b.id.sequence)
    ||| a.end_time.since_origin.nanos < b.start_time.since_origin.nanos
}

/// `a` finished strictly before `b` started.
pub open spec fn finished_before<Op, Out, Tag>(
    a: Observation<Op, Out, Tag>,
    b: Observation<Op, Out, Tag>,
) -> bool {
    a.end_time.since_origin.nanos < b.start_time.since_origin.nanos
}

/// No two observations share an id.
pub open spec fn ids_unique<Op, Out, Tag>(obs: Seq<Observation<Op, Out, Tag>>) -> bool {
    forall|i: int, j: int|
        0 <= i < obs.len() && 0 <= j < obs.len() && i != j ==> #[trigger] obs[i].id != #[trigger] obs[j].id
}

/// Some observation carries `id`.
pub open spec fn has_id<Op, Out, Tag>(obs: Seq<Observation<Op, Out, Tag>>, id: OperationId) -> bool {
    exists|i: int| 0 <= i < obs.len() && #[trigger] obs[i].id == id
}

/// Every id of `ids` names an observation.
pub open spec fn all_known<Op, Out, Tag>(
    obs: Seq<Observation<Op, Out, Tag>>,
    ids: Seq<OperationId>,
) -> bool {
    forall|k: int| 0 <= k < ids.len() ==> has_id(obs, #[trigger] ids[k])
}

/// Every observation's id occurs in `ids`.
pub open spec fn covers_all<Op, Out, Tag>(
    obs: Seq<Observation<Op, Out, Tag>>,
    ids: Seq<OperationId>,
) -> bool {
    forall|i: int| 0 <= i < obs.len() ==> ids.contains(#[trigger] obs[i].id)
}

/// Every observation starts no later than it ends.
pub open spec fn times_ordered<Op, Out, Tag>(obs: Seq<Observation<Op, Out, Tag>>) -> bool {
    forall|i: int|
        0 <= i < obs.len() ==> (#[trigger] obs[i]).start_time.since_origin.nanos
            <= obs[i].end_time.since_origin.nanos
}

/// Each client's operations are numbered 0, 1, 2, ... and each one after the
/// first started no earlier than its predecessor ended.
pub open spec fn clients_well_formed<Op, Out, Tag>(obs: Seq<Observation<Op, Out, Tag>>) -> bool {
    forall|i: int|
        0 <= i < obs.len() && (#[trigger] obs[i]).id.sequence > 0 ==> exists|p: int|
            0 <= p < obs.len() && #[trigger] obs[p].id == (OperationId {
                client: obs[i].id.client,
                sequence: (obs[i].id.sequence - 1) as usize,
            }) && obs[p].end_time.since_origin.nanos <= obs[i].start_time.since_origin.nanos
}

/// Within `candidate`, each client's operations appear in increasing sequence order.
pub open spec fn client_order_kept(candidate: Seq<OperationId>) -> bool {
    forall|i: int, j: int|
        0 <= i < j < candidate.len() && (#[trigger] candidate[i]).client
            == (#[trigger] candidate[j]).client ==> candidate[i].sequence < candidate[j].sequence
}

/// Whenever one observation finished before another started, `candidate`
/// places the first before the second.
pub open spec fn real_time_kept<Op, Out, Tag>(
    obs: Seq<Observation<Op, Out, Tag>>,
    candidate: Seq<OperationId>,
) -> bool {
    forall|a: int, b: int|
        0 <= a < obs.len() && 0 <= b < obs.len() && finished_before(
            #[trigger] obs[a],
            #[trigger] obs[b],
        ) ==> placed_before(candidate, obs[a].id, obs[b].id)
}

/// Every occurrence of `x` in `order` comes before every occurrence of `y`.
pub open spec fn placed_before(order: Seq<OperationId>, x: OperationId, y: OperationId) -> bool {
    forall|p: int, q: int|
        0 <= p < order.len() && 0 <= q < order.len() && #[trigger] order[p] == x && #[trigger] order[q]
            == y ==> p < q
}

/// `candidate` lists each observed operation exactly once.
pub open spec fn is_permutation_of<Op, Out, Tag>(
    obs: Seq<Observation<Op, Out, Tag>>,
    candidate: Seq<OperationId>,
) -> bool {
    &&& candidate.len() == obs.len()
    &&& candidate.no_duplicates()
    &&& all_known(obs, candidate)
    &&& covers_all(obs, candidate)
}

/// Replaying the operations named by `candidate`, in order, through `step`
/// passes through the given states; `source[k]` is the index of the
/// observation that `candidate[k]` names.
pub open spec fn replay_steps<State, Op, Out, Tag, F: Fn(State, &Op, &Out) -> Result<State, String>>(
    obs: Seq<Observation<Op, Out, Tag>>,
    candidate: Seq<OperationId>,
    step: F,
    states: Seq<State>,
    source: Seq<int>,
    count: int,
) -> bool {
    &&& 0 <= count <= candidate.len()
    &&& states.len() == count + 1
    &&& source.len() == count
    &&& forall|k: int|
        0 <= k < count ==> {
            &&& 0 <= #[trigger] source[k] < obs.len()
            &&& obs[source[k]].id == candidate[k]
            &&& step.ensures(
                (states[k], &obs[source[k]].completed.operation, &obs[source[k]].completed.output),
                Ok::<State, String>(states[k + 1]),
            )
        }
}

/// Replaying every operation of `candidate`, in order, through `step` from
/// `initial` can succeed at every step.
pub open spec fn replay_completes<State, Op, Out, Tag, F: Fn(State, &Op, &Out) -> Result<State, String>>(
    obs: Seq<Observation<Op, Out, Tag>>,
    candidate: Seq<OperationId>,
    step: F,
    initial: State,
) -> bool {
    exists|states: Seq<State>, source: Seq<int>|
        states[0] == initial && #[trigger] replay_steps(
            obs,
            candidate,
            step,
            states,
            source,
            candidate.len() as int,
        )
}

/// Replaying `candidate` through `step` from `initial` can succeed up to some
/// operation `id`, where `step` then fails with `message`.
pub open spec fn replay_fails_at<State, Op, Out, Tag, F: Fn(State, &Op, &Out) -> Result<State, String>>(
    obs: Seq<Observation<Op, Out, Tag>>,
    candidate: Seq<OperationId>,
    step: F,
    initial: State,
    id: OperationId,
    message: String,
) -> bool {
    exists|states: Seq<State>, source: Seq<int>, k: int, i: int|
        states[0] == initial && #[trigger] replay_steps(obs, candidate, step, states, source, k) && k
            < candidate.len() && candidate[k] == id && 0 <= i < obs.len() && #[trigger] obs[i].id == id
            && step.ensures(
            (states[k], &obs[i].completed.operation, &obs[i].completed.output),
            Err::<State, String>(message),
        )
}

/// What `History::verify` may return for `candidate`, replayed through
/// `step` from `initial`: success when the candidate is admissible and the
/// replay completes, and otherwise the first check that failed, with what
/// made it fail.
pub open spec fn verify_outcome<State, Op, Out, Tag, F: Fn(State, &Op, &Out) -> Result<State, String>>(
    obs: Seq<Observation<Op, Out, Tag>>,
    candidate: Seq<OperationId>,
    step: F,
    initial: State,
    r: Result<(), HistoryError>,
) -> bool {
    match r {
        Ok(()) => candidate_admissible(obs, candidate) && replay_completes(
            obs,
            candidate,
            step,
            initial,
        ),
        Err(HistoryError::DuplicateOperationIds) => !ids_unique(obs),
        Err(HistoryError::CandidateNotPermutation) => ids_unique(obs)
            && !is_permutation_of(obs, candidate),
        Err(HistoryError::EndedBeforeStart { id }) => ids_unique(obs) && is_permutation_of(
            obs,
            candidate,
        ) && !times_ordered(obs) && exists|i: int|
            0 <= i < obs.len() && #[trigger] obs[i].id == id
                && obs[i].start_time.since_origin.nanos
                > obs[i].end_time.since_origin.nanos,
        Err(HistoryError::MalformedSequence { client }) => ids_unique(obs) && is_permutation_of(
            obs,
            candidate,
        ) && times_ordered(obs) && !clients_well_formed(obs) && exists|i: int|
            0 <= i < obs.len() && (#[trigger] obs[i]).id.client == client
                && obs[i].id.sequence > 0 && !has_id(
                obs,
                OperationId { client, sequence: (obs[i].id.sequence - 1) as usize },
            ),
        Err(HistoryError::Overlap { client, first, second }) => ids_unique(obs)
            && is_permutation_of(obs, candidate) && times_ordered(obs)
            && !clients_well_formed(obs) && exists|p: int, i: int|
            0 <= p < obs.len() && 0 <= i < obs.len() && #[trigger] obs[p].id
                == (OperationId { client, sequence: first }) && #[trigger] obs[i].id
                == (OperationId { client, sequence: second }) && second == first + 1
                && obs[p].end_time.since_origin.nanos
                > obs[i].start_time.since_origin.nanos,
        Err(HistoryError::ReversedClientOrder { client, previous, sequence }) => ids_unique(
            obs,
        ) && is_permutation_of(obs, candidate) && times_ordered(obs)
            && clients_well_formed(obs) && !client_order_kept(candidate) && exists|
            i: int,
            j: int,
        |
            0 <= i < j < candidate.len() && #[trigger] candidate[i] == (OperationId {
                client,
                sequence: previous,
            }) && #[trigger] candidate[j] == (OperationId { client, sequence })
                && previous >= sequence,
        Err(HistoryError::RealTimeViolation { before, after }) => ids_unique(obs)
            && is_permutation_of(obs, candidate) && times_ordered(obs)
            && clients_well_formed(obs) && client_order_kept(candidate) && !real_time_kept(
            obs,
            candidate,
        ) && exists|a: int, b: int|
            0 <= a < obs.len() && 0 <= b < obs.len() && #[trigger] obs[a].id == before
                && #[trigger] obs[b].id == after && finished_before(obs[a], obs[b])
                && !placed_before(candidate, before, after),
        Err(HistoryError::OperationFailed { id, message }) => candidate_admissible(
            obs,
            candidate,
        ) && replay_fails_at(obs, candidate, step, initial, id, message),
        Err(_) => false,
    }
}

/// `pos` places the elements of `small`, in order, at increasing positions of `big`.
pub open spec fn embeds(small: Seq<OperationId>, big: Seq<OperationId>, pos: Seq<int>) -> bool {
    &&& pos.len() == small.len()
    &&& forall|k: int| 0 <= k < small.len() ==> 0 <= #[trigger] pos[k] < big.len() && big[pos[k]] == small[k]
    &&& forall|k1: int, k2: int| 0 <= k1 < k2 < small.len() ==> #[trigger] pos[k1] < #[trigger] pos[k2]
}

/// `small` occurs in `big` in the same relative order.
pub open spec fn is_subsequence(small: Seq<OperationId>, big: Seq<OperationId>) -> bool {
    exists|pos: Seq<int>| embeds(small, big, pos)
}

/// Every precedence that involves an operation outside `anchors` is kept by `order`.
pub open spec fn unanchored_precedence_kept<Op, Out, Tag>(
    obs: Seq<Observation<Op, Out, Tag>>,
    anchors: Seq<OperationId>,
    order: Seq<OperationId>,
) -> bool {
    forall|a: int, b: int|
        0 <= a < obs.len() && 0 <= b < obs.len() && observation_precedes(
            #[trigger] obs[a],
            #[trigger] obs[b],
        ) && (!anchors.contains(obs[a].id) || !anchors.contains(obs[b].id)) ==> placed_before(
            order,
            obs[a].id,
            obs[b].id,
        )
}

/// Some member of `missing` names an observation that must precede the one
/// named by `missing[k]`.
pub open spec fn blocked<Op, Out, Tag>(
    obs: Seq<Observation<Op, Out, Tag>>,
    missing: Seq<usize>,
    k: int,
) -> bool {
    exists|m: int|
        0 <= m < missing.len() && #[trigger] observation_precedes(
            obs[missing[m] as int],
            obs[missing[k] as int],
        )
}

/// Some nonempty set of observations outside `anchors` has, for each member,
/// another member that must precede it: a precedence cycle.
pub open spec fn unanchored_cycle<Op, Out, Tag>(
    obs: Seq<Observation<Op, Out, Tag>>,
    anchors: Seq<OperationId>,
) -> bool {
    exists|members: Seq<usize>|
        members.len() > 0 && (forall|k: int|
            0 <= k < members.len() ==> #[trigger] members[k] < obs.len() && !anchors.contains(
                obs[members[k] as int].id,
            )) && forall|k: int| 0 <= k < members.len() ==> #[trigger] blocked(obs, members, k)
}

/// Precedences involving an operation outside `anchors` are kept among the
/// operations that `order` already holds.
pub open spec fn placed_precedence_kept<Op, Out, Tag>(
    obs: Seq<Observation<Op, Out, Tag>>,
    anchors: Seq<OperationId>,
    order: Seq<OperationId>,
) -> bool {
    forall|a: int, b: int|
        0 <= a < obs.len() && 0 <= b < obs.len() && observation_precedes(
            #[trigger] obs[a],
            #[trigger] obs[b],
        ) && (!anchors.contains(obs[a].id) || !anchors.contains(obs[b].id)) && order.contains(obs[a].id)
            && order.contains(obs[b].id) ==> placed_before(order, obs[a].id, obs[b].id)
}

/// Some observation named `id` must precede `obs[x]`.
pub open spec fn id_precedes<Op, Out, Tag>(obs: Seq<Observation<Op, Out, Tag>>, id: OperationId, x: int) -> bool {
    exists|i: int| 0 <= i < obs.len() && #[trigger] obs[i].id == id && observation_precedes(obs[i], obs[x])
}

/// `obs[x]` must precede some observation named `id`.
pub open spec fn id_follows<Op, Out, Tag>(obs: Seq<Observation<Op, Out, Tag>>, id: OperationId, x: int) -> bool {
    exists|i: int| 0 <= i < obs.len() && #[trigger] obs[i].id == id && observation_precedes(obs[x], obs[i])
}

/// The earliest slot for `obs[x]` in `order`: just after the last placed
/// operation that must precede it, or the front when there is none.
pub open spec fn earliest_slot<Op, Out, Tag>(
    obs: Seq<Observation<Op, Out, Tag>>,
    order: Seq<OperationId>,
    x: int,
) -> int
    decreases order.len(),
{
    if order.len() == 0 {
        0
    } else if id_precedes(obs, order.last(), x) {
        order.len() as int
    } else {
        earliest_slot(obs, order.drop_last(), x)
    }
}

/// Some operation placed before `slot` must follow `obs[x]`.
pub open spec fn slot_blocked<Op, Out, Tag>(
    obs: Seq<Observation<Op, Out, Tag>>,
    order: Seq<OperationId>,
    x: int,
    slot: int,
) -> bool {
    exists|p: int| 0 <= p < slot && p < order.len() && id_follows(obs, #[trigger] order[p], x)
}

/// The indices, in history order, of the first `n` observations whose ids
/// `order` does not hold.
pub open spec fn missing_indices<Op, Out, Tag>(
    obs: Seq<Observation<Op, Out, Tag>>,
    order: Seq<OperationId>,
    n: int,
) -> Seq<usize>
    decreases n,
{
    if n <= 0 {
        Seq::empty()
    } else if order.contains(obs[n - 1].id) {
        missing_indices(obs, order, n - 1)
    } else {
        missing_indices(obs, order, n - 1).push((n - 1) as usize)
    }
}

/// `a` comes no later than `b` by (client, sequence).
pub open spec fn id_key_le(a: OperationId, b: OperationId) -> bool {
    a.client < b.client || (a.client == b.client && a.sequence <= b.sequence)
}

/// `missing[k]` is the next operation to place: no member of `missing` must
/// precede it, and among such members it has the smallest (client, sequence).
pub open spec fn is_next<Op, Out, Tag>(obs: Seq<Observation<Op, Out, Tag>>, missing: Seq<usize>, k: int) -> bool {
    &&& 0 <= k < missing.len()
    &&& !blocked(obs, missing, k)
    &&& forall|j: int|
        0 <= j < missing.len() && !#[trigger] blocked(obs, missing, j) ==> id_key_le(
            obs[missing[k] as int].id,
            obs[missing[j] as int].id,
        )
}

/// The result of placing the operations `missing` names into `order`, one at
/// a time: the next one (see `is_next`) goes to its earliest slot; placing
/// stops with `OrderingCycle` when every member has a member that must
/// precede it, and with `NoPosition` when a placed operation that must follow
/// the next one stands before its earliest slot.
pub open spec fn completion<Op, Out, Tag>(
    obs: Seq<Observation<Op, Out, Tag>>,
    order: Seq<OperationId>,
    missing: Seq<usize>,
) -> Result<Seq<OperationId>, HistoryError>
    decreases missing.len(),
{
    if missing.len() == 0 {
        Ok(order)
    } else if exists|k: int| is_next(obs, missing, k) {
        let k = choose|k: int| is_next(obs, missing, k);
        let x = missing[k] as int;
        let slot = earliest_slot(obs, order, x);
        if slot_blocked(obs, order, x, slot) {
            Err(HistoryError::NoPosition { id: obs[x].id })
        } else {
            completion(obs, order.insert(slot, obs[x].id), missing.remove(k))
        }
    } else {
        Err(HistoryError::OrderingCycle)
    }
}

/// The structural conditions under which `candidate` is a legal
/// linearization order of the history, before any replay.
pub open spec fn candidate_admissible<Op, Out, Tag>(
    obs: Seq<Observation<Op, Out, Tag>>,
    candidate: Seq<OperationId>,
) -> bool {
    &&& ids_unique(obs)
    &&& is_permutation_of(obs, candidate)
    &&& times_ordered(obs)
    &&& clients_well_formed(obs)
    &&& client_order_kept(candidate)
    &&& real_time_kept(obs, candidate)
}

impl<Operation, Output, Tag> View for History<Operation, Output, Tag> {
    type V = Seq<Observation<Operation, Output, Tag>>;

    closed spec fn view(&self) -> Seq<Observation<Operation, Output, Tag>> {
        self.observations@
    }
}

/// Whether `before` must precede `after` in any linearization.
pub fn precedes<Operation, Output, Tag>(
    before: &Observation<Operation, Output, Tag>,
    after: &Observation<Operation, Output, Tag>,
) -> (b: bool)
    ensures
        b == observation_precedes(*before, *after),
{
    (before.id.client == after.id.client && before.id.sequence < after.id.sequence)
        || before.end_time.is_before(after.start_time)
}

/// The position of `id` in `ids`, if present.
fn find_id(ids: &Vec<OperationId>, id: OperationId) -> (r: Option<usize>)
    ensures
        match r {
            Some(k) => k < ids.len() && ids@[k as int] == id
                && forall|m: int| 0 <= m < k ==> ids@[m] != id,
            None => !ids@.contains(id),
        },
{
    let mut k: usize = 0;
    while k < ids.len()
        invariant
            k <= ids.len(),
            forall|m: int| 0 <= m < k ==> ids@[m] != id,
        decreases ids.len() - k,
    {
        if ids[k] == id {
            return Some(k);
        }
        k += 1;
    }
    None
}

/// Whether no id occurs twice in `ids`.
fn ids_distinct(ids: &Vec<OperationId>) -> (b: bool)
    ensures
        b == ids@.no_duplicates(),
{
    let mut j: usize = 0;
    while j < ids.len()
        invariant
            j <= ids.len(),
            forall|a: int, b: int| 0 <= a < b < j ==> ids@[a] != ids@[b],
        decreases ids.len() - j,
    {
        let mut i: usize = 0;
        while i < j
            invariant
                i <= j < ids.len(),
                forall|a: int, b: int| 0 <= a < b < j ==> ids@[a] != ids@[b],
                forall|a: int| 0 <= a < i ==> ids@[a] != ids@[j as int],
            decreases j - i,
        {
            if ids[i] == ids[j] {
                assert(!ids@.no_duplicates()) by {
                    assert(ids@[i as int] == ids@[j as int]);
                }
                return false;
            }
            i += 1;
        }
        j += 1;
    }
    true
}

impl<Operation, Output, Tag> History<Operation, Output, Tag> {
    pub fn new() -> (h: Self)
        ensures
            h@ == Seq::<Observation<Operation, Output, Tag>>::empty(),
    {
        History { observations: Vec::new() }
    }

    /// Add one completed operation to the history.
    pub fn record(&mut self, observation: Observation<Operation, Output, Tag>)
        ensures
            final(self)@ == old(self)@.push(observation),
    {
        self.observations.push(observation);
    }

    /// The number of recorded observations.
    pub fn len(&self) -> (n: usize)
        ensures
            n == self@.len(),
    {
        self.observations.len()
    }

    /// The recorded observation at `index`.
    pub fn get(&self, index: usize) -> (o: &Observation<Operation, Output, Tag>)
        requires
            index < self@.len(),
        ensures
            *o == self@[index as int],
    {
        &self.observations[index]
    }

    /// The index of the first observation carrying `id`, if any.
    fn find_observation(&self, id: OperationId) -> (r: Option<usize>)
        ensures
            match r {
                Some(i) => i < self@.len() && self@[i as int].id == id,
                None => !has_id(self@, id),
            },
    {
        let mut i: usize = 0;
        while i < self.observations.len()
            invariant
                i <= self@.len(),
                forall|m: int| 0 <= m < i ==> self@[m].id != id,
            decreases self@.len() - i,
        {
            if self.observations[i].id == id {
                return Some(i);
            }
            i += 1;
        }
        None
    }

    /// Whether no two observations share an id.
    fn ids_are_unique(&self) -> (b: bool)
        ensures
            b == ids_unique(self@),
    {
        let mut j: usize = 0;
        while j < self.observations.len()
            invariant
                j <= self@.len(),
                forall|a: int, b: int| 0 <= a < j && 0 <= b < j && a != b ==> self@[a].id != self@[b].id,
            decreases self@.len() - j,
        {
            let mut i: usize = 0;
            while i < j
                invariant
                    i <= j < self@.len(),
                    forall|a: int, b: int| 0 <= a < j && 0 <= b < j && a != b ==> self@[a].id != self@[b].id,
                    forall|a: int| 0 <= a < i ==> self@[a].id != self@[j as int].id,
                decreases j - i,
            {
                if self.observations[i].id == self.observations[j].id {
                    assert(self@[i as int].id == self@[j as int].id);
                    return false;
                }
                i += 1;
            }
            j += 1;
        }
        true
    }

    /// Whether every id of `ids` names an observation.
    fn all_ids_known(&self, ids: &Vec<OperationId>) -> (b: bool)
        ensures
            b == all_known(self@, ids@),
    {
        let mut k: usize = 0;
        while k < ids.len()
            invariant
                k <= ids.len(),
                forall|m: int| 0 <= m < k ==> has_id(self@, #[trigger] ids@[m]),
            decreases ids.len() - k,
        {
            if self.find_observation(ids[k]).is_none() {
                return false;
            }
            k += 1;
        }
        true
    }
}

impl<Operation, Output, Tag> History<Operation, Output, Tag> {
    /// Every observation must start no later than it ends.
    fn check_times(&self) -> (r: Result<(), HistoryError>)
        ensures
            match r {
                Ok(()) => times_ordered(self@),
                Err(HistoryError::EndedBeforeStart { id }) => exists|i: int|
                    0 <= i < self@.len() && #[trigger] self@[i].id == id
                        && self@[i].start_time.since_origin.nanos
                        > self@[i].end_time.since_origin.nanos,
                Err(_) => false,
            },
    {
        let mut i: usize = 0;
        while i < self.observations.len()
            invariant
                i <= self@.len(),
                forall|m: int|
                    0 <= m < i ==> (#[trigger] self@[m]).start_time.since_origin.nanos
                        <= self@[m].end_time.since_origin.nanos,
            decreases self@.len() - i,
        {
            let o = &self.observations[i];
            if o.end_time.is_before(o.start_time) {
                assert(self@[i as int].id == o.id);
                return Err(HistoryError::EndedBeforeStart { id: o.id });
            }
            i += 1;
        }
        Ok(())
    }

    /// Each client's operations must be numbered from zero without gaps, and
    /// each must start no earlier than its predecessor ended.
    fn check_clients(&self) -> (r: Result<(), HistoryError>)
        ensures
            match r {
                Ok(()) => clients_well_formed(self@),
                Err(HistoryError::MalformedSequence { client }) => exists|i: int|
                    0 <= i < self@.len() && (#[trigger] self@[i]).id.client == client
                        && self@[i].id.sequence > 0 && !has_id(
                        self@,
                        OperationId { client, sequence: (self@[i].id.sequence - 1) as usize },
                    ),
                Err(HistoryError::Overlap { client, first, second }) => exists|p: int, i: int|
                    0 <= p < self@.len() && 0 <= i < self@.len() && #[trigger] self@[p].id
                        == (OperationId { client, sequence: first }) && #[trigger] self@[i].id
                        == (OperationId { client, sequence: second }) && second == first + 1
                        && self@[p].end_time.since_origin.nanos
                        > self@[i].start_time.since_origin.nanos,
                Err(_) => false,
            },
    {
        let mut i: usize = 0;
        while i < self.observations.len()
            invariant
                i <= self@.len(),
                forall|m: int|
                    0 <= m < i && (#[trigger] self@[m]).id.sequence > 0 ==> exists|p: int|
                        0 <= p < self@.len() && #[trigger] self@[p].id == (OperationId {
                            client: self@[m].id.client,
                            sequence: (self@[m].id.sequence - 1) as usize,
                        }) && self@[p].end_time.since_origin.nanos
                            <= self@[m].start_time.since_origin.nanos,
            decreases self@.len() - i,
        {
            let o = &self.observations[i];
            if o.id.sequence > 0 {
                let prev = OperationId { client: o.id.client, sequence: o.id.sequence - 1 };
                match self.find_observation(prev) {
                    None => {
                        assert(self@[i as int].id.client == o.id.client);
                        return Err(HistoryError::MalformedSequence { client: o.id.client });
                    },
                    Some(p) => {
                        let before = &self.observations[p];
                        if o.start_time.is_before(before.end_time) {
                            assert(self@[p as int].id == (OperationId {
                                client: o.id.client,
                                sequence: (o.id.sequence - 1) as usize,
                            }));
                            assert(self@[i as int].id == (OperationId {
                                client: o.id.client,
                                sequence: o.id.sequence,
                            }));
                            return Err(
                                HistoryError::Overlap {
                                    client: o.id.client,
                                    first: o.id.sequence - 1,
                                    second: o.id.sequence,
                                },
                            );
                        }
                        assert(self@[p as int].end_time.since_origin.nanos
                            <= self@[i as int].start_time.since_origin.nanos);
                    },
                }
            }
            i += 1;
        }
        Ok(())
    }

    /// Within `candidate`, each client's operations must appear in
    /// increasing sequence order.
    fn check_client_order(candidate: &Vec<OperationId>) -> (r: Result<(), HistoryError>)
        ensures
            match r {
                Ok(()) => client_order_kept(candidate@),
                Err(HistoryError::ReversedClientOrder { client, previous, sequence }) => exists|
                    i: int,
                    j: int,
                |
                    0 <= i < j < candidate@.len() && #[trigger] candidate@[i] == (OperationId {
                        client,
                        sequence: previous,
                    }) && #[trigger] candidate@[j] == (OperationId { client, sequence })
                        && previous >= sequence,
                Err(_) => false,
            },
    {
        let mut j: usize = 0;
        while j < candidate.len()
            invariant
                j <= candidate.len(),
                forall|a: int, b: int|
                    0 <= a < b < j && (#[trigger] candidate@[a]).client
                        == (#[trigger] candidate@[b]).client ==> candidate@[a].sequence
                        < candidate@[b].sequence,
            decreases candidate.len() - j,
        {
            let current = candidate[j];
            let mut i: usize = j;
            let mut found = false;
            while i > 0 && !found
                invariant
                    i <= j < candidate.len(),
                    current == candidate@[j as int],
                    !found ==> forall|m: int|
                        i <= m < j ==> (#[trigger] candidate@[m]).client != current.client,
                    found ==> i < j && candidate@[i as int].client == current.client && forall|
                        m: int,
                    |
                        i < m < j ==> (#[trigger] candidate@[m]).client != current.client,
                decreases i + (if found { 0int } else { 1int }),
            {
                if candidate[i - 1].client == current.client {
                    found = true;
                }
                i -= 1;
            }
            if found {
                let last = candidate[i];
                if last.sequence >= current.sequence {
                    assert(candidate@[i as int] == (OperationId {
                        client: current.client,
                        sequence: last.sequence,
                    }));
                    assert(candidate@[j as int] == (OperationId {
                        client: current.client,
                        sequence: current.sequence,
                    }));
                    return Err(
                        HistoryError::ReversedClientOrder {
                            client: current.client,
                            previous: last.sequence,
                            sequence: current.sequence,
                        },
                    );
                }
                assert forall|a: int| 0 <= a < j && (#[trigger] candidate@[a]).client == current.client
                    implies candidate@[a].sequence < current.sequence by {
                    if a < i {
                        assert(candidate@[a].sequence < candidate@[i as int].sequence);
                    }
                }
            } else {
                assert(i == 0);
            }
            j += 1;
        }
        Ok(())
    }
}

/// A sequence without duplicates holds each value at one position only.
proof fn lemma_unique_position(order: Seq<OperationId>, p: int, q: int)
    requires
        order.no_duplicates(),
        0 <= p < order.len(),
        0 <= q < order.len(),
        order[p] == order[q],
    ensures
        p == q,
{
}

impl<Operation, Output, Tag> History<Operation, Output, Tag> {
    /// Whether every observation's id occurs in `ids`.
    fn all_covered(&self, ids: &Vec<OperationId>) -> (b: bool)
        ensures
            b == covers_all(self@, ids@),
    {
        let mut i: usize = 0;
        while i < self.observations.len()
            invariant
                i <= self@.len(),
                forall|m: int| 0 <= m < i ==> ids@.contains(#[trigger] self@[m].id),
            decreases self@.len() - i,
        {
            if find_id(ids, self.observations[i].id).is_none() {
                return false;
            }
            i += 1;
        }
        true
    }

    /// Whether `candidate` lists each observed operation exactly once.
    fn is_permutation(&self, candidate: &Vec<OperationId>) -> (b: bool)
        ensures
            b == is_permutation_of(self@, candidate@),
    {
        candidate.len() == self.observations.len() && ids_distinct(candidate) && self.all_ids_known(
            candidate,
        ) && self.all_covered(candidate)
    }

    /// Whenever one observation finished before another started, the
    /// candidate must place the first before the second.
    fn check_real_time(&self, candidate: &Vec<OperationId>) -> (r: Result<(), HistoryError>)
        requires
            is_permutation_of(self@, candidate@),
        ensures
            match r {
                Ok(()) => real_time_kept(self@, candidate@),
                Err(HistoryError::RealTimeViolation { before, after }) => exists|a: int, b: int|
                    0 <= a < self@.len() && 0 <= b < self@.len() && #[trigger] self@[a].id == before
                        && #[trigger] self@[b].id == after && finished_before(self@[a], self@[b])
                        && !placed_before(candidate@, before, after),
                Err(_) => false,
            },
    {
        let n = self.observations.len();
        let mut a: usize = 0;
        while a < n
            invariant
                n == self@.len(),
                is_permutation_of(self@, candidate@),
                a <= n,
                forall|x: int, y: int|
                    0 <= x < a && 0 <= y < n && finished_before(#[trigger] self@[x], #[trigger] self@[y])
                        ==> placed_before(candidate@, self@[x].id, self@[y].id),
            decreases n - a,
        {
            let mut b: usize = 0;
            while b < n
                invariant
                    n == self@.len(),
                    is_permutation_of(self@, candidate@),
                    a < n,
                    b <= n,
                    forall|x: int, y: int|
                        0 <= x < a && 0 <= y < n && finished_before(#[trigger] self@[x], #[trigger] self@[y])
                            ==> placed_before(candidate@, self@[x].id, self@[y].id),
                    forall|y: int|
                        0 <= y < b && finished_before(self@[a as int], #[trigger] self@[y])
                            ==> placed_before(candidate@, self@[a as int].id, self@[y].id),
                decreases n - b,
            {
                let before = &self.observations[a];
                let after = &self.observations[b];
                if before.end_time.is_before(after.start_time) {
                    assert(candidate@.contains(self@[a as int].id));
                    assert(candidate@.contains(self@[b as int].id));
                    let pa = find_id(candidate, before.id).unwrap();
                    let pb = find_id(candidate, after.id).unwrap();
                    if pa >= pb {
                        assert(!placed_before(candidate@, before.id, after.id)) by {
                            assert(candidate@[pa as int] == before.id);
                            assert(candidate@[pb as int] == after.id);
                        }
                        return Err(HistoryError::RealTimeViolation { before: before.id, after: after.id });
                    }
                    assert(placed_before(candidate@, before.id, after.id)) by {
                        assert forall|p: int, q: int|
                            0 <= p < candidate@.len() && 0 <= q < candidate@.len()
                                && #[trigger] candidate@[p] == before.id && #[trigger] candidate@[q]
                                == after.id implies p < q by {
                            lemma_unique_position(candidate@, p, pa as int);
                            lemma_unique_position(candidate@, q, pb as int);
                        }
                    }
                }
                b += 1;
            }
            a += 1;
        }
        Ok(())
    }

    /// Verify that `candidate` is a legal linearization of the observed
    /// history: it must list every observation once, keep each client's
    /// program order and every real-time precedence, and replaying it through
    /// `verify_and_apply` from `state` must succeed at every step.
    pub fn verify<State, F>(&self, candidate: &Vec<OperationId>, initial_state: State, verify_and_apply: F) -> (r:
        Result<(), HistoryError>) where F: Fn(State, &Operation, &Output) -> Result<State, String>
        requires
            forall|s: State, op: &Operation, out: &Output| verify_and_apply.requires((s, op, out)),
        ensures
            verify_outcome(self@, candidate@, verify_and_apply, initial_state, r),
    {
        if !self.ids_are_unique() {
            return Err(HistoryError::DuplicateOperationIds);
        }
        if !self.is_permutation(candidate) {
            return Err(HistoryError::CandidateNotPermutation);
        }
        self.check_times()?;
        self.check_clients()?;
        Self::check_client_order(candidate)?;
        self.check_real_time(candidate)?;

        let ghost init = initial_state;
        let mut state = initial_state;
        let ghost mut states: Seq<State> = seq![state];
        let ghost mut source: Seq<int> = Seq::empty();
        let mut k: usize = 0;
        while k < candidate.len()
            invariant
                k <= candidate.len(),
                candidate_admissible(self@, candidate@),
                forall|s: State, op: &Operation, out: &Output| verify_and_apply.requires((s, op, out)),
                states[0] == init,
                init == initial_state,
                states[k as int] == state,
                replay_steps(self@, candidate@, verify_and_apply, states, source, k as int),
            decreases candidate.len() - k,
        {
            let id = candidate[k];
            let i = match self.find_observation(id) {
                Some(i) => i,
                None => {
                    assert(has_id(self@, candidate@[k as int]));
                    return Err(HistoryError::CandidateNotPermutation);
                },
            };
            let observation = &self.observations[i];
            let ghost before = state;
            match verify_and_apply(state, &observation.completed.operation, &observation.completed.output) {
                Ok(next) => {
                    proof {
                        let old_states = states;
                        let old_source = source;
                        states = states.push(next);
                        source = source.push(i as int);
                        assert forall|m: int| 0 <= m < k + 1 implies {
                            &&& 0 <= #[trigger] source[m] < self@.len()
                            &&& self@[source[m]].id == candidate@[m]
                            &&& verify_and_apply.ensures(
                                (states[m], &self@[source[m]].completed.operation, &self@[source[m]].completed.output),
                                Ok::<State, String>(states[m + 1]),
                            )
                        } by {
                            if m < k {
                                assert(old_source[m] == source[m]);
                                assert(old_states[m] == states[m]);
                                assert(old_states[m + 1] == states[m + 1]);
                            }
                        }
                    }
                    state = next;
                },
                Err(message) => {
                    assert(replay_steps(self@, candidate@, verify_and_apply, states, source, k as int));
                    assert(self@[i as int].id == id);
                    assert(states[k as int] == before);
                    assert(verify_and_apply.ensures(
                        (states[k as int], &self@[i as int].completed.operation, &self@[i as int].completed.output),
                        Err::<State, String>(message),
                    ));
                    assert(states[0] == initial_state);
                    assert(replay_fails_at(self@, candidate@, verify_and_apply, initial_state, id, message));
                    return Err(HistoryError::OperationFailed { id, message });
                },
            }
            k += 1;
        }
        assert(replay_steps(self@, candidate@, verify_and_apply, states, source, candidate@.len() as int));
        assert(replay_completes(self@, candidate@, verify_and_apply, initial_state));
        Ok(())
    }
}

/// A list of distinct, known ids that covers every observation of a history
/// with unique ids is exactly as long as the history.
proof fn lemma_permutation_length<Op, Out, Tag>(
    obs: Seq<Observation<Op, Out, Tag>>,
    ids: Seq<OperationId>,
)
    requires
        ids_unique(obs),
        ids.no_duplicates(),
        all_known(obs, ids),
        covers_all(obs, ids),
    ensures
        ids.len() == obs.len(),
{
    let obs_ids = obs.map_values(|o: Observation<Op, Out, Tag>| o.id);
    assert(obs_ids.no_duplicates()) by {
        assert forall|i: int, j: int| 0 <= i < obs_ids.len() && 0 <= j < obs_ids.len() && i != j
            implies obs_ids[i] != obs_ids[j] by {
            assert(obs_ids[i] == obs[i].id);
            assert(obs_ids[j] == obs[j].id);
        }
    }
    ids.unique_seq_to_set();
    obs_ids.unique_seq_to_set();
    assert(ids.to_set() =~= obs_ids.to_set()) by {
        assert forall|x: OperationId| ids.to_set().contains(x) implies obs_ids.to_set().contains(x) by {
            let k = choose|k: int| 0 <= k < ids.len() && ids[k] == x;
            assert(has_id(obs, ids[k]));
            let i = choose|i: int| 0 <= i < obs.len() && obs[i].id == ids[k];
            assert(obs_ids[i] == x);
        }
        assert forall|x: OperationId| obs_ids.to_set().contains(x) implies ids.to_set().contains(x) by {
            let i = choose|i: int| 0 <= i < obs_ids.len() && obs_ids[i] == x;
            assert(ids.contains(obs[i].id));
        }
    }
}

/// In a history with unique ids, an admissible candidate keeps every
/// precedence: same-client program order and real-time order.
pub proof fn lemma_admissible_candidate_keeps_precedence<Op, Out, Tag>(
    obs: Seq<Observation<Op, Out, Tag>>,
    candidate: Seq<OperationId>,
    a: int,
    b: int,
)
    requires
        candidate_admissible(obs, candidate),
        0 <= a < obs.len(),
        0 <= b < obs.len(),
        observation_precedes(obs[a], obs[b]),
    ensures
        placed_before(candidate, obs[a].id, obs[b].id),
{
    if !finished_before(obs[a], obs[b]) {
        assert forall|p: int, q: int|
            0 <= p < candidate.len() && 0 <= q < candidate.len() && #[trigger] candidate[p] == obs[a].id
                && #[trigger] candidate[q] == obs[b].id implies p < q by {
            if q < p {
                assert(candidate[q].sequence < candidate[p].sequence);
            } else if q == p {
                assert(obs[a].id.sequence < obs[b].id.sequence);
            }
        }
    }
}

/// In an admissible history, two operations of one client never overlap:
/// the earlier one ends no later than the later one starts.
pub proof fn lemma_client_operations_do_not_overlap<Op, Out, Tag>(
    obs: Seq<Observation<Op, Out, Tag>>,
    a: int,
    b: int,
)
    requires
        ids_unique(obs),
        times_ordered(obs),
        clients_well_formed(obs),
        0 <= a < obs.len(),
        0 <= b < obs.len(),
        obs[a].id.client == obs[b].id.client,
        obs[a].id.sequence < obs[b].id.sequence,
    ensures
        obs[a].end_time.since_origin.nanos <= obs[b].start_time.since_origin.nanos,
    decreases obs[b].id.sequence - obs[a].id.sequence,
{
    assert(obs[b].id.sequence > 0);
    let p = choose|p: int|
        0 <= p < obs.len() && #[trigger] obs[p].id == (OperationId {
            client: obs[b].id.client,
            sequence: (obs[b].id.sequence - 1) as usize,
        }) && obs[p].end_time.since_origin.nanos <= obs[b].start_time.since_origin.nanos;
    if obs[p].id.sequence == obs[a].id.sequence {
        assert(obs[p].id == obs[a].id);
        if p != a {
            assert(obs[p].id != obs[a].id);
        }
    } else {
        lemma_client_operations_do_not_overlap(obs, a, p);
        assert(obs[p].start_time.since_origin.nanos <= obs[p].end_time.since_origin.nanos);
    }
}

impl<Operation, Output, Tag> History<Operation, Output, Tag> {
    /// The indices, in history order, of the observations whose ids are not in `order`.
    fn missing_from(&self, order: &Vec<OperationId>) -> (missing: Vec<usize>)
        ensures
            missing@.no_duplicates(),
            forall|k: int| 0 <= k < missing@.len() ==> #[trigger] missing@[k] < self@.len(),
            forall|k: int| 0 <= k < missing@.len() ==> !order@.contains(self@[#[trigger] missing@[k] as int].id),
            forall|i: int| 0 <= i < self@.len() ==> order@.contains(#[trigger] self@[i].id) || missing@.contains(i as usize),
            missing@ == missing_indices(self@, order@, self@.len() as int),
    {
        let mut missing: Vec<usize> = Vec::new();
        let mut i: usize = 0;
        while i < self.observations.len()
            invariant
                i <= self@.len(),
                forall|k: int| 0 <= k < missing@.len() ==> #[trigger] missing@[k] < i,
                forall|k1: int, k2: int| 0 <= k1 < k2 < missing@.len() ==> #[trigger] missing@[k1] < #[trigger] missing@[k2],
                forall|k: int| 0 <= k < missing@.len() ==> !order@.contains(self@[#[trigger] missing@[k] as int].id),
                forall|m: int| 0 <= m < i ==> order@.contains(#[trigger] self@[m].id) || missing@.contains(m as usize),
                missing@ == missing_indices(self@, order@, i as int),
            decreases self@.len() - i,
        {
            let ghost before_push = missing@;
            if find_id(order, self.observations[i].id).is_none() {
                missing.push(i);
                proof {
                    assert(missing@[missing@.len() - 1] == i);
                    assert forall|u: usize| before_push.contains(u) implies missing@.contains(u) by {
                        let j = choose|j: int| 0 <= j < before_push.len() && before_push[j] == u;
                        assert(missing@[j] == before_push[j]);
                    }
                    assert(missing@.contains(i));
                }
            }
            i += 1;
        }
        proof {
            assert forall|k1: int, k2: int| 0 <= k1 < missing@.len() && 0 <= k2 < missing@.len() && k1 != k2
                implies missing@[k1] != missing@[k2] by {
                if k1 < k2 {
                    assert(missing@[k1] < missing@[k2]);
                } else {
                    assert(missing@[k2] < missing@[k1]);
                }
            }
        }
        missing
    }

    /// Some member of `missing` whose observation must precede the one at
    /// `missing[k]`, if any.
    fn blocker(&self, missing: &Vec<usize>, k: usize) -> (r: Option<usize>)
        requires
            k < missing.len(),
            forall|m: int| 0 <= m < missing@.len() ==> #[trigger] missing@[m] < self@.len(),
        ensures
            match r {
                Some(m) => m < missing.len() && observation_precedes(
                    self@[missing@[m as int] as int],
                    self@[missing@[k as int] as int],
                ),
                None => forall|m: int|
                    0 <= m < missing@.len() ==> !observation_precedes(
                        #[trigger] self@[missing@[m] as int],
                        self@[missing@[k as int] as int],
                    ),
            },
    {
        let target = &self.observations[missing[k]];
        let mut m: usize = 0;
        while m < missing.len()
            invariant
                k < missing.len(),
                m <= missing.len(),
                forall|j: int| 0 <= j < missing@.len() ==> #[trigger] missing@[j] < self@.len(),
                *target == self@[missing@[k as int] as int],
                forall|j: int|
                    0 <= j < m ==> !observation_precedes(
                        #[trigger] self@[missing@[j] as int],
                        self@[missing@[k as int] as int],
                    ),
            decreases missing.len() - m,
        {
            if precedes(&self.observations[missing[m]], target) {
                return Some(m);
            }
            m += 1;
        }
        None
    }

    /// Among the members of `missing` that no other member must precede, the
    /// one with the smallest (client, sequence); `None` when every member has
    /// a member that must precede it.
    fn next_unanchored(&self, missing: &Vec<usize>) -> (r: Option<usize>)
        requires
            forall|m: int| 0 <= m < missing@.len() ==> #[trigger] missing@[m] < self@.len(),
        ensures
            match r {
                Some(chosen) => is_next(self@, missing@, chosen as int),
                None => forall|k: int| 0 <= k < missing@.len() ==> #[trigger] blocked(self@, missing@, k),
            },
    {
        let mut best: Option<usize> = None;
        let mut k: usize = 0;
        while k < missing.len()
            invariant
                k <= missing.len(),
                forall|m: int| 0 <= m < missing@.len() ==> #[trigger] missing@[m] < self@.len(),
                match best {
                    Some(b) => b < k && !blocked(self@, missing@, b as int) && forall|j: int|
                        0 <= j < k && !#[trigger] blocked(self@, missing@, j) ==> id_key_le(
                            self@[missing@[b as int] as int].id,
                            self@[missing@[j] as int].id,
                        ),
                    None => forall|j: int| 0 <= j < k ==> #[trigger] blocked(self@, missing@, j),
                },
            decreases missing.len() - k,
        {
            match self.blocker(missing, k) {
                Some(m) => {
                    proof {
                        assert(observation_precedes(
                            self@[missing@[m as int] as int],
                            self@[missing@[k as int] as int],
                        ));
                        assert(blocked(self@, missing@, k as int));
                    }
                },
                None => {
                    proof {
                        assert(!blocked(self@, missing@, k as int));
                    }
                    let better = match best {
                        None => true,
                        Some(b) => {
                            let candidate_id = self.observations[missing[k]].id;
                            let best_id = self.observations[missing[b]].id;
                            candidate_id.client < best_id.client || (candidate_id.client
                                == best_id.client && candidate_id.sequence < best_id.sequence)
                        },
                    };
                    if better {
                        best = Some(k);
                    }
                },
            }
            k += 1;
        }
        best
    }

    /// The earliest and latest legal insertion points for `x` in `order`: no
    /// operation placed at or after `after` must precede `x`, and none placed
    /// before `before` must follow it.
    fn insertion_bounds(&self, order: &Vec<OperationId>, x: usize) -> (r: (
        usize,
        usize,
        Ghost<int>,
        Ghost<int>,
    ))
        requires
            x < self@.len(),
            ids_unique(self@),
            all_known(self@, order@),
        ensures
            r.0 <= order.len(),
            r.1 <= order.len(),
            r.0 == earliest_slot(self@, order@, x as int),
            forall|p: int, i: int|
                0 <= p < order@.len() && 0 <= i < self@.len() && #[trigger] order@[p] == #[trigger] self@[i].id
                    && observation_precedes(self@[i], self@[x as int]) ==> p < r.0,
            forall|p: int, i: int|
                0 <= p < order@.len() && 0 <= i < self@.len() && #[trigger] order@[p] == #[trigger] self@[i].id
                    && observation_precedes(self@[x as int], self@[i]) ==> p >= r.1,
            r.0 > 0 ==> 0 <= r.2@ < self@.len() && observation_precedes(self@[r.2@], self@[x as int])
                && order@[r.0 - 1] == self@[r.2@].id,
            r.1 < order.len() ==> 0 <= r.3@ < self@.len() && observation_precedes(self@[x as int], self@[r.3@])
                && order@[r.1 as int] == self@[r.3@].id,
    {
        let target = &self.observations[x];
        let mut after: usize = 0;
        let mut before: usize = order.len();
        let ghost mut after_source: int = 0;
        let ghost mut before_source: int = 0;
        let mut p: usize = 0;
        while p < order.len()
            invariant
                x < self@.len(),
                ids_unique(self@),
                *target == self@[x as int],
                all_known(self@, order@),
                p <= order.len(),
                after <= p,
                after == earliest_slot(self@, order@.take(p as int), x as int),
                before <= order.len(),
                forall|q: int, i: int|
                    0 <= q < p && 0 <= i < self@.len() && #[trigger] order@[q] == #[trigger] self@[i].id
                        && observation_precedes(self@[i], self@[x as int]) ==> q < after,
                forall|q: int, i: int|
                    0 <= q < p && 0 <= i < self@.len() && #[trigger] order@[q] == #[trigger] self@[i].id
                        && observation_precedes(self@[x as int], self@[i]) ==> q >= before,
                after > 0 ==> 0 <= after_source < self@.len() && observation_precedes(
                    self@[after_source],
                    self@[x as int],
                ) && order@[after - 1] == self@[after_source].id,
                before < order.len() ==> 0 <= before_source < self@.len() && observation_precedes(
                    self@[x as int],
                    self@[before_source],
                ) && order@[before as int] == self@[before_source].id,
            decreases order.len() - p,
        {
            assert(has_id(self@, order@[p as int]));
            let placed_index = match self.find_observation(order[p]) {
                Some(i) => i,
                None => {
                    assert(false);
                    0
                },
            };
            let placed = &self.observations[placed_index];
            proof {
                let prefix = order@.take(p + 1);
                assert(prefix.drop_last() =~= order@.take(p as int));
                assert(prefix.last() == order@[p as int]);
                assert(id_precedes(self@, order@[p as int], x as int) <== observation_precedes(
                    self@[placed_index as int],
                    self@[x as int],
                ));
                if id_precedes(self@, order@[p as int], x as int) {
                    let i = choose|i: int|
                        0 <= i < self@.len() && #[trigger] self@[i].id == order@[p as int] && observation_precedes(
                            self@[i],
                            self@[x as int],
                        );
                    assert(self@[i].id == self@[placed_index as int].id);
                    assert(i == placed_index);
                }
            }
            if precedes(placed, target) {
                after = p + 1;
                proof {
                    after_source = placed_index as int;
                }
            }
            if precedes(target, placed) && p < before {
                before = p;
                proof {
                    before_source = placed_index as int;
                }
            }
            proof {
                assert forall|q: int, i: int|
                    0 <= q < p + 1 && 0 <= i < self@.len() && #[trigger] order@[q] == #[trigger] self@[i].id
                        && observation_precedes(self@[i], self@[x as int]) implies q < after by {
                    if q == p {
                        assert(self@[i].id == self@[placed_index as int].id);
                        assert(i == placed_index);
                    }
                }
                assert forall|q: int, i: int|
                    0 <= q < p + 1 && 0 <= i < self@.len() && #[trigger] order@[q] == #[trigger] self@[i].id
                        && observation_precedes(self@[x as int], self@[i]) implies q >= before by {
                    if q == p {
                        assert(self@[i].id == self@[placed_index as int].id);
                        assert(i == placed_index);
                    }
                }
            }
            p += 1;
        }
        assert(order@.take(order.len() as int) =~= order@);
        (after, before, Ghost(after_source), Ghost(before_source))
    }
}

/// Inserting `obs[x]` after everything that must precede it and before
/// everything it must precede keeps the placed precedences.
proof fn lemma_insert_keeps_precedence<Op, Out, Tag>(
    obs: Seq<Observation<Op, Out, Tag>>,
    anchors: Seq<OperationId>,
    order: Seq<OperationId>,
    after: int,
    x: int,
)
    requires
        ids_unique(obs),
        0 <= x < obs.len(),
        0 <= after <= order.len(),
        !order.contains(obs[x].id),
        !anchors.contains(obs[x].id),
        !observation_precedes(obs[x], obs[x]),
        forall|p: int, i: int|
            0 <= p < order.len() && 0 <= i < obs.len() && #[trigger] order[p] == #[trigger] obs[i].id
                && observation_precedes(obs[i], obs[x]) ==> p < after,
        forall|p: int, i: int|
            0 <= p < order.len() && 0 <= i < obs.len() && #[trigger] order[p] == #[trigger] obs[i].id
                && observation_precedes(obs[x], obs[i]) ==> p >= after,
        placed_precedence_kept(obs, anchors, order),
    ensures
        placed_precedence_kept(obs, anchors, order.insert(after, obs[x].id)),
{
    let new = order.insert(after, obs[x].id);
    assert forall|a: int, b: int|
        0 <= a < obs.len() && 0 <= b < obs.len() && observation_precedes(
            #[trigger] obs[a],
            #[trigger] obs[b],
        ) && (!anchors.contains(obs[a].id) || !anchors.contains(obs[b].id)) && new.contains(obs[a].id)
            && new.contains(obs[b].id) implies placed_before(new, obs[a].id, obs[b].id) by {
        assert forall|p: int, q: int|
            0 <= p < new.len() && 0 <= q < new.len() && #[trigger] new[p] == obs[a].id && #[trigger] new[q]
                == obs[b].id implies p < q by {
            let p0 = if p < after { p } else { p - 1 };
            let q0 = if q < after { q } else { q - 1 };
            if p == after && q == after {
                assert(a == x) by {
                    if a != x {
                        assert(obs[a].id != obs[x].id);
                    }
                }
                assert(b == x) by {
                    if b != x {
                        assert(obs[b].id != obs[x].id);
                    }
                }
            } else if p == after {
                assert(a == x) by {
                    if a != x {
                        assert(obs[a].id != obs[x].id);
                    }
                }
                assert(order[q0] == obs[b].id);
            } else if q == after {
                assert(b == x) by {
                    if b != x {
                        assert(obs[b].id != obs[x].id);
                    }
                }
                assert(order[p0] == obs[a].id);
            } else {
                assert(order[p0] == obs[a].id);
                assert(order[q0] == obs[b].id);
                assert(order.contains(obs[a].id));
                assert(order.contains(obs[b].id));
                assert(placed_before(order, obs[a].id, obs[b].id));
                assert(p0 < q0);
            }
        }
    }
}

/// At most one member of `missing` is the next one to place.
proof fn lemma_next_unique<Op, Out, Tag>(obs: Seq<Observation<Op, Out, Tag>>, missing: Seq<usize>, k1: int, k2: int)
    requires
        ids_unique(obs),
        missing.no_duplicates(),
        forall|m: int| 0 <= m < missing.len() ==> #[trigger] missing[m] < obs.len(),
        is_next(obs, missing, k1),
        is_next(obs, missing, k2),
    ensures
        k1 == k2,
{
    let a = missing[k1] as int;
    let b = missing[k2] as int;
    assert(id_key_le(obs[a].id, obs[b].id));
    assert(id_key_le(obs[b].id, obs[a].id));
    assert(obs[a].id == obs[b].id);
    if a != b {
        assert(obs[a].id != obs[b].id);
    }
}

/// Everything an embedded sequence holds, the larger sequence holds too.
proof fn lemma_embedded_contains(small: Seq<OperationId>, big: Seq<OperationId>, pos: Seq<int>, y: OperationId)
    requires
        embeds(small, big, pos),
        small.contains(y),
    ensures
        big.contains(y),
{
    let k = choose|k: int| 0 <= k < small.len() && small[k] == y;
    assert(big[pos[k]] == y);
}

impl<Operation, Output, Tag> History<Operation, Output, Tag> {
    /// Insert the operations missing from an anchored candidate while
    /// preserving client order and real-time precedence.
    ///
    /// Operations are taken one at a time: among the missing operations that
    /// no other missing operation must precede, the one with the smallest
    /// (client, sequence) goes first, and it is inserted at the earliest
    /// position after everything already placed that must precede it. The
    /// anchors keep their relative order. On a history with distinct ids and
    /// a candidate of distinct, known ids, the result is `completion` of the
    /// candidate and the missing operations in history order.
    pub fn complete_candidate(&self, candidate: Vec<OperationId>) -> (r: Result<
        Vec<OperationId>,
        HistoryError,
    >)
        ensures
            ids_unique(self@) && candidate@.no_duplicates() && all_known(self@, candidate@) ==> match completion(
                self@,
                candidate@,
                missing_indices(self@, candidate@, self@.len() as int),
            ) {
                Ok(completed) => r matches Ok(order) && order@ == completed,
                Err(e) => r matches Err(f) && f == e,
            },
            match r {
                Ok(order) => is_permutation_of(self@, order@) && is_subsequence(candidate@, order@)
                    && unanchored_precedence_kept(self@, candidate@, order@),
                Err(HistoryError::DuplicateOperationIds) => !ids_unique(self@),
                Err(HistoryError::CandidateInvalid) => ids_unique(self@) && !(candidate@.no_duplicates()
                    && all_known(self@, candidate@)),
                Err(HistoryError::OrderingCycle) => ids_unique(self@) && candidate@.no_duplicates()
                    && all_known(self@, candidate@) && unanchored_cycle(self@, candidate@),
                Err(HistoryError::NoPosition { id }) => ids_unique(self@) && candidate@.no_duplicates()
                    && all_known(self@, candidate@) && !candidate@.contains(id) && exists|x: int, a: int, b: int|
                    0 <= x < self@.len() && 0 <= a < self@.len() && 0 <= b < self@.len() && #[trigger] self@[x].id
                        == id && observation_precedes(#[trigger] self@[a], self@[x]) && observation_precedes(
                        self@[x],
                        #[trigger] self@[b],
                    ),
                Err(_) => false,
            },
    {
        if !self.ids_are_unique() {
            return Err(HistoryError::DuplicateOperationIds);
        }
        if !(ids_distinct(&candidate) && self.all_ids_known(&candidate)) {
            return Err(HistoryError::CandidateInvalid);
        }
        let ghost anchors = candidate@;
        let mut order = candidate;
        let mut missing = self.missing_from(&order);
        let ghost mut pos: Seq<int> = Seq::new(anchors.len(), |k: int| k);
        proof {
            assert(embeds(anchors, order@, pos));
            assert forall|a: int, b: int|
                0 <= a < self@.len() && 0 <= b < self@.len() && observation_precedes(
                    #[trigger] self@[a],
                    #[trigger] self@[b],
                ) && (!anchors.contains(self@[a].id) || !anchors.contains(self@[b].id)) && order@.contains(
                    self@[a].id,
                ) && order@.contains(self@[b].id) implies placed_before(order@, self@[a].id, self@[b].id) by {
            }
        }
        while missing.len() > 0
            invariant
                ids_unique(self@),
                anchors == candidate@,
                anchors.no_duplicates(),
                all_known(self@, anchors),
                order@.no_duplicates(),
                all_known(self@, order@),
                missing@.no_duplicates(),
                forall|k: int| 0 <= k < missing@.len() ==> #[trigger] missing@[k] < self@.len(),
                forall|k: int| 0 <= k < missing@.len() ==> !order@.contains(self@[#[trigger] missing@[k] as int].id),
                forall|i: int| 0 <= i < self@.len() ==> order@.contains(#[trigger] self@[i].id) || missing@.contains(i as usize),
                embeds(anchors, order@, pos),
                placed_precedence_kept(self@, anchors, order@),
                completion(self@, order@, missing@) == completion(
                    self@,
                    anchors,
                    missing_indices(self@, anchors, self@.len() as int),
                ),
            decreases missing.len(),
        {
            let k = match self.next_unanchored(&missing) {
                Some(k) => k,
                None => {
                    proof {
                        assert forall|j: int| 0 <= j < missing@.len() implies #[trigger] missing@[j] < self@.len()
                            && !anchors.contains(self@[missing@[j] as int].id) by {
                            if anchors.contains(self@[missing@[j] as int].id) {
                                lemma_embedded_contains(anchors, order@, pos, self@[missing@[j] as int].id);
                            }
                        }
                        assert(unanchored_cycle(self@, anchors));
                        assert(!exists|j: int| is_next(self@, missing@, j));
                    }
                    return Err(HistoryError::OrderingCycle);
                },
            };
            let ghost old_missing = missing@;
            proof {
                let chosen = choose|j: int| is_next(self@, missing@, j);
                lemma_next_unique(self@, missing@, chosen, k as int);
            }
            let x = missing.remove(k);
            let (after, before, Ghost(after_source), Ghost(before_source)) = self.insertion_bounds(&order, x);
            proof {
                assert(old_missing[k as int] == x);
                assert(!observation_precedes(self@[x as int], self@[x as int])) by {
                    assert(!observation_precedes(
                        self@[old_missing[k as int] as int],
                        self@[old_missing[k as int] as int],
                    ));
                }
                assert(!order@.contains(self@[x as int].id));
            }
            if after > before {
                let id = self.observations[x].id;
                proof {
                    assert(!anchors.contains(id)) by {
                        if anchors.contains(id) {
                            lemma_embedded_contains(anchors, order@, pos, id);
                        }
                    }
                    assert(self@[x as int].id == id);
                    assert(observation_precedes(self@[after_source], self@[x as int]));
                    assert(observation_precedes(self@[x as int], self@[before_source]));
                    assert(id_follows(self@, order@[before as int], x as int));
                    assert(slot_blocked(self@, order@, x as int, after as int));
                }
                return Err(HistoryError::NoPosition { id });
            }
            let id = self.observations[x].id;
            let ghost old_order = order@;
            proof {
                assert(!anchors.contains(id)) by {
                    if anchors.contains(id) {
                        lemma_embedded_contains(anchors, order@, pos, id);
                    }
                }
                lemma_insert_keeps_precedence(self@, anchors, order@, after as int, x as int);
                assert(!slot_blocked(self@, order@, x as int, after as int)) by {
                    if slot_blocked(self@, order@, x as int, after as int) {
                        let p = choose|p: int|
                            0 <= p < after && p < order@.len() && id_follows(self@, #[trigger] order@[p], x as int);
                        let i = choose|i: int|
                            0 <= i < self@.len() && #[trigger] self@[i].id == order@[p] && observation_precedes(
                                self@[x as int],
                                self@[i],
                            );
                        assert(p >= before);
                    }
                }
            }
            order.insert(after, id);
            proof {
                let ins = after as int;
                assert(order@ == old_order.insert(ins, id));
                // the new order has no duplicates and only known ids
                assert forall|p: int, q: int| 0 <= p < order@.len() && 0 <= q < order@.len() && p != q
                    implies order@[p] != order@[q] by {
                    let p0 = if p < ins { p } else { p - 1 };
                    let q0 = if q < ins { q } else { q - 1 };
                    if p != ins && q != ins {
                        assert(old_order[p0] == order@[p]);
                        assert(old_order[q0] == order@[q]);
                    } else if p == ins {
                        assert(old_order[q0] == order@[q]);
                        assert(old_order.contains(order@[q]));
                    } else {
                        assert(old_order[p0] == order@[p]);
                        assert(old_order.contains(order@[p]));
                    }
                }
                assert forall|p: int| 0 <= p < order@.len() implies has_id(self@, #[trigger] order@[p]) by {
                    if p == ins {
                        assert(self@[x as int].id == order@[p]);
                    } else {
                        let p0 = if p < ins { p } else { p - 1 };
                        assert(old_order[p0] == order@[p]);
                        assert(has_id(self@, old_order[p0]));
                    }
                }
                // the remaining missing operations
                assert forall|j: int| 0 <= j < missing@.len() implies #[trigger] missing@[j] < self@.len() by {
                    let j0 = if j < k { j } else { j + 1 };
                    assert(missing@[j] == old_missing[j0]);
                }
                assert forall|j1: int, j2: int| 0 <= j1 < missing@.len() && 0 <= j2 < missing@.len() && j1 != j2
                    implies missing@[j1] != missing@[j2] by {
                    let a1 = if j1 < k { j1 } else { j1 + 1 };
                    let a2 = if j2 < k { j2 } else { j2 + 1 };
                    assert(missing@[j1] == old_missing[a1]);
                    assert(missing@[j2] == old_missing[a2]);
                }
                assert forall|j: int| 0 <= j < missing@.len() implies !order@.contains(
                    self@[#[trigger] missing@[j] as int].id,
                ) by {
                    let j0 = if j < k { j } else { j + 1 };
                    assert(missing@[j] == old_missing[j0]);
                    assert(j0 != k);
                    assert(old_missing[j0] != x);
                    let m = missing@[j] as int;
                    assert(self@[m].id != self@[x as int].id);
                    if order@.contains(self@[m].id) {
                        let p = choose|p: int| 0 <= p < order@.len() && order@[p] == self@[m].id;
                        if p != ins {
                            let p0 = if p < ins { p } else { p - 1 };
                            assert(old_order[p0] == self@[m].id);
                        }
                    }
                }
                assert forall|i: int| 0 <= i < self@.len() implies order@.contains(#[trigger] self@[i].id)
                    || missing@.contains(i as usize) by {
                    if i == x as int {
                        assert(order@[ins] == self@[i].id);
                    } else if old_order.contains(self@[i].id) {
                        let p0 = choose|p0: int| 0 <= p0 < old_order.len() && old_order[p0] == self@[i].id;
                        let p = if p0 < ins { p0 } else { p0 + 1 };
                        assert(order@[p] == self@[i].id);
                    } else {
                        assert(old_missing.contains(i as usize));
                        let j0 = choose|j0: int| 0 <= j0 < old_missing.len() && old_missing[j0] == i as usize;
                        assert(self@.len() == self.observations@.len());
                        assert(self.observations@.len() == self.observations.len());
                        assert(0 <= i <= usize::MAX);
                        assert(i as usize != x);
                        assert(j0 != k);
                        let j = if j0 < k { j0 } else { j0 - 1 };
                        assert(missing@[j] == i as usize);
                    }
                }
                // the anchors keep their places, shifted past the insertion point
                let old_pos = pos;
                pos = Seq::new(anchors.len(), |m: int| if old_pos[m] < ins { old_pos[m] } else { old_pos[m] + 1 });
                assert forall|m: int| 0 <= m < anchors.len() implies 0 <= #[trigger] pos[m] < order@.len()
                    && order@[pos[m]] == anchors[m] by {
                    assert(old_order[old_pos[m]] == anchors[m]);
                }
                assert forall|m1: int, m2: int| 0 <= m1 < m2 < anchors.len() implies #[trigger] pos[m1]
                    < #[trigger] pos[m2] by {
                    assert(old_pos[m1] < old_pos[m2]);
                }
                assert(embeds(anchors, order@, pos));
            }
        }
        proof {
            assert(covers_all(self@, order@)) by {
                assert forall|i: int| 0 <= i < self@.len() implies order@.contains(#[trigger] self@[i].id) by {
                    if !order@.contains(self@[i].id) {
                        assert(missing@.contains(i as usize));
                    }
                }
            }
            lemma_permutation_length(self@, order@);
            assert(is_subsequence(anchors, order@));
            assert forall|a: int, b: int|
                0 <= a < self@.len() && 0 <= b < self@.len() && observation_precedes(
                    #[trigger] self@[a],
                    #[trigger] self@[b],
                ) && (!anchors.contains(self@[a].id) || !anchors.contains(self@[b].id)) implies placed_before(
                order@,
                self@[a].id,
                self@[b].id,
            ) by {
                assert(order@.contains(self@[a].id));
                assert(order@.contains(self@[b].id));
            }
        }
        Ok(order)
    }
}

/// The debug rendering of an operation id.
pub open spec fn operation_id_text(id: OperationId) -> Seq<char> {
    "OperationId { client: "@ + decimal(id.client as nat) + ", sequence: "@ + decimal(id.sequence as nat)
        + " }"@
}

/// The human-readable description of a history error.
pub open spec fn history_error_text(e: HistoryError) -> Seq<char> {
    match e {
        HistoryError::DuplicateOperationIds => "history contains duplicate operation IDs"@,
        HistoryError::CandidateNotPermutation => "candidate must contain every observed operation exactly once"@,
        HistoryError::CandidateInvalid => "candidate contains duplicate or unknown operation IDs"@,
        HistoryError::EndedBeforeStart { id } => "operation "@ + operation_id_text(id) + " ended before it started"@,
        HistoryError::MalformedSequence { client } => "client "@ + decimal(client as nat)
            + " has a malformed operation sequence"@,
        HistoryError::Overlap { client, first, second } => "client "@ + decimal(client as nat) + " operations "@
            + decimal(first as nat) + " and "@ + decimal(second as nat) + " overlap"@,
        HistoryError::ReversedClientOrder { client, previous, sequence } => "candidate reverses client "@
            + decimal(client as nat) + " operations "@ + decimal(previous as nat) + " and "@ + decimal(
            sequence as nat,
        ),
        HistoryError::RealTimeViolation { before, after } => "candidate places "@ + operation_id_text(before)
            + " after "@ + operation_id_text(after) + ", despite real-time precedence"@,
        HistoryError::OperationFailed { id, message } => "operation "@ + operation_id_text(id) + ": "@ + message@,
        HistoryError::OrderingCycle => "unanchored operations contain an ordering cycle"@,
        HistoryError::NoPosition { id } => "no candidate position for "@ + operation_id_text(id),
    }
}

impl OperationId {
    /// Append the debug rendering of this id to `s`.
    pub fn append_text(&self, s: &mut String)
        ensures
            final(s)@ == old(s)@ + operation_id_text(*self),
    {
        append_str(s, "OperationId { client: ");
        append_u128(s, self.client as u128);
        append_str(s, ", sequence: ");
        append_u128(s, self.sequence as u128);
        append_str(s, " }");
        assert(final(s)@ =~= old(s)@ + operation_id_text(*self));
    }
}

impl HistoryError {
    /// The human-readable description of this error.
    pub fn message(&self) -> (m: String)
        ensures
            m@ == history_error_text(*self),
    {
        let mut s = String::new();
        match self {
            HistoryError::DuplicateOperationIds => append_str(&mut s, "history contains duplicate operation IDs"),
            HistoryError::CandidateNotPermutation => append_str(
                &mut s,
                "candidate must contain every observed operation exactly once",
            ),
            HistoryError::CandidateInvalid => append_str(&mut s, "candidate contains duplicate or unknown operation IDs"),
            HistoryError::EndedBeforeStart { id } => {
                append_str(&mut s, "operation ");
                id.append_text(&mut s);
                append_str(&mut s, " ended before it started");
            },
            HistoryError::MalformedSequence { client } => {
                append_str(&mut s, "client ");
                append_u128(&mut s, *client as u128);
                append_str(&mut s, " has a malformed operation sequence");
            },
            HistoryError::Overlap { client, first, second } => {
                append_str(&mut s, "client ");
                append_u128(&mut s, *client as u128);
                append_str(&mut s, " operations ");
                append_u128(&mut s, *first as u128);
                append_str(&mut s, " and ");
                append_u128(&mut s, *second as u128);
                append_str(&mut s, " overlap");
            },
            HistoryError::ReversedClientOrder { client, previous, sequence } => {
                append_str(&mut s, "candidate reverses client ");
                append_u128(&mut s, *client as u128);
                append_str(&mut s, " operations ");
                append_u128(&mut s, *previous as u128);
                append_str(&mut s, " and ");
                append_u128(&mut s, *sequence as u128);
            },
            HistoryError::RealTimeViolation { before, after } => {
                append_str(&mut s, "candidate places ");
                before.append_text(&mut s);
                append_str(&mut s, " after ");
                after.append_text(&mut s);
                append_str(&mut s, ", despite real-time precedence");
            },
            HistoryError::OperationFailed { id, message } => {
                append_str(&mut s, "operation ");
                id.append_text(&mut s);
                append_str(&mut s, ": ");
                append_str(&mut s, message.as_str());
            },
            HistoryError::OrderingCycle => append_str(&mut s, "unanchored operations contain an ordering cycle"),
            HistoryError::NoPosition { id } => {
                append_str(&mut s, "no candidate position for ");
                id.append_text(&mut s);
            },
        }
        assert(s@ =~= history_error_text(*self));
        s
    }
}

impl<Operation: Clone, Output: Clone, Tag: Clone> History<Operation, Output, Tag> {
    /// A cloned snapshot of the recorded observations.
    pub fn observations(&self) -> (r: Vec<Observation<Operation, Output, Tag>>)
        ensures
            r@.len() == self@.len(),
            forall|i: int| 0 <= i < r@.len() ==> cloned::<Observation<Operation, Output, Tag>>(self@[i], #[trigger] r@[i]),
    {
        self.observations.clone()
    }
}

} // verus!
