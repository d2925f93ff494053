//! Sequential specifications, objects under test, the clients and workers
//! that exercise them, and a candidate order built from ordering tags.

use vstd::prelude::*;

use crate::history::CompletedOperation;
use crate::history::History;
use crate::history::HistoryError;
use crate::history::verify_outcome;
use crate::history::Observation;
use crate::history::OperationId;
use crate::text::append_str;
use crate::time::Clock;

verus! {

/// The visible output and implementation-defined ordering evidence for an
/// operation.
#[derive(Clone, Debug)]
pub struct OperationResult<Output, Tag> {
    pub output: Output,
    pub tag: Tag,
}

/// Renders `value` with its `Debug` impl, through `format!`. Nothing is
/// claimed of the text: it is whatever the value's `Debug` impl writes.
#[verifier::external_body]
fn debug_rendering<T: core::fmt::Debug>(value: &T) -> (s: String) {
    format!("{:?}", value)
}

/// The message of a failed replay check, around the two renderings.
pub open spec fn replay_mismatch_text(observed: Seq<char>, expected: Seq<char>) -> Seq<char> {
    "observed "@ + observed + ", but sequential replay produced "@ + expected
}

/// A sequential specification used to check an observed execution.
pub trait SequentialSpec: Sized {
    type Operation;
    type Output: core::fmt::Debug;

    /// The initial state.
    spec fn spec_new() -> Self;

    /// The initial state.
    fn new() -> (s: Self)
        ensures
            s == Self::spec_new(),
    ;

    /// The state and output after applying an operation.
    spec fn spec_apply(state: Self, operation: Self::Operation) -> (Self, Self::Output);

    /// Apply an operation to the state, giving its output.
    fn apply(&mut self, operation: &Self::Operation) -> (out: Self::Output)
        ensures
            (*final(self), out) == Self::spec_apply(*old(self), *operation),
    ;

    /// Whether the operation changes the state.
    spec fn spec_is_write(operation: Self::Operation) -> bool;

    /// Whether the operation changes the state.
    fn is_write(operation: &Self::Operation) -> (b: bool)
        ensures
            b == Self::spec_is_write(*operation),
    ;

    /// Whether a replayed output matches an observed one.
    spec fn spec_outputs_match(expected: Self::Output, observed: Self::Output) -> bool;

    /// Whether the replayed output matches the observed one.
    fn outputs_match(expected: &Self::Output, observed: &Self::Output) -> (b: bool)
        ensures
            b == Self::spec_outputs_match(*expected, *observed),
    ;

    /// Apply an operation and check that its output is the observed one:
    /// the state moves on as `apply` moves it, and the check succeeds
    /// exactly when the replayed output matches the observed one.
    fn verify_and_apply(&mut self, operation: &Self::Operation, observed: &Self::Output) -> (r: Result<(), String>)
        ensures
            *final(self) == Self::spec_apply(*old(self), *operation).0,
            r is Ok <==> Self::spec_outputs_match(Self::spec_apply(*old(self), *operation).1, *observed),
        default_ensures
            r matches Err(m) ==> exists|observed_text: Seq<char>, expected_text: Seq<char>|
                m@ == #[trigger] replay_mismatch_text(observed_text, expected_text),
    {
        let expected = self.apply(operation);
        if Self::outputs_match(&expected, observed) {
            Ok(())
        } else {
            let observed_text = debug_rendering(observed);
            let expected_text = debug_rendering(&expected);
            let mut m = String::new();
            append_str(&mut m, "observed ");
            append_str(&mut m, observed_text.as_str());
            append_str(&mut m, ", but sequential replay produced ");
            append_str(&mut m, expected_text.as_str());
            proof {
                assert(m@ == replay_mismatch_text(observed_text@, expected_text@));
            }
            Err(m)
        }
    }
}

/// An implementation of a linearizable object under test.
pub trait LinearizableObject {
    type Operation;
    type Output;
    type Tag;

    /// Whether `result` is a result that running `operation`, identified by
    /// `id`, can give.
    spec fn executes(
        &self,
        id: OperationId,
        operation: Self::Operation,
        result: OperationResult<Self::Output, Self::Tag>,
    ) -> bool;

    /// Run one operation, identified by `id`.
    fn execute(&self, id: OperationId, operation: Self::Operation) -> (r: OperationResult<Self::Output, Self::Tag>)
        ensures
            self.executes(id, operation, r),
    ;
}

/// One concurrent client in a generated workload.
#[derive(Clone, Debug)]
pub struct Client<Operation> {
    pub name: String,
    pub operations: Vec<Operation>,
}

impl<Operation> Client<Operation> {
    pub fn new(name: &str, operations: Vec<Operation>) -> (c: Self)
        ensures
            c.name@ == name@,
            c.operations == operations,
    {
        let mut n = String::new();
        append_str(&mut n, name);
        Client { name: n, operations }
    }
}

/// A workload must have at least one client; the error names the rule.
pub fn check_workload<Operation>(clients: &Vec<Client<Operation>>) -> (r: Result<(), String>)
    ensures
        r is Err <==> clients@.len() == 0,
        r matches Err(m) ==> m@ == "linearizability workload should have at least one client"@,
{
    if clients.len() == 0 {
        let mut m = String::new();
        append_str(&mut m, "linearizability workload should have at least one client");
        proof {
            reveal_strlit("linearizability workload should have at least one client");
        }
        Err(m)
    } else {
        Ok(())
    }
}

/// One replay step: apply `operation` to `state` and check the output
/// against `observed`, handing the next state on when they match.
pub fn replay_step<S: SequentialSpec>(state: S, operation: &S::Operation, observed: &S::Output) -> (r: Result<S, String>)
    ensures
        r is Ok <==> S::spec_outputs_match(S::spec_apply(state, *operation).1, *observed),
        r matches Ok(next) ==> next == S::spec_apply(state, *operation).0,
{
    let mut next = state;
    match next.verify_and_apply(operation, observed) {
        Ok(()) => Ok(next),
        Err(m) => Err(m),
    }
}

/// Check the candidate order of a finished run against the sequential
/// specification, replayed from its initial state; on success, the number
/// of operations the run completed.
pub fn finish_linearizability_test<S: SequentialSpec, Tag>(
    history: &History<S::Operation, S::Output, Tag>,
    candidate: &Vec<OperationId>,
) -> (r: Result<usize, HistoryError>)
    ensures
        r matches Ok(n) ==> n == history@.len(),
        verify_outcome(
            history@,
            candidate@,
            replay_step::<S>,
            S::spec_new(),
            match r {
                Ok(_) => Ok(()),
                Err(e) => Err(e),
            },
        ),
{
    let initial = S::new();
    match history.verify(candidate, initial, replay_step::<S>) {
        Ok(()) => Ok(history.len()),
        Err(e) => Err(e),
    }
}

/// `o` records a result that `object` can give for a clone of the
/// recorded operation, under the recorded id.
pub open spec fn gave_result<Op: Clone, O: LinearizableObject<Operation = Op>>(
    object: O,
    o: Observation<Op, O::Output, O::Tag>,
) -> bool {
    exists|executed: Op|
        cloned(o.completed.operation, executed) && #[trigger] object.executes(
            o.id,
            executed,
            OperationResult { output: o.completed.output, tag: o.completed.tag },
        )
}

/// Executes one client's operations and records their observed results.
pub struct Worker<Operation> {
    pub client: usize,
    pub operations: Vec<Operation>,
}

impl<Operation: Clone> Worker<Operation> {
    /// A worker for one ordered sequence of client operations.
    pub fn new(client: usize, operations: Vec<Operation>) -> (w: Self)
        ensures
            w.client == client,
            w.operations == operations,
    {
        Worker { client, operations }
    }

    /// Execute every operation in order on `object`, timing each with
    /// `clock`, and record each as an observation of this client, with the
    /// output and tag that `object` gave for (a clone of) its operation.
    pub fn run<O, C>(self, history: &mut History<Operation, O::Output, O::Tag>, clock: &C, object: &O)
        where
            O: LinearizableObject<Operation = Operation>,
            C: Clock,
        ensures
            final(history)@.len() == old(history)@.len() + self.operations@.len(),
            forall|i: int|
                0 <= i < old(history)@.len() ==> #[trigger] final(history)@[i] == old(history)@[i],
            forall|k: int|
                0 <= k < self.operations@.len() ==> {
                    let o = #[trigger] final(history)@[old(history)@.len() + k];
                    &&& o.id == (OperationId { client: self.client, sequence: k as usize })
                    &&& o.completed.operation == self.operations@[k]
                    &&& gave_result(*object, o)
                },
    {
        let ghost all = self.operations@;
        let total = self.operations.len();
        assert(all.len() == total);
        let client = self.client;
        let mut remaining = self.operations;
        let mut sequence: usize = 0;
        while remaining.len() > 0
            invariant
                all.len() <= usize::MAX,
                sequence + remaining@.len() == all.len(),
                remaining@ == all.subrange(sequence as int, all.len() as int),
                history@.len() == old(history)@.len() + sequence,
                forall|i: int| 0 <= i < old(history)@.len() ==> #[trigger] history@[i] == old(history)@[i],
                forall|k: int|
                    0 <= k < sequence ==> {
                        let o = #[trigger] history@[old(history)@.len() + k];
                        &&& o.id == (OperationId { client, sequence: k as usize })
                        &&& o.completed.operation == all[k]
                        &&& gave_result(*object, o)
                    },
            decreases remaining@.len(),
        {
            let operation = remaining.remove(0);
            assert(operation == all[sequence as int]);
            let id = OperationId { client, sequence };
            let start_time = clock.monotonic_time();
            let executed = operation.clone();
            let ghost executed_view = executed;
            let result = object.execute(id, executed);
            let ghost outcome = result;
            let end_time = clock.monotonic_time();
            let ghost before = history@;
            history.record(
                Observation {
                    id,
                    start_time,
                    end_time,
                    completed: CompletedOperation { operation, output: result.output, tag: result.tag },
                },
            );
            proof {
                assert(remaining@ =~= all.subrange(sequence + 1, all.len() as int));
                assert forall|k: int| 0 <= k < sequence + 1 implies {
                    let o = #[trigger] history@[old(history)@.len() + k];
                    &&& o.id == (OperationId { client, sequence: k as usize })
                    &&& o.completed.operation == all[k]
                    &&& gave_result(*object, o)
                } by {
                    if k < sequence {
                        assert(history@[old(history)@.len() + k] == before[old(history)@.len() + k]);
                    } else {
                        let o = history@[old(history)@.len() + k];
                        assert(o.completed.output == outcome.output && o.completed.tag == outcome.tag);
                        assert(OperationResult { output: o.completed.output, tag: o.completed.tag } == outcome);
                        assert(object.executes(o.id, executed_view, outcome));
                        assert(gave_result(*object, o));
                    }
                }
            }
            sequence += 1;
        }
    }
}

/// The order key of an observation: its tag, then writes before reads,
/// then start time, client and sequence.
pub type OrderKey = (u64, bool, u128, usize, usize);

/// The key of an observation, given whether its operation only reads.
pub open spec fn order_key<Op, Out>(o: Observation<Op, Out, u64>, read: bool) -> OrderKey {
    (o.completed.tag, read, o.start_time.since_origin.nanos, o.id.client, o.id.sequence)
}

/// `a` comes no later than `b` in the lexicographic order of keys, with
/// `false` before `true`.
pub open spec fn key_le(a: OrderKey, b: OrderKey) -> bool {
    if a.0 != b.0 {
        a.0 < b.0
    } else if a.1 != b.1 {
        !a.1
    } else if a.2 != b.2 {
        a.2 < b.2
    } else if a.3 != b.3 {
        a.3 < b.3
    } else {
        a.4 <= b.4
    }
}

/// The key order is total and transitive.
pub proof fn lemma_key_order(a: OrderKey, b: OrderKey, c: OrderKey)
    ensures
        key_le(a, b) || key_le(b, a),
        key_le(a, b) && key_le(b, c) ==> key_le(a, c),
{
}

fn key_le_exec(a: OrderKey, b: OrderKey) -> (r: bool)
    ensures
        r == key_le(a, b),
{
    if a.0 != b.0 {
        a.0 < b.0
    } else if a.1 != b.1 {
        !a.1
    } else if a.2 != b.2 {
        a.2 < b.2
    } else if a.3 != b.3 {
        a.3 < b.3
    } else {
        a.4 <= b.4
    }
}

/// Which observations' operations only read.
pub open spec fn read_flags<S: SequentialSpec>(obs: Seq<Observation<S::Operation, S::Output, u64>>) -> Seq<bool> {
    obs.map_values(|o: Observation<S::Operation, S::Output, u64>| !S::spec_is_write(o.completed.operation))
}

/// The indices `idx` list the observations in key order, each once.
pub open spec fn key_sorted_permutation<Op, Out>(
    obs: Seq<Observation<Op, Out, u64>>,
    reads: Seq<bool>,
    idx: Seq<usize>,
) -> bool {
    &&& idx.len() == obs.len()
    &&& forall|k: int| 0 <= k < idx.len() ==> #[trigger] idx[k] < obs.len()
    &&& forall|k1: int, k2: int| 0 <= k1 < idx.len() && 0 <= k2 < idx.len() && k1 != k2 ==> #[trigger] idx[k1] != #[trigger] idx[k2]
    &&& forall|k1: int, k2: int|
        0 <= k1 < k2 < idx.len() ==> key_le(
            order_key(obs[#[trigger] idx[k1] as int], reads[idx[k1] as int]),
            order_key(obs[#[trigger] idx[k2] as int], reads[idx[k2] as int]),
        )
}

/// In a key-sorted order, tags never decrease; among equal tags writes come
/// before reads; then operations that started earlier come first, then lower
/// clients, then lower sequence numbers.
pub proof fn lemma_key_sorted_order<Op, Out>(
    obs: Seq<Observation<Op, Out, u64>>,
    reads: Seq<bool>,
    idx: Seq<usize>,
    k1: int,
    k2: int,
)
    requires
        key_sorted_permutation(obs, reads, idx),
        0 <= k1 < k2 < idx.len(),
    ensures
        ({
            let (i, j) = (idx[k1] as int, idx[k2] as int);
            let (a, b) = (obs[i], obs[j]);
            &&& a.completed.tag <= b.completed.tag
            &&& a.completed.tag == b.completed.tag && reads[i] ==> reads[j]
            &&& a.completed.tag == b.completed.tag && reads[i] == reads[j] ==> a.start_time.since_origin.nanos
                <= b.start_time.since_origin.nanos
            &&& a.completed.tag == b.completed.tag && reads[i] == reads[j] && a.start_time.since_origin.nanos
                == b.start_time.since_origin.nanos ==> a.id.client <= b.id.client
            &&& a.completed.tag == b.completed.tag && reads[i] == reads[j] && a.start_time.since_origin.nanos
                == b.start_time.since_origin.nanos && a.id.client == b.id.client ==> a.id.sequence <= b.id.sequence
        }),
{
    assert(key_le(
        order_key(obs[idx[k1] as int], reads[idx[k1] as int]),
        order_key(obs[idx[k2] as int], reads[idx[k2] as int]),
    ));
}

fn order_key_of<Op, Out>(o: &Observation<Op, Out, u64>, read: bool) -> (k: OrderKey)
    ensures
        k == order_key(*o, read),
{
    (o.completed.tag, read, o.start_time.since_origin.nanos, o.id.client, o.id.sequence)
}

/// A candidate order for a history whose operations carry comparable tags:
/// the operations sorted by tag, writes before reads, then start time,
/// client and sequence.
pub fn candidate_from_ordered_tags<S: SequentialSpec>(history: &History<S::Operation, S::Output, u64>) -> (r: Vec<
    OperationId,
>)
    ensures
        exists|idx: Seq<usize>|
            #[trigger] key_sorted_permutation(
                history@,
                read_flags::<S>(history@),
                idx,
            ) && r@.len() == idx.len() && forall|k: int| 0 <= k < idx.len() ==> #[trigger] r@[k] == history@[idx[k] as int].id,
{
    let n = history.len();
    let ghost obs = history@;
    let ghost reads_spec = read_flags::<S>(obs);
    let mut reads: Vec<bool> = Vec::new();
    let mut i: usize = 0;
    while i < n
        invariant
            i <= n,
            n == obs.len(),
            obs == history@,
            reads_spec == read_flags::<S>(obs),
            reads@ == reads_spec.subrange(0, i as int),
        decreases n - i,
    {
        let w = S::is_write(&history.get(i).completed.operation);
        reads.push(!w);
        i += 1;
        assert(reads@ =~= reads_spec.subrange(0, i as int));
    }
    assert(reads@ =~= reads_spec);
    let mut idx: Vec<usize> = Vec::new();
    let mut i: usize = 0;
    while i < n
        invariant
            i <= n,
            n == obs.len(),
            obs == history@,
            reads@ == reads_spec,
            reads_spec.len() == n,
            idx@.len() == i,
            forall|k: int| 0 <= k < idx@.len() ==> #[trigger] idx@[k] < i,
            forall|k1: int, k2: int| 0 <= k1 < idx@.len() && 0 <= k2 < idx@.len() && k1 != k2 ==> #[trigger] idx@[k1] != #[trigger] idx@[k2],
            forall|k1: int, k2: int|
                0 <= k1 < k2 < idx@.len() ==> key_le(
                    order_key(obs[#[trigger] idx@[k1] as int], reads_spec[idx@[k1] as int]),
                    order_key(obs[#[trigger] idx@[k2] as int], reads_spec[idx@[k2] as int]),
                ),
        decreases n - i,
    {
        let key = order_key_of(history.get(i), reads[i]);
        let mut p: usize = 0;
        let mut searching = true;
        while searching && p < idx.len()
            invariant
                p <= idx@.len(),
                idx@.len() == i,
                i < n,
                n == obs.len(),
                obs == history@,
                reads@ == reads_spec,
                reads_spec.len() == n,
                forall|k: int| 0 <= k < idx@.len() ==> #[trigger] idx@[k] < i,
                key == order_key(obs[i as int], reads_spec[i as int]),
                forall|q: int| 0 <= q < p ==> key_le(order_key(obs[#[trigger] idx@[q] as int], reads_spec[idx@[q] as int]), key),
                !searching ==> p < idx@.len() && !key_le(order_key(obs[idx@[p as int] as int], reads_spec[idx@[p as int] as int]), key),
            decreases idx@.len() - p + (if searching { 1int } else { 0int }),
        {
            let j = idx[p];
            let other = order_key_of(history.get(j), reads[j]);
            if key_le_exec(other, key) {
                p += 1;
            } else {
                searching = false;
            }
        }
        let ghost before = idx@;
        proof {
            if p < before.len() {
                let kp = order_key(obs[before[p as int] as int], reads_spec[before[p as int] as int]);
                lemma_key_order(kp, key, key);
            }
        }
        idx.insert(p, i);
        proof {
            assert(idx@ =~= before.insert(p as int, i));
            assert forall|k1: int, k2: int|
                0 <= k1 < k2 < idx@.len() implies key_le(
                    order_key(obs[#[trigger] idx@[k1] as int], reads_spec[idx@[k1] as int]),
                    order_key(obs[#[trigger] idx@[k2] as int], reads_spec[idx@[k2] as int]),
                ) by {
                let a = order_key(obs[idx@[k1] as int], reads_spec[idx@[k1] as int]);
                let b = order_key(obs[idx@[k2] as int], reads_spec[idx@[k2] as int]);
                if k1 < p && k2 < p {
                    assert(idx@[k1] == before[k1] && idx@[k2] == before[k2]);
                } else if k1 < p && k2 == p {
                    assert(idx@[k1] == before[k1]);
                } else if k1 < p && k2 > p {
                    assert(idx@[k1] == before[k1] && idx@[k2] == before[k2 - 1]);
                    assert(k1 < k2 - 1 || k1 == k2 - 1);
                } else if k1 == p {
                    assert(idx@[k2] == before[k2 - 1]);
                    let kp = order_key(obs[before[p as int] as int], reads_spec[before[p as int] as int]);
                    if k2 - 1 > p {
                        lemma_key_order(key, kp, b);
                    }
                } else {
                    assert(idx@[k1] == before[k1 - 1] && idx@[k2] == before[k2 - 1]);
                }
            }
            assert forall|k1: int, k2: int| 0 <= k1 < idx@.len() && 0 <= k2 < idx@.len() && k1 != k2 implies #[trigger] idx@[k1]
                != #[trigger] idx@[k2] by {
                if k1 != p && k2 != p {
                    let o1 = if k1 < p { k1 } else { k1 - 1 };
                    let o2 = if k2 < p { k2 } else { k2 - 1 };
                    assert(idx@[k1] == before[o1] && idx@[k2] == before[o2]);
                } else if k1 == p {
                    let o2 = if k2 < p { k2 } else { k2 - 1 };
                    assert(idx@[k2] == before[o2]);
                } else {
                    let o1 = if k1 < p { k1 } else { k1 - 1 };
                    assert(idx@[k1] == before[o1]);
                }
            }
            assert forall|k: int| 0 <= k < idx@.len() implies #[trigger] idx@[k] < i + 1 by {
                if k < p {
                    assert(idx@[k] == before[k]);
                } else if k > p {
                    assert(idx@[k] == before[k - 1]);
                }
            }
        }
        i += 1;
    }
    let mut ids: Vec<OperationId> = Vec::new();
    let mut k: usize = 0;
    while k < idx.len()
        invariant
            k <= idx@.len(),
            idx@.len() == n,
            n == obs.len(),
            obs == history@,
            forall|m: int| 0 <= m < idx@.len() ==> #[trigger] idx@[m] < n,
            ids@.len() == k,
            forall|m: int| 0 <= m < k ==> #[trigger] ids@[m] == obs[idx@[m] as int].id,
        decreases idx@.len() - k,
    {
        ids.push(history.get(idx[k]).id);
        k += 1;
    }
    assert(key_sorted_permutation(obs, reads_spec, idx@));
    ids
}

} // verus!
