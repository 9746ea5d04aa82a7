use vstd::prelude::*;

use crate::log::{Log, LogView};

verus! {

/// The life-cycle state of a replica.
#[derive(Debug, Clone, Copy, PartialEq, Eq, Structural)]
pub enum NodeState {
    Idle,
    Running,
    Recovery,
}

/// An operation that a client asks a replica to execute.
#[derive(Debug, PartialEq, Eq)]
pub enum Operation {
    Read(String),
    Insert(String),
    Remove(String),
}

/// The abstract content of an [`Operation`].
pub enum OperationView {
    Read(Seq<char>),
    Insert(Seq<char>),
    Remove(Seq<char>),
}

impl View for Operation {
    type V = OperationView;

    open spec fn view(&self) -> OperationView {
        match self {
            Operation::Read(v) => OperationView::Read(v@),
            Operation::Insert(v) => OperationView::Insert(v@),
            Operation::Remove(v) => OperationView::Remove(v@),
        }
    }
}

/// Whether executing `op` on `data` changes it.
pub open spec fn changes(data: Set<Seq<char>>, op: OperationView) -> bool {
    match op {
        OperationView::Read(_) => false,
        OperationView::Insert(v) => !data.contains(v),
        OperationView::Remove(v) => data.contains(v),
    }
}

/// The data after executing `op` on `data`.
pub open spec fn apply(data: Set<Seq<char>>, op: OperationView) -> Set<Seq<char>> {
    match op {
        OperationView::Read(_) => data,
        OperationView::Insert(v) => data.insert(v),
        OperationView::Remove(v) => data.remove(v),
    }
}

/// The data obtained by executing the logged operations, in order, on the
/// empty set.
pub open spec fn replay(ops: Seq<(u32, OperationView)>) -> Set<Seq<char>>
    decreases ops.len(),
{
    if ops.len() == 0 {
        Set::empty()
    } else {
        apply(replay(ops.drop_last()), ops.last().1)
    }
}

/// The abstract state of a [`Node`].
pub struct NodeView {
    pub state: NodeState,
    pub id: u32,
    pub log: LogView,
    pub sequence_number: u32,
    pub data: Set<Seq<char>>,
}

impl NodeView {
    /// A log that numbers its entries 1, 2, ... in order, in which every
    /// entry changed the data it was executed on, and whose replay gives the
    /// current data.
    pub open spec fn wf(self) -> bool {
        let ops = self.log.operations;
        &&& self.sequence_number == ops.len()
        &&& forall|i: int| 0 <= i < ops.len() ==> #[trigger] ops[i].0 == i + 1
        &&& forall|i: int| 0 <= i < ops.len() ==> changes(#[trigger] replay(ops.take(i)), ops[i].1)
        &&& replay(ops) == self.data
    }

    /// Whether executing `op` here changes the data (and so is logged).
    pub open spec fn accepts(self, op: OperationView) -> bool {
        changes(self.data, op)
    }

    /// The state after executing `op`, and the answer to it: for a read,
    /// whether the value is present; for an insert or a remove, whether it
    /// changed the data. A change increments the sequence number and logs
    /// the operation under the new number.
    pub open spec fn process(self, op: OperationView) -> (NodeView, bool) {
        match op {
            OperationView::Read(v) => (self, self.data.contains(v)),
            _ => if self.accepts(op) {
                let seq = (self.sequence_number + 1) as u32;
                (
                    NodeView {
                        state: self.state,
                        id: self.id,
                        log: LogView {
                            last_exec_op: self.log.last_exec_op,
                            operations: self.log.operations.push((seq, op)),
                            checkpoint: self.log.checkpoint,
                        },
                        sequence_number: seq,
                        data: apply(self.data, op),
                    },
                    true,
                )
            } else {
                (self, false)
            },
        }
    }
}

/// A replica: a set of strings, with the log of the operations that built it.
pub struct Node {
    state: NodeState,
    id: u32,
    log: Log,
    sequence_number: u32,
    data: Vec<String>,
}

/// The set of the views of the strings in `v`.
pub open spec fn string_set(v: Seq<String>) -> Set<Seq<char>> {
    Set::new(|x: Seq<char>| exists|i: int| 0 <= i < v.len() && #[trigger] v[i]@ == x)
}

impl View for Node {
    type V = NodeView;

    closed spec fn view(&self) -> NodeView {
        NodeView {
            state: self.state,
            id: self.id,
            log: self.log@,
            sequence_number: self.sequence_number,
            data: string_set(self.data@),
        }
    }
}

proof fn lemma_replay_push(ops: Seq<(u32, OperationView)>, e: (u32, OperationView))
    ensures
        replay(ops.push(e)) == apply(replay(ops), e.1),
{
    assert(ops.push(e).drop_last() =~= ops);
}

impl Node {
    /// The well-formedness of a node: its abstract state is well formed and
    /// no string is held twice.
    pub closed spec fn wf(&self) -> bool {
        &&& self@.wf()
        &&& forall|i: int, j: int|
            0 <= i < self.data@.len() && 0 <= j < self.data@.len() && i != j
                ==> self.data@[i]@ != self.data@[j]@
    }

    /// A fresh replica with the given id: idle, with no data and an empty log.
    pub fn new(id: u32) -> (node: Self)
        ensures
            node.wf(),
            node@.state == NodeState::Idle,
            node@.id == id,
            node@.sequence_number == 0,
            node@.data == Set::<Seq<char>>::empty(),
            node@.log.operations == Seq::<(u32, OperationView)>::empty(),
            node@.log.last_exec_op == 0,
            node@.log.checkpoint is None,
    {
        let node = Self {
            state: NodeState::Idle,
            id,
            log: Log::new(),
            sequence_number: 0,
            data: Vec::new(),
        };
        assert(node@.data =~= Set::<Seq<char>>::empty());
        node
    }

    /// The index of the string equal to `value`, if the node holds it.
    fn find(&self, value: &String) -> (r: Option<usize>)
        ensures
            match r {
                Some(i) => i < self.data@.len() && self.data@[i as int]@ == value@,
                None => forall|i: int| 0 <= i < self.data@.len() ==> self.data@[i]@ != value@,
            },
    {
        let mut i: usize = 0;
        while i < self.data.len()
            invariant
                i <= self.data@.len(),
                forall|j: int| 0 <= j < i ==> self.data@[j]@ != value@,
            decreases self.data@.len() - i,
        {
            if self.data[i] == *value {
                return Some(i);
            }
            i = i + 1;
        }
        None
    }

    /// Whether executing `op` would change the data, and so be logged.
    pub fn accepts(&self, op: &Operation) -> (changes: bool)
        ensures
            changes == self@.accepts(op@),
    {
        match op {
            Operation::Read(_) => false,
            Operation::Insert(value) => {
                let found = self.find(value);
                proof {
                    if let Some(i) = found {
                        assert(self.data@[i as int]@ == value@);
                    }
                }
                found.is_none()
            },
            Operation::Remove(value) => {
                let found = self.find(value);
                proof {
                    if let Some(i) = found {
                        assert(self.data@[i as int]@ == value@);
                    }
                }
                found.is_some()
            },
        }
    }

    /// Executes `op` and answers it: a read answers whether the value is
    /// present; an insert or a remove answers whether it changed the data,
    /// and only then is it logged, under the next sequence number.
    pub fn process_operation(&mut self, op: Operation) -> (successful: bool)
        requires
            old(self).wf(),
            old(self)@.accepts(op@) ==> old(self)@.sequence_number < u32::MAX,
        ensures
            final(self).wf(),
            (final(self)@, successful) == old(self)@.process(op@),
    {
        let successful_op: bool;
        let ghost old_data = self.data@;
        match &op {
            Operation::Read(value) => {
                let found = self.find(value);
                proof {
                    if let Some(i) = found {
                        assert(old_data[i as int]@ == value@);
                    }
                }
                return found.is_some();
            },
            Operation::Insert(value) => {
                match self.find(value) {
                    Some(i) => {
                        assert(old_data[i as int]@ == value@);
                        successful_op = false;
                    },
                    None => {
                        self.data.push(value.clone());
                        assert(string_set(self.data@) =~= string_set(old_data).insert(value@)) by {
                            assert(self.data@[old_data.len() as int] == value);
                            assert forall|x: Seq<char>| #[trigger] string_set(old_data).contains(x)
                                implies string_set(self.data@).contains(x) by {
                                let k = choose|k: int| 0 <= k < old_data.len() && old_data[k]@ == x;
                                assert(self.data@[k] == old_data[k]);
                            }
                            assert forall|x: Seq<char>| #[trigger] string_set(self.data@).contains(x)
                                implies string_set(old_data).insert(value@).contains(x) by {
                                let k = choose|k: int| 0 <= k < self.data@.len() && self.data@[k]@ == x;
                                if k < old_data.len() {
                                    assert(self.data@[k] == old_data[k]);
                                }
                            }
                        }
                        successful_op = true;
                    },
                }
            },
            Operation::Remove(value) => {
                match self.find(value) {
                    Some(i) => {
                        self.data.remove(i);
                        assert(string_set(self.data@) =~= string_set(old_data).remove(value@)) by {
                            assert forall|x: Seq<char>| #[trigger] string_set(self.data@).contains(x)
                                implies string_set(old_data).remove(value@).contains(x) by {
                                let k = choose|k: int| 0 <= k < self.data@.len() && self.data@[k]@ == x;
                                if k < i {
                                    assert(self.data@[k] == old_data[k]);
                                } else {
                                    assert(self.data@[k] == old_data[k + 1]);
                                }
                            }
                            assert forall|x: Seq<char>| #[trigger] string_set(old_data).remove(value@).contains(x)
                                implies string_set(self.data@).contains(x) by {
                                let k = choose|k: int| 0 <= k < old_data.len() && old_data[k]@ == x;
                                if k < i {
                                    assert(self.data@[k] == old_data[k]);
                                } else {
                                    assert(k != i);
                                    assert(self.data@[k - 1] == old_data[k]);
                                }
                            }
                        }
                        successful_op = true;
                    },
                    None => {
                        successful_op = false;
                    },
                }
            },
        }
        proof {
            lemma_process_preserves_wf(old(self)@, op@);
        }
        if successful_op {
            self.sequence_number = self.sequence_number + 1;
            self.log.log_operation(self.sequence_number, op);
        }
        successful_op
    }

    /// The id of this replica.
    pub fn id(&self) -> (id: u32)
        ensures
            id == self@.id,
    {
        self.id
    }

    /// The life-cycle state of this replica.
    pub fn state(&self) -> (state: NodeState)
        ensures
            state == self@.state,
    {
        self.state
    }

    /// The sequence number of the last logged operation (0 if none).
    pub fn sequence_number(&self) -> (n: u32)
        ensures
            n == self@.sequence_number,
    {
        self.sequence_number
    }

    /// The operation log of this replica.
    pub fn log(&self) -> (log: &Log)
        ensures
            log@ == self@.log,
    {
        &self.log
    }

    /// The strings that this replica holds, each once, in no particular order.
    pub fn data(&self) -> (data: &Vec<String>)
        requires
            self.wf(),
        ensures
            string_set(data@) == self@.data,
            forall|i: int, j: int|
                0 <= i < data@.len() && 0 <= j < data@.len() && i != j ==> data@[i]@ != data@[j]@,
    {
        &self.data
    }
}

/// Executing an operation keeps the abstract state well formed: the log
/// still numbers its entries 1, 2, ..., every entry still changed the data
/// it met, and replaying the log still gives the data.
pub proof fn lemma_process_preserves_wf(s: NodeView, op: OperationView)
    requires
        s.wf(),
        s.accepts(op) ==> s.sequence_number < u32::MAX,
    ensures
        s.process(op).0.wf(),
{
    if !(op is Read) && s.accepts(op) {
        let ops = s.log.operations;
        let e = ((s.sequence_number + 1) as u32, op);
        lemma_replay_push(ops, e);
        assert forall|i: int| 0 <= i < ops.len() + 1 implies #[trigger] ops.push(e).take(i)
            == ops.take(i) by {
            assert(ops.push(e).take(i) =~= ops.take(i));
        }
        assert(ops.take(ops.len() as int) =~= ops);
    }
}

/// The state reached by executing `ops`, in order, from `s`.
pub open spec fn run(s: NodeView, ops: Seq<OperationView>) -> NodeView
    decreases ops.len(),
{
    if ops.len() == 0 {
        s
    } else {
        run(s, ops.drop_last()).process(ops.last()).0
    }
}

/// Every history keeps the replica well formed, so that after any sequence
/// of operations (short enough for the sequence number) the log still
/// rebuilds the data; the sequence number grows by at most one per operation.
pub proof fn lemma_run_preserves_wf(s: NodeView, ops: Seq<OperationView>)
    requires
        s.wf(),
        s.sequence_number + ops.len() <= u32::MAX,
    ensures
        run(s, ops).wf(),
        replay(run(s, ops).log.operations) == run(s, ops).data,
        run(s, ops).sequence_number <= s.sequence_number + ops.len(),
    decreases ops.len(),
{
    if ops.len() > 0 {
        lemma_run_preserves_wf(s, ops.drop_last());
        lemma_process_preserves_wf(run(s, ops.drop_last()), ops.last());
    }
}

/// The log alone rebuilds the data: replaying the logged operations, in
/// order, on the empty set gives exactly the strings the replica holds.
pub proof fn lemma_log_rebuilds_data(node: &Node)
    requires
        node.wf(),
    ensures
        replay(node@.log.operations) == node@.data,
{
}

/// The log numbers its entries 1, 2, ... in order, the sequence number is
/// the number of logged entries, and no read is ever logged.
pub proof fn lemma_log_numbering(node: &Node)
    requires
        node.wf(),
    ensures
        node@.sequence_number == node@.log.operations.len(),
        forall|i: int|
            0 <= i < node@.log.operations.len() ==> #[trigger] node@.log.operations[i].0 == i + 1,
        forall|i: int|
            0 <= i < node@.log.operations.len() ==> !(#[trigger] node@.log.operations[i].1 is Read),
{
    let ops = node@.log.operations;
    assert forall|i: int| 0 <= i < ops.len() implies !(#[trigger] ops[i].1 is Read) by {
        assert(changes(replay(ops.take(i)), ops[i].1));
    }
}

/// A read answers whether the value is present and changes nothing.
pub proof fn lemma_read_changes_nothing(s: NodeView, v: Seq<char>)
    ensures
        s.process(OperationView::Read(v)) == (s, s.data.contains(v)),
{
}

/// An operation that would not change the data (a read, an insert of a
/// present value, a remove of an absent one) leaves the whole replica,
/// its log included, as it was.
pub proof fn lemma_rejected_changes_nothing(s: NodeView, op: OperationView)
    requires
        !s.accepts(op),
    ensures
        s.process(op).0 == s,
{
}

/// The log only grows, by at most one entry per operation, and an entry
/// once written is never changed.
pub proof fn lemma_log_append_only(s: NodeView, op: OperationView)
    ensures
        s.process(op).0.log.operations.len() <= s.log.operations.len() + 1,
        s.log.operations.len() <= s.process(op).0.log.operations.len(),
        s.process(op).0.log.operations.take(s.log.operations.len() as int) == s.log.operations,
{
    let ops = s.log.operations;
    assert(ops.take(ops.len() as int) =~= ops);
    if !(op is Read) && s.accepts(op) {
        let e = ((s.sequence_number + 1) as u32, op);
        assert(ops.push(e).take(ops.len() as int) =~= ops);
    }
}

/// An insert answers whether the value was absent, a remove whether it was
/// present, and the data afterwards holds the value exactly after an insert
/// and not after a remove.
pub proof fn lemma_update_answers(s: NodeView, v: Seq<char>)
    ensures
        s.process(OperationView::Insert(v)).1 == !s.data.contains(v),
        s.process(OperationView::Insert(v)).0.data == s.data.insert(v),
        s.process(OperationView::Remove(v)).1 == s.data.contains(v),
        s.process(OperationView::Remove(v)).0.data == s.data.remove(v),
{
    if s.data.contains(v) {
        assert(s.data.insert(v) =~= s.data);
    } else {
        assert(s.data.remove(v) =~= s.data);
    }
}

/// Inserting the same value twice: the second insert is refused and changes
/// nothing.
pub proof fn lemma_insert_idempotent(s: NodeView, v: Seq<char>)
    requires
        !s.data.contains(v) ==> s.sequence_number < u32::MAX,
    ensures
        s.process(OperationView::Insert(v)).0.process(OperationView::Insert(v)) == (
            s.process(OperationView::Insert(v)).0,
            false,
        ),
{
}

/// Inserting a new value and then removing it gives back the data held
/// before; both operations succeed and both are logged.
pub proof fn lemma_insert_then_remove(s: NodeView, v: Seq<char>)
    requires
        !s.data.contains(v),
        s.sequence_number + 2 <= u32::MAX,
    ensures
        s.process(OperationView::Insert(v)).1,
        s.process(OperationView::Insert(v)).0.process(OperationView::Remove(v)).1,
        s.process(OperationView::Insert(v)).0.process(OperationView::Remove(v)).0.data == s.data,
        s.process(OperationView::Insert(v)).0.process(OperationView::Remove(v)).0.sequence_number
            == s.sequence_number + 2,
{
    assert(s.data.insert(v).remove(v) =~= s.data);
}

} // verus!
