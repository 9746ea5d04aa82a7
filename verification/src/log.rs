use std::collections::HashMap;
use vstd::prelude::*;

use crate::node::{Operation, OperationView};

verus! {

/// A snapshot of the application state, taken after the operation with
/// sequence number `last_exec_op` was executed.
#[derive(Debug)]
pub struct Checkpoint {
    checkpoint_seq: u32,
    last_exec_op: u32,
    app_state: HashMap<u32, String>,
}

/// The abstract content of a [`Checkpoint`].
pub struct CheckpointView {
    pub checkpoint_seq: u32,
    pub last_exec_op: u32,
    pub app_state: Map<u32, Seq<char>>,
}

impl View for Checkpoint {
    type V = CheckpointView;

    closed spec fn view(&self) -> CheckpointView {
        CheckpointView {
            checkpoint_seq: self.checkpoint_seq,
            last_exec_op: self.last_exec_op,
            app_state: self.app_state@.map_values(|s: String| s@),
        }
    }
}

/// One entry of the operation log: an operation and the sequence number
/// under which it was executed.
#[derive(Debug)]
pub struct LoggedOperation {
    seqno: u32,
    operation: Operation,
}

impl View for LoggedOperation {
    type V = (u32, OperationView);

    closed spec fn view(&self) -> (u32, OperationView) {
        (self.seqno, self.operation@)
    }
}

impl LoggedOperation {
    pub fn new(seqno: u32, operation: Operation) -> (entry: Self)
        ensures
            entry@ == (seqno, operation@),
    {
        Self { seqno, operation }
    }

    /// The sequence number of this entry.
    pub fn seqno(&self) -> (n: u32)
        ensures
            n == self@.0,
    {
        self.seqno
    }

    /// The operation recorded in this entry.
    pub fn operation(&self) -> (op: &Operation)
        ensures
            op@ == self@.1,
    {
        &self.operation
    }
}

/// The abstract content of a [`Log`].
pub struct LogView {
    pub last_exec_op: u32,
    pub operations: Seq<(u32, OperationView)>,
    pub checkpoint: Option<CheckpointView>,
}

/// An append-only log of the operations that a replica executed.
#[derive(Debug)]
pub struct Log {
    last_exec_op: u32,
    operations: Vec<LoggedOperation>,
    checkpoint: Option<Checkpoint>,
}

impl View for Log {
    type V = LogView;

    closed spec fn view(&self) -> LogView {
        LogView {
            last_exec_op: self.last_exec_op,
            operations: self.operations@.map_values(|o: LoggedOperation| o@),
            checkpoint: match self.checkpoint {
                Some(c) => Some(c@),
                None => None,
            },
        }
    }
}

impl Log {
    /// An empty log, with no checkpoint.
    pub fn new() -> (log: Self)
        ensures
            log@.last_exec_op == 0,
            log@.operations == Seq::<(u32, OperationView)>::empty(),
            log@.checkpoint is None,
    {
        let log = Self { last_exec_op: 0, operations: Vec::new(), checkpoint: None };
        assert(log@.operations =~= Seq::<(u32, OperationView)>::empty());
        log
    }

    /// Appends `operation` under the sequence number `seqno`.
    pub fn log_operation(&mut self, seqno: u32, operation: Operation)
        ensures
            final(self)@.operations == old(self)@.operations.push((seqno, operation@)),
            final(self)@.last_exec_op == old(self)@.last_exec_op,
            final(self)@.checkpoint == old(self)@.checkpoint,
    {
        let entry = LoggedOperation::new(seqno, operation);
        self.operations.push(entry);
        assert(self@.operations =~= old(self)@.operations.push((seqno, operation@)));
    }

    /// The logged operations, oldest first.
    pub fn operations(&self) -> (ops: &Vec<LoggedOperation>)
        ensures
            ops@.map_values(|o: LoggedOperation| o@) == self@.operations,
    {
        &self.operations
    }
}

} // verus!
