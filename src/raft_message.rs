//! Messages of a leader-based log replication model. Only the shapes are
//! defined here; no protocol logic goes with them.
use std::fmt::Debug;
use vstd::prelude::*;

verus! {

/// One entry of a replicated log: the term in which it was created and the
/// value it carries.
#[derive(Debug, Clone, PartialEq, Eq)]
pub struct LogEntry<T> {
    pub term: usize,
    pub value: T,
}

/// A message between replicas, or from a client to a replica.
#[derive(Debug, Clone, PartialEq, Eq)]
pub enum RaftMessage<T> where T: Sized + Clone + PartialEq + Eq + Debug + Default {
    ClientRequest { dest: usize, value: T },
    BecomeLeader { dest: usize, followers: Vec<usize> },
    AppendEntries { dest: usize, followers: Vec<usize> },
    AppendEntriesRequest {
        src: usize,
        dest: usize,
        term: usize,
        prev_index: usize,
        prev_term: usize,
        entries: Vec<LogEntry<T>>,
    },
    AppendEntriesResponse { src: usize, dest: usize, term: usize, success: bool, match_index: usize },
}

} // verus!
