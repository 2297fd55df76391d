use vstd::prelude::*;

verus! {

/// Messages exchanged between nodes, carrying a node's state of type `S`.
#[derive(Debug, Clone)]
pub struct Message<S> {
    /// ID of the sending node.
    pub sender_id: usize,
    /// Node's current state.
    pub state: S,
}

/// Actions a node can take after a state transition.
#[derive(Debug, Clone)]
pub enum Action<S> {
    /// Send a message to other nodes.
    SendMessage(Message<S>),
    /// Update local state without communication.
    UpdateState,
}

} // verus!
