use vstd::prelude::*;
use vstd::string::*;
use crate::error::AxiomError;
use crate::partition::{
    all_ids, halves, is_partition_of, lemma_permutation_facts,
    shuffle_of_ids, shuffled_node_ids, PartitionTable,
};
use crate::types::{Action, Message};

verus! {

/// Seconds that a node task is given to shut down before the simulation
/// reports a timeout.
pub const SHUTDOWN_TIMEOUT_SECS: usize = 5;

/// Partitions are reconfigured on every fifth step.
pub open spec fn spec_refreshes_partitions(step: usize) -> bool {
    step % 5 == 0
}

/// How many nodes are sent an action in one step: half of them, at least one.
pub open spec fn spec_active_node_count(num_nodes: usize) -> nat {
    if num_nodes / 2 >= 1 {
        (num_nodes / 2) as nat
    } else {
        1
    }
}

/// Reconfigurations alternate: of two reconfiguring steps five apart, one
/// splits the network into random halves and the other fully connects it.
pub proof fn lemma_reconfigurations_alternate(step: nat)
    requires
        step % 5 == 0,
    ensures
        (step % 10 == 0) <==> ((step + 5) % 10 != 0),
        (step + 5) % 5 == 0,
{
}

/// Partitions are reconfigured at the first step and then every fifth step:
/// each reconfiguring step is followed by exactly four steps that keep the
/// partitions, then by one that reconfigures them, and whether a step
/// reconfigures repeats every five steps.
pub proof fn lemma_refresh_period(step: usize)
    requires
        step + 5 <= usize::MAX,
    ensures
        spec_refreshes_partitions(0),
        spec_refreshes_partitions(step) <==> spec_refreshes_partitions((step + 5) as usize),
        spec_refreshes_partitions(step) ==> forall|k: usize|
            1 <= k <= 4 ==> !#[trigger] spec_refreshes_partitions((step + k) as usize),
{
}

/// Half of the nodes, at least one: the count is at least one, and for two
/// or more nodes it is the largest count whose double fits in the network.
pub proof fn lemma_active_count_is_half(num_nodes: usize)
    ensures
        spec_active_node_count(num_nodes) >= 1,
        num_nodes >= 2 ==> 2 * spec_active_node_count(num_nodes) <= num_nodes < 2
            * spec_active_node_count(num_nodes) + 2,
        num_nodes < 2 ==> spec_active_node_count(num_nodes) == 1,
        spec_active_node_count(num_nodes) <= num_nodes || num_nodes == 0,
{
}

/// Whether the partitions are reconfigured at `step`.
pub fn refreshes_partitions(step: usize) -> (r: bool)
    ensures
        r == spec_refreshes_partitions(step),
        r == (step % 5 == 0),
{
    step % 5 == 0
}

/// The number of nodes that are sent an action in one step.
pub fn active_node_count(num_nodes: usize) -> (c: usize)
    ensures
        c == spec_active_node_count(num_nodes),
        c >= 1,
        num_nodes >= 2 ==> 2 * c <= num_nodes < 2 * c + 2,
        num_nodes < 2 ==> c == 1,
{
    let half = num_nodes / 2;
    if half >= 1 {
        half
    } else {
        1
    }
}

/// The nodes to activate, given the nodes in a random `order`: its first
/// `active_node_count` entries (all of them when there are fewer).
pub fn select_active(order: Vec<usize>, num_nodes: usize) -> (active: Vec<usize>)
    ensures
        active@ == order@.take(
            if spec_active_node_count(num_nodes) <= order@.len() {
                spec_active_node_count(num_nodes) as int
            } else {
                order@.len() as int
            },
        ),
{
    let count = active_node_count(num_nodes);
    let mut active = order;
    if count < active.len() {
        active.truncate(count);
    }
    proof {
        assert(active@ =~= order@.take(active@.len() as int));
    }
    active
}

/// What the simulation does in one step, before the nodes run.
pub struct StepPlan {
    /// The new partition configuration, when the step reconfigures it.
    pub new_partitions: Option<PartitionTable>,
    /// The nodes that are sent an action, in the order they are sent one.
    pub active_nodes: Vec<usize>,
}

/// Plans step `step` of a simulation over `num_nodes` nodes: on every fifth
/// step the partitions are reconfigured (random halves when `step % 10 == 0`,
/// fully connected otherwise), and `max(num_nodes / 2, 1)` nodes, picked at
/// random and each once, are sent an action.
pub fn plan_step(step: usize, num_nodes: usize) -> (plan: StepPlan)
    ensures
        plan.new_partitions is Some <==> spec_refreshes_partitions(step),
        plan.new_partitions matches Some(t) ==> {
            &&& t@.num_nodes == num_nodes
            &&& is_partition_of(t@.groups, t@.num_nodes)
            &&& step % 10 == 0 ==> t@.groups.len() == 2 && t@.groups[0].len() == num_nodes / 2
                && t@.groups[1].len() == num_nodes - num_nodes / 2
            &&& step % 10 != 0 ==> t@.groups == seq![all_ids(num_nodes as nat)]
            &&& step % 10 == 0 ==> exists|order: Seq<usize>|
                #[trigger] shuffle_of_ids(num_nodes as nat, order) && t@.groups == halves(
                    order,
                    num_nodes as nat,
                )
        },
        exists|order: Seq<usize>|
            #[trigger] shuffle_of_ids(num_nodes as nat, order) && plan.active_nodes@ == order.take(
                plan.active_nodes@.len() as int,
            ),
        plan.active_nodes@.len() == if spec_active_node_count(num_nodes) <= num_nodes {
            spec_active_node_count(num_nodes)
        } else {
            num_nodes as nat
        },
        plan.active_nodes@.no_duplicates(),
        forall|i: int| 0 <= i < plan.active_nodes@.len() ==> #[trigger] plan.active_nodes@[i] < num_nodes,
{
    let new_partitions = if refreshes_partitions(step) {
        Some(PartitionTable::for_step(step, num_nodes))
    } else {
        None
    };
    let order = shuffled_node_ids(num_nodes);
    proof {
        lemma_permutation_facts(order@, num_nodes as nat);
    }
    let ghost whole = order@;
    let active_nodes = select_active(order, num_nodes);
    proof {
        assert forall|i: int| 0 <= i < active_nodes@.len() implies #[trigger] active_nodes@[i]
            < num_nodes by {
            assert(active_nodes@[i] == whole[i]);
            assert(whole.contains(whole[i]));
        }
        assert forall|i: int, j: int|
            0 <= i < active_nodes@.len() && 0 <= j < active_nodes@.len() && i != j implies active_nodes@[i]
            != active_nodes@[j] by {
            assert(active_nodes@[i] == whole[i]);
            assert(active_nodes@[j] == whole[j]);
        }
    }
    StepPlan { new_partitions, active_nodes }
}

/// The action sent to node `node_id`, whose state is `state`: a message with
/// that state when `send_message` holds, else a local update.
pub fn action_for<S>(node_id: usize, state: S, send_message: bool) -> (action: Action<S>)
    ensures
        send_message ==> action == Action::SendMessage(Message { sender_id: node_id, state }),
        !send_message ==> action == Action::<S>::UpdateState,
{
    if send_message {
        Action::SendMessage(Message { sender_id: node_id, state })
    } else {
        Action::UpdateState
    }
}

/// Why an action could not be put into a node's channel.
#[derive(Debug, Clone, Copy, PartialEq, Eq)]
pub enum SendFailure {
    /// The channel is full.
    Full,
    /// The channel is closed.
    Closed,
}

/// What a failed send does to the step: a full channel skips the action, a
/// closed one ends the step with `NetworkSend("Channel closed")`.
pub fn on_send_failure(failure: SendFailure) -> (r: Result<(), AxiomError>)
    ensures
        failure == SendFailure::Full ==> r is Ok,
        failure == SendFailure::Closed ==> (r matches Err(e) && e.is_network_send(
            "Channel closed"@,
        )),
{
    match failure {
        SendFailure::Full => Ok(()),
        SendFailure::Closed => Err(AxiomError::NetworkSend(String::from_str("Channel closed"))),
    }
}

/// What the simulation does after a step.
#[derive(Debug, Clone, Copy, PartialEq, Eq)]
pub enum StepVerdict {
    /// Consensus is reached: report the states and stop.
    Stop,
    /// Report the states as progress, then go on.
    Report,
    /// Go on with the next step.
    Continue,
}

/// After step `step`: stop once consensus is reached, else report progress
/// on every hundredth step and go on.
pub fn after_step(step: usize, consensus: bool) -> (v: StepVerdict)
    ensures
        consensus ==> v == StepVerdict::Stop,
        !consensus && step % 100 == 0 ==> v == StepVerdict::Report,
        !consensus && step % 100 != 0 ==> v == StepVerdict::Continue,
{
    if consensus {
        StepVerdict::Stop
    } else if step % 100 == 0 {
        StepVerdict::Report
    } else {
        StepVerdict::Continue
    }
}

/// How a node task ended when it was shut down.
#[derive(Debug)]
pub enum TaskOutcome {
    /// The task returned this result.
    Finished(Result<(), AxiomError>),
    /// The task could not be joined (it panicked or was cancelled).
    JoinFailed,
    /// The task did not end within the shutdown timeout.
    TimedOut,
}

/// What a node task's end means for the simulation: a clean finish goes on,
/// the task's own error is passed on, a failed join is
/// `NetworkSend("Task panicked")`, and a task that misses the shutdown
/// wait is `ShutdownTimeout(SHUTDOWN_TIMEOUT_SECS)`.
pub fn shutdown_verdict(outcome: TaskOutcome) -> (r: Result<(), AxiomError>)
    ensures
        outcome matches TaskOutcome::Finished(res) ==> r == res,
        outcome is JoinFailed ==> (r matches Err(e) && e.is_network_send("Task panicked"@)),
        outcome is TimedOut ==> (r matches Err(e) && e.is_shutdown_timeout_after(SHUTDOWN_TIMEOUT_SECS)),
{
    match outcome {
        TaskOutcome::Finished(res) => res,
        TaskOutcome::JoinFailed => Err(AxiomError::NetworkSend(String::from_str("Task panicked"))),
        TaskOutcome::TimedOut => Err(AxiomError::ShutdownTimeout(SHUTDOWN_TIMEOUT_SECS)),
    }
}

/// The simulation's result once every node is shut down: `Ok` when the
/// final check finds consensus, else `Timeout(max_steps)`.
pub fn final_verdict(consensus: bool, max_steps: usize) -> (r: Result<(), AxiomError>)
    ensures
        consensus ==> r is Ok,
        !consensus ==> (r matches Err(e) && e.is_timeout_after(max_steps)),
{
    if consensus {
        Ok(())
    } else {
        Err(AxiomError::Timeout(max_steps))
    }
}

/// What a running node observes.
#[derive(Debug, Clone, Copy, PartialEq, Eq)]
pub enum NodeEvent {
    /// An action arrived on its channel.
    ActionReceived,
    /// Its channel is closed.
    ChannelClosed,
    /// It was told to shut down.
    ShutdownRequested,
    /// Broadcasting an action it produced failed.
    BroadcastFailed,
}

/// What a running node does next.
#[derive(Debug)]
pub enum NodeReaction {
    /// Process the action and broadcast what it produces.
    Process,
    /// Leave the loop and finish cleanly.
    Stop,
    /// Leave the loop with this error.
    Fail(AxiomError),
}

/// A node's main loop: process what arrives, stop when the channel closes
/// or shutdown is requested, fail with `NetworkSend("Failed to send action")`
/// when a broadcast fails.
pub fn node_reaction(event: NodeEvent) -> (r: NodeReaction)
    ensures
        event == NodeEvent::ActionReceived ==> r is Process,
        event == NodeEvent::ChannelClosed ==> r is Stop,
        event == NodeEvent::ShutdownRequested ==> r is Stop,
        event == NodeEvent::BroadcastFailed ==> (r matches NodeReaction::Fail(e)
            && e.is_network_send("Failed to send action"@)),
{
    match event {
        NodeEvent::ActionReceived => NodeReaction::Process,
        NodeEvent::ChannelClosed => NodeReaction::Stop,
        NodeEvent::ShutdownRequested => NodeReaction::Stop,
        NodeEvent::BroadcastFailed => NodeReaction::Fail(
            AxiomError::NetworkSend(String::from_str("Failed to send action")),
        ),
    }
}

} // verus!
