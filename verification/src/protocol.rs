use vstd::prelude::*;
use crate::error::AxiomError;
use crate::types::{Action, Message};

verus! {

/// Partition-aware state machines: how a node moves between states given an
/// input and whether it is partitioned, producing actions such as sending
/// messages or updating local state. Implemented by the library's users.
pub trait StateMachine: Send + Sync + Clone + 'static {
    /// Type of input to the state machine (the target proposed from the
    /// peers' states).
    type Input;
    /// Type of state maintained by the node.
    type State;
    /// Type of the weight of an update made while the node is not
    /// partitioned.
    type Weight;

    /// Moves the state toward `input`, weighting the step by the machine's
    /// own partition weight when `is_partitioned` holds and by
    /// `normal_weight` otherwise; returns the new state and the actions to
    /// perform.
    fn transition(
        &self,
        state: &Self::State,
        input: Self::Input,
        normal_weight: Self::Weight,
        is_partitioned: bool,
    ) -> Result<(Self::State, Vec<Action<Self::State>>), AxiomError>;
}

/// Economic incentive mechanisms: how a node is rewarded or penalised for its
/// state against its peers' states. Implemented by the library's users.
pub trait IncentiveMechanism: Send + Sync + Clone + 'static {
    /// Type of reward (e.g., numeric utility).
    type Reward;
    /// Type of the states it rates.
    type State;

    /// Calculates the reward for a node based on its state and peers' states.
    fn calculate_reward<SM: StateMachine<State = Self::State>>(
        &self,
        state: &SM::State,
        peer_states: &[SM::State],
    ) -> Result<Self::Reward, AxiomError>;
}

/// Consensus protocols: how nodes propose a target state from their peers'
/// states and when the states have converged. Implemented by the library's
/// users.
pub trait ConsensusProtocol: Send + Sync + Clone + 'static {
    /// Type of state used by the state machine.
    type State;

    /// Proposes a target state based on peer states.
    fn propose(&self, peer_states: &[Self::State]) -> Self::State;

    /// Checks if global consensus is achieved.
    fn is_consensus(&self, states: &[Self::State]) -> bool;
}

/// `r` is what a node step returns once the incentive mechanism answered
/// `reward`: the step's `actions` with that reward, or the mechanism's error.
pub open spec fn step_result<S, R>(
    r: Result<(Vec<Action<S>>, R), AxiomError>,
    actions: Seq<Action<S>>,
    reward: Result<R, AxiomError>,
) -> bool {
    match reward {
        Ok(x) => r matches Ok((a, y)) && a@ == actions && y == x,
        Err(e) => r == Err::<(Vec<Action<S>>, R), AxiomError>(e),
    }
}

/// A produced action as the node sends it: a message carries the node's id
/// and its state; a local update stays as it is.
pub open spec fn stamp<S>(action: Action<S>, node_id: usize, state: S) -> Action<S> {
    match action {
        Action::SendMessage(_) => Action::SendMessage(Message { sender_id: node_id, state }),
        Action::UpdateState => Action::UpdateState,
    }
}

/// Every action of `actions`, stamped with the node's id and state.
pub open spec fn stamped<S>(actions: Seq<Action<S>>, node_id: usize, state: S) -> Seq<Action<S>> {
    actions.map_values(|a: Action<S>| stamp(a, node_id, state))
}

/// Stamps every message among `actions` with `node_id` as its sender and
/// `state` as its state.
pub fn stamp_actions<S: Copy>(actions: Vec<Action<S>>, node_id: usize, state: S) -> (out: Vec<
    Action<S>,
>)
    ensures
        out@ == stamped(actions@, node_id, state),
{
    let mut out: Vec<Action<S>> = Vec::new();
    let mut i: usize = 0;
    while i < actions.len()
        invariant
            i <= actions@.len(),
            out@ == stamped(actions@.take(i as int), node_id, state),
        decreases actions@.len() - i,
    {
        let next = match &actions[i] {
            Action::SendMessage(_) => Action::SendMessage(Message { sender_id: node_id, state }),
            Action::UpdateState => Action::UpdateState,
        };
        out.push(next);
        proof {
            assert(actions@.take(i + 1) =~= actions@.take(i as int).push(actions@[i as int]));
            assert(stamped(actions@.take(i + 1), node_id, state) =~= stamped(
                actions@.take(i as int),
                node_id,
                state,
            ).push(stamp(actions@[i as int], node_id, state)));
        }
        i = i + 1;
    }
    proof {
        assert(actions@.take(actions@.len() as int) =~= actions@);
    }
    out
}

/// What a node step on a message does, whatever the message holds: the
/// consensus protocol proposes a `target` from the peers' states; the state
/// machine moves `old_state` toward that target with the partition flag and
/// the unpartitioned weight; on its error the state stays and the error is
/// the result; else the node takes the new state, its messages are stamped
/// with the node's id and the new state, and the incentive mechanism rates
/// the new state against the peers.
pub open spec fn send_message_step<S, SM, IM, CP>(
    node_id: usize,
    state_machine: &SM,
    incentive_mechanism: &IM,
    consensus_protocol: &CP,
    old_state: S,
    final_state: S,
    is_partitioned: bool,
    peer_states: &[S],
    normal_weight: SM::Weight,
    r: Result<(Vec<Action<S>>, IM::Reward), AxiomError>,
) -> bool where
    SM: StateMachine<State = S, Input = S>,
    IM: IncentiveMechanism<State = S>,
    CP: ConsensusProtocol<State = S>,
 {
    exists|target: S, moved: Result<(S, Vec<Action<S>>), AxiomError>|
        {
            &&& #[trigger] call_ensures(CP::propose, (consensus_protocol, peer_states), target)
            &&& #[trigger] call_ensures(
                SM::transition,
                (state_machine, &old_state, target, normal_weight, is_partitioned),
                moved,
            )
            &&& match moved {
                Err(e) => final_state == old_state && r == Err::<
                    (Vec<Action<S>>, IM::Reward),
                    AxiomError,
                >(e),
                Ok((new_state, actions)) => {
                    &&& final_state == new_state
                    &&& exists|reward: Result<IM::Reward, AxiomError>|
                        #[trigger] call_ensures(
                            IM::calculate_reward::<SM>,
                            (incentive_mechanism, &new_state, peer_states),
                            reward,
                        ) && step_result(r, stamped(actions@, node_id, new_state), reward)
                },
            }
        }
}

/// When a message step succeeds, the state machine's transition from the old
/// state succeeded and the node's final state is the state it produced; the
/// reward returned is what the incentive mechanism gave for that final state
/// against the peers' states (the state after the transition, not the one
/// before); and every message returned carries the node's id and that final
/// state.
pub proof fn lemma_message_step_rates_final_state<S, SM, IM, CP>(
    node_id: usize,
    state_machine: &SM,
    incentive_mechanism: &IM,
    consensus_protocol: &CP,
    old_state: S,
    final_state: S,
    is_partitioned: bool,
    peer_states: &[S],
    normal_weight: SM::Weight,
    r: Result<(Vec<Action<S>>, IM::Reward), AxiomError>,
) where
    SM: StateMachine<State = S, Input = S>,
    IM: IncentiveMechanism<State = S>,
    CP: ConsensusProtocol<State = S>,

    requires
        send_message_step(
            node_id,
            state_machine,
            incentive_mechanism,
            consensus_protocol,
            old_state,
            final_state,
            is_partitioned,
            peer_states,
            normal_weight,
            r,
        ),
        r is Ok,
    ensures
        exists|target: S, produced: Vec<Action<S>>|
            #![trigger call_ensures(CP::propose, (consensus_protocol, peer_states), target), call_ensures(SM::transition, (state_machine, &old_state, target, normal_weight, is_partitioned), Ok::<(S, Vec<Action<S>>), AxiomError>((final_state, produced)))]
            call_ensures(CP::propose, (consensus_protocol, peer_states), target) && call_ensures(
                SM::transition,
                (state_machine, &old_state, target, normal_weight, is_partitioned),
                Ok::<(S, Vec<Action<S>>), AxiomError>((final_state, produced)),
            ),
        call_ensures(
            IM::calculate_reward::<SM>,
            (incentive_mechanism, &final_state, peer_states),
            Ok::<IM::Reward, AxiomError>(r->Ok_0.1),
        ),
        forall|i: int|
            0 <= i < r->Ok_0.0@.len() && (#[trigger] r->Ok_0.0@[i] is SendMessage) ==> r->Ok_0.0@[i]
                == Action::SendMessage(Message { sender_id: node_id, state: final_state }),
{
    let (target, moved) = choose|target: S, moved: Result<(S, Vec<Action<S>>), AxiomError>|
        {
            &&& #[trigger] call_ensures(CP::propose, (consensus_protocol, peer_states), target)
            &&& #[trigger] call_ensures(
                SM::transition,
                (state_machine, &old_state, target, normal_weight, is_partitioned),
                moved,
            )
            &&& match moved {
                Err(e) => final_state == old_state && r == Err::<
                    (Vec<Action<S>>, IM::Reward),
                    AxiomError,
                >(e),
                Ok((new_state, actions)) => {
                    &&& final_state == new_state
                    &&& exists|reward: Result<IM::Reward, AxiomError>|
                        #[trigger] call_ensures(
                            IM::calculate_reward::<SM>,
                            (incentive_mechanism, &new_state, peer_states),
                            reward,
                        ) && step_result(r, stamped(actions@, node_id, new_state), reward)
                },
            }
        };
    let (new_state, produced) = moved->Ok_0;
    assert(moved == Ok::<(S, Vec<Action<S>>), AxiomError>((final_state, produced)));
    let reward = choose|reward: Result<IM::Reward, AxiomError>|
        #[trigger] call_ensures(
            IM::calculate_reward::<SM>,
            (incentive_mechanism, &new_state, peer_states),
            reward,
        ) && step_result(r, stamped(produced@, node_id, new_state), reward);
    assert(reward == Ok::<IM::Reward, AxiomError>(r->Ok_0.1));
    assert forall|i: int|
        0 <= i < r->Ok_0.0@.len() && (#[trigger] r->Ok_0.0@[i] is SendMessage) implies r->Ok_0.0@[i]
            == Action::SendMessage(Message { sender_id: node_id, state: final_state }) by {
        assert(r->Ok_0.0@[i] == stamp(produced@[i], node_id, new_state));
    }
}

/// What a node step on a local update does: the state stays and the
/// incentive mechanism rates it against the peers; no action is produced.
pub open spec fn update_state_step<S, SM, IM>(
    incentive_mechanism: &IM,
    old_state: S,
    final_state: S,
    peer_states: &[S],
    r: Result<(Vec<Action<S>>, IM::Reward), AxiomError>,
) -> bool where SM: StateMachine<State = S>, IM: IncentiveMechanism<State = S> {
    &&& final_state == old_state
    &&& exists|reward: Result<IM::Reward, AxiomError>|
        #[trigger] call_ensures(
            IM::calculate_reward::<SM>,
            (incentive_mechanism, &old_state, peer_states),
            reward,
        ) && step_result(r, Seq::empty(), reward)
}

/// One step of node `node_id` on `action`, with the node's `state`, its
/// peers' states, whether it is partitioned and the network's weight for
/// unpartitioned updates (these two are read for `SendMessage` only).
/// `SendMessage` is `send_message_step` and `UpdateState` is
/// `update_state_step`; neither reads what the incoming message holds.
/// Returns the actions the step produced and the reward it earned; an error
/// of the state machine or of the incentive mechanism is passed on.
pub fn process_action<S, SM, IM, CP>(
    node_id: usize,
    state_machine: &SM,
    incentive_mechanism: &IM,
    consensus_protocol: &CP,
    state: &mut S,
    action: &Action<S>,
    is_partitioned: bool,
    peer_states: &[S],
    normal_weight: SM::Weight,
) -> (r: Result<(Vec<Action<S>>, IM::Reward), AxiomError>) where
    S: Copy,
    SM: StateMachine<State = S, Input = S>,
    IM: IncentiveMechanism<State = S>,
    CP: ConsensusProtocol<State = S>,

    ensures
        action is UpdateState ==> update_state_step::<S, SM, IM>(
            incentive_mechanism,
            *old(state),
            *final(state),
            peer_states,
            r,
        ),
        action is SendMessage ==> send_message_step(
            node_id,
            state_machine,
            incentive_mechanism,
            consensus_protocol,
            *old(state),
            *final(state),
            is_partitioned,
            peer_states,
            normal_weight,
            r,
        ),
{
    match action {
        Action::SendMessage(_) => {
            let target = consensus_protocol.propose(peer_states);
            let moved = state_machine.transition(state, target, normal_weight, is_partitioned);
            match moved {
                Err(e) => Err(e),
                Ok((new_state, actions)) => {
                    *state = new_state;
                    let sent = stamp_actions(actions, node_id, new_state);
                    let reward = incentive_mechanism.calculate_reward::<SM>(state, peer_states);
                    match reward {
                        Ok(x) => Ok((sent, x)),
                        Err(e) => Err(e),
                    }
                },
            }
        },
        Action::UpdateState => {
            let reward = incentive_mechanism.calculate_reward::<SM>(state, peer_states);
            match reward {
                Ok(x) => Ok((Vec::new(), x)),
                Err(e) => Err(e),
            }
        },
    }
}

/// Whether the network has converged on `states`: never when there are no
/// states, else as `protocol` (the first node's protocol) judges them.
pub fn consensus_reached<CP: ConsensusProtocol>(states: &[CP::State], protocol: Option<&CP>) -> (r:
    bool)
    requires
        states@.len() > 0 ==> protocol is Some,
    ensures
        states@.len() == 0 ==> !r,
        states@.len() > 0 ==> call_ensures(CP::is_consensus, (protocol->Some_0, states), r),
{
    if states.len() == 0 {
        return false;
    }
    match protocol {
        Some(p) => p.is_consensus(states),
        None => false,
    }
}

} // verus!
