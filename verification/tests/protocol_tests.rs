use cap_consensus::protocol::{
    consensus_reached, process_action, stamp_actions, ConsensusProtocol, IncentiveMechanism,
    StateMachine,
};
use cap_consensus::{Action, AxiomError, Message};

/// Moves toward the input: halfway when partitioned, else by `weight`
/// tenths of the distance; fails on a negative input. Its messages carry
/// placeholder fields, which the node overwrites.
#[derive(Clone)]
struct Halfway;

impl StateMachine for Halfway {
    type Input = i64;
    type State = i64;
    type Weight = i64;

    fn transition(
        &self,
        state: &i64,
        input: i64,
        normal_weight: i64,
        is_partitioned: bool,
    ) -> Result<(i64, Vec<Action<i64>>), AxiomError> {
        if input < 0 {
            return Err(AxiomError::InvalidTransition("negative input".to_string()));
        }
        let new_state = if is_partitioned {
            (state + input) / 2
        } else {
            state + (input - state) * normal_weight / 10
        };
        Ok((
            new_state,
            vec![
                Action::SendMessage(Message { sender_id: 0, state: -7 }),
                Action::UpdateState,
                Action::SendMessage(Message { sender_id: 0, state: -8 }),
            ],
        ))
    }
}

/// Reward: 100 minus the number of peers.
#[derive(Clone)]
struct Closeness;

impl IncentiveMechanism for Closeness {
    type Reward = i64;
    type State = i64;

    fn calculate_reward<SM: StateMachine<State = i64>>(
        &self,
        _state: &SM::State,
        peer_states: &[SM::State],
    ) -> Result<i64, AxiomError> {
        Ok(100 - peer_states.len() as i64)
    }
}

/// Proposes the largest peer state; consensus when all states are equal.
#[derive(Clone)]
struct MaxProtocol;

impl ConsensusProtocol for MaxProtocol {
    type State = i64;

    fn propose(&self, peer_states: &[i64]) -> i64 {
        peer_states.iter().copied().max().unwrap_or(0)
    }

    fn is_consensus(&self, states: &[i64]) -> bool {
        states.windows(2).all(|w| w[0] == w[1])
    }
}

fn message(action: &Action<i64>) -> Option<(usize, i64)> {
    match action {
        Action::SendMessage(m) => Some((m.sender_id, m.state)),
        Action::UpdateState => None,
    }
}

#[test]
fn stamp_actions_sets_sender_and_state() {
    let out = stamp_actions(
        vec![Action::SendMessage(Message { sender_id: 0, state: 1 }), Action::UpdateState],
        4,
        9i64,
    );
    assert_eq!(out.len(), 2);
    assert_eq!(message(&out[0]), Some((4, 9)));
    assert!(matches!(out[1], Action::UpdateState));
}

#[test]
fn send_message_partitioned_moves_halfway_to_the_proposal() {
    let mut state = 10i64;
    let action = Action::SendMessage(Message { sender_id: 1, state: 10 });
    let (actions, reward) = process_action(
        5, &Halfway, &Closeness, &MaxProtocol, &mut state, &action, true, &[30, 20], 4,
    )
    .unwrap();
    assert_eq!(state, 20);
    assert_eq!(reward, 98);
    assert_eq!(actions.len(), 3);
    assert_eq!(message(&actions[0]), Some((5, 20)));
    assert!(matches!(actions[1], Action::UpdateState));
    assert_eq!(message(&actions[2]), Some((5, 20)));
}

#[test]
fn send_message_connected_moves_toward_the_proposal_by_the_weight() {
    let mut state = 10i64;
    let action = Action::SendMessage(Message { sender_id: 1, state: 10 });
    let (actions, reward) =
        process_action(2, &Halfway, &Closeness, &MaxProtocol, &mut state, &action, false, &[30], 5)
            .unwrap();
    assert_eq!(state, 20);
    assert_eq!(reward, 99);
    assert_eq!(message(&actions[0]), Some((2, 20)));
}

#[test]
fn message_payload_is_not_read() {
    let mut a = 10i64;
    let mut b = 10i64;
    let ra = process_action(
        1, &Halfway, &Closeness, &MaxProtocol, &mut a,
        &Action::SendMessage(Message { sender_id: 1, state: 10 }), true, &[30], 4,
    )
    .unwrap();
    let rb = process_action(
        1, &Halfway, &Closeness, &MaxProtocol, &mut b,
        &Action::SendMessage(Message { sender_id: 9, state: -100 }), true, &[30], 4,
    )
    .unwrap();
    assert_eq!(a, b);
    assert_eq!(ra.1, rb.1);
    assert_eq!(ra.0.iter().map(message).collect::<Vec<_>>(), rb.0.iter().map(message).collect::<Vec<_>>());
}

#[test]
fn update_state_keeps_the_state() {
    let mut state = 10i64;
    let action: Action<i64> = Action::UpdateState;
    let (actions, reward) = process_action(
        0, &Halfway, &Closeness, &MaxProtocol, &mut state, &action, true, &[1, 2, 3], 4,
    )
    .unwrap();
    assert_eq!(state, 10);
    assert!(actions.is_empty());
    assert_eq!(reward, 97);
}

#[test]
fn transition_errors_pass_through() {
    let mut state = 10i64;
    let action = Action::SendMessage(Message { sender_id: 1, state: 10 });
    let r = process_action(0, &Halfway, &Closeness, &MaxProtocol, &mut state, &action, false, &[-5], 4);
    assert!(matches!(r, Err(AxiomError::InvalidTransition(_))));
    assert_eq!(state, 10);
}

#[test]
fn test_consensus_detection() {
    assert!(!consensus_reached::<MaxProtocol>(&[], None));
    assert!(!consensus_reached(&[], Some(&MaxProtocol)));
    assert!(consensus_reached(&[3, 3, 3], Some(&MaxProtocol)));
    assert!(!consensus_reached(&[3, 4], Some(&MaxProtocol)));
}
