use cap_consensus::simulation::{
    action_for, active_node_count, after_step, final_verdict, node_reaction, on_send_failure,
    plan_step, refreshes_partitions, select_active, shutdown_verdict, NodeEvent, NodeReaction,
    SendFailure, StepVerdict, TaskOutcome, SHUTDOWN_TIMEOUT_SECS,
};
use cap_consensus::{Action, AxiomError};

#[test]
fn partitions_refresh_every_fifth_step() {
    assert!(refreshes_partitions(0));
    assert!(refreshes_partitions(5));
    assert!(refreshes_partitions(10));
    assert!(!refreshes_partitions(3));
    assert!(!refreshes_partitions(11));
}

#[test]
fn active_count_is_half_at_least_one() {
    assert_eq!(active_node_count(0), 1);
    assert_eq!(active_node_count(1), 1);
    assert_eq!(active_node_count(2), 1);
    assert_eq!(active_node_count(5), 2);
    assert_eq!(active_node_count(10), 5);
}

#[test]
fn select_active_takes_a_prefix() {
    assert_eq!(select_active(vec![4, 2, 0, 3, 1], 5), vec![4, 2]);
    assert_eq!(select_active(vec![], 0), Vec::<usize>::new());
    assert_eq!(select_active(vec![0], 1), vec![0]);
}

#[test]
fn plan_step_reconfigures_on_fifth_steps() {
    let plan = plan_step(10, 6);
    let t = plan.new_partitions.expect("step 10 reconfigures");
    assert_eq!(t.num_groups(), 2);
    let plan = plan_step(5, 6);
    let t = plan.new_partitions.expect("step 5 reconfigures");
    assert_eq!(t.num_groups(), 1);
    assert!(plan_step(7, 6).new_partitions.is_none());
}

#[test]
fn plan_step_activates_distinct_nodes() {
    for n in 0..9 {
        let plan = plan_step(1, n);
        let mut active = plan.active_nodes.clone();
        let expected = std::cmp::min(std::cmp::max(n / 2, 1), n);
        assert_eq!(active.len(), expected);
        active.sort();
        active.dedup();
        assert_eq!(active.len(), expected);
        assert!(active.iter().all(|&id| id < n));
    }
}

#[test]
fn action_for_picks_message_or_update() {
    match action_for(3, 7i64, true) {
        Action::SendMessage(m) => {
            assert_eq!(m.sender_id, 3);
            assert_eq!(m.state, 7);
        }
        Action::UpdateState => panic!("expected a message"),
    }
    assert!(matches!(action_for(3, 7i64, false), Action::UpdateState));
}

#[test]
fn send_failures() {
    assert!(on_send_failure(SendFailure::Full).is_ok());
    match on_send_failure(SendFailure::Closed) {
        Err(AxiomError::NetworkSend(s)) => assert_eq!(s, "Channel closed"),
        other => panic!("unexpected {:?}", other),
    }
}

#[test]
fn after_step_verdicts() {
    assert_eq!(after_step(3, true), StepVerdict::Stop);
    assert_eq!(after_step(0, false), StepVerdict::Report);
    assert_eq!(after_step(300, false), StepVerdict::Report);
    assert_eq!(after_step(301, false), StepVerdict::Continue);
}

#[test]
fn shutdown_verdicts() {
    assert!(shutdown_verdict(TaskOutcome::Finished(Ok(()))).is_ok());
    match shutdown_verdict(TaskOutcome::Finished(Err(AxiomError::Timeout(9)))) {
        Err(AxiomError::Timeout(9)) => {}
        other => panic!("unexpected {:?}", other),
    }
    match shutdown_verdict(TaskOutcome::JoinFailed) {
        Err(AxiomError::NetworkSend(s)) => assert_eq!(s, "Task panicked"),
        other => panic!("unexpected {:?}", other),
    }
    match shutdown_verdict(TaskOutcome::TimedOut) {
        Err(AxiomError::ShutdownTimeout(n)) => assert_eq!(n, 5),
        other => panic!("unexpected {:?}", other),
    }
    assert_eq!(SHUTDOWN_TIMEOUT_SECS, 5);
}

#[test]
fn final_verdicts() {
    assert!(final_verdict(true, 20).is_ok());
    match final_verdict(false, 20) {
        Err(AxiomError::Timeout(n)) => assert_eq!(n, 20),
        other => panic!("unexpected {:?}", other),
    }
}

#[test]
fn node_reactions() {
    assert!(matches!(node_reaction(NodeEvent::ActionReceived), NodeReaction::Process));
    assert!(matches!(node_reaction(NodeEvent::ChannelClosed), NodeReaction::Stop));
    assert!(matches!(node_reaction(NodeEvent::ShutdownRequested), NodeReaction::Stop));
    match node_reaction(NodeEvent::BroadcastFailed) {
        NodeReaction::Fail(AxiomError::NetworkSend(s)) => assert_eq!(s, "Failed to send action"),
        other => panic!("unexpected {:?}", other),
    }
}
