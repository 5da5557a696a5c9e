use match_server::internal::Player;
use match_server::matchmaking::{
    Delivery, EngineReport, MatchmakingRequest, MatchmakingResponse, MatchmakingService,
    QueueError,
};
use match_server::messages::Id;

fn player(n: u128) -> Player {
    Player { id: Id(n) }
}

#[test]
fn joins_with_distinct_identities_track_membership() {
    let mut engine = MatchmakingService::new();
    assert_eq!(engine.queue_len(), 0);
    for n in [1u128, 2, 3] {
        assert_eq!(engine.add_user(player(n)), Ok(()));
    }
    assert_eq!(engine.queue_len(), 3);
    assert!(engine.is_queued(Id(1)));
    assert!(engine.is_queued(Id(2)));
    assert!(engine.is_queued(Id(3)));
    assert!(!engine.is_queued(Id(4)));
}

#[test]
fn duplicate_join_is_rejected_and_leaves_length_unchanged() {
    let mut engine = MatchmakingService::new();
    assert_eq!(engine.add_user(player(7)), Ok(()));
    assert_eq!(engine.queue_len(), 1);
    assert_eq!(engine.add_user(player(7)), Err(QueueError::AlreadyQueued));
    assert_eq!(engine.queue_len(), 1);
}

#[test]
fn duplicate_join_is_signalled_to_the_participant() {
    let mut engine = MatchmakingService::new();
    let (first, report) = engine.handle_message(MatchmakingRequest::JoinQueue(player(7)));
    assert_eq!(report, EngineReport::Joined(Id(7)));
    assert_eq!(
        first,
        vec![Delivery { to: Id(7), message: MatchmakingResponse::QueueJoined }]
    );
    let (second, report) = engine.handle_message(MatchmakingRequest::JoinQueue(player(7)));
    assert_eq!(report, EngineReport::AlreadyQueued(Id(7)));
    assert_eq!(
        second,
        vec![Delivery { to: Id(7), message: MatchmakingResponse::AlreadyQueued }]
    );
    assert_eq!(engine.queue_len(), 1);
}

#[test]
fn one_sweep_pairs_two_and_notifies_both_once() {
    let mut engine = MatchmakingService::new();
    assert_eq!(engine.add_user(player(10)), Ok(()));
    assert_eq!(engine.add_user(player(20)), Ok(()));
    let deliveries = engine.read_queue();
    assert_eq!(
        deliveries,
        vec![
            Delivery { to: Id(10), message: MatchmakingResponse::MatchFound(0) },
            Delivery { to: Id(20), message: MatchmakingResponse::MatchFound(0) },
        ]
    );
    assert_eq!(deliveries[0].message, deliveries[1].message);
    assert_eq!(engine.queue_len(), 0);
    assert!(!engine.is_queued(Id(10)));
    assert!(!engine.is_queued(Id(20)));
    assert_eq!(engine.games_len(), 1);
    let game = engine.game_at(0).unwrap();
    assert_eq!(game.id, 0);
    assert_eq!(game.player1, player(10));
    assert_eq!(game.player2, player(20));
}

#[test]
fn odd_arrival_waits_for_the_next_sweep() {
    let mut engine = MatchmakingService::new();
    for n in [1u128, 2, 3] {
        assert_eq!(engine.add_user(player(n)), Ok(()));
    }
    let first = engine.read_queue();
    assert_eq!(first.len(), 2);
    assert_eq!(first[0].to, Id(1));
    assert_eq!(first[1].to, Id(2));
    assert_eq!(first[0].message, MatchmakingResponse::MatchFound(0));
    assert_eq!(first[1].message, MatchmakingResponse::MatchFound(0));
    assert_eq!(engine.queue_len(), 1);
    assert!(engine.is_queued(Id(3)));

    assert_eq!(engine.add_user(player(4)), Ok(()));
    let second = engine.read_queue();
    assert_eq!(second.len(), 2);
    assert_eq!(second[0].to, Id(3));
    assert_eq!(second[1].to, Id(4));
    assert_eq!(second[0].message, MatchmakingResponse::MatchFound(1));
    assert_eq!(second[1].message, MatchmakingResponse::MatchFound(1));
    assert_eq!(engine.queue_len(), 0);
    assert_eq!(engine.games_len(), 2);
}

#[test]
fn sweep_of_an_empty_queue_does_nothing() {
    let mut engine = MatchmakingService::new();
    let deliveries = engine.read_queue();
    assert!(deliveries.is_empty());
    assert_eq!(engine.queue_len(), 0);
    assert_eq!(engine.games_len(), 0);
}

#[test]
fn sweep_of_a_single_participant_keeps_it_queued() {
    let mut engine = MatchmakingService::new();
    assert_eq!(engine.add_user(player(5)), Ok(()));
    let deliveries = engine.read_queue();
    assert!(deliveries.is_empty());
    assert_eq!(engine.queue_len(), 1);
    assert!(engine.is_queued(Id(5)));
    assert_eq!(engine.games_len(), 0);
}

#[test]
fn leave_removes_only_the_named_identity() {
    let mut engine = MatchmakingService::new();
    assert_eq!(engine.add_user(player(1)), Ok(()));
    assert_eq!(engine.add_user(player(2)), Ok(()));
    assert_eq!(engine.remove_user(Id(1)), EngineReport::Left(Id(1)));
    assert_eq!(engine.queue_len(), 1);
    assert!(!engine.is_queued(Id(1)));
    assert!(engine.is_queued(Id(2)));
}

#[test]
fn leaving_an_identity_not_queued_is_a_no_op() {
    let mut engine = MatchmakingService::new();
    assert_eq!(engine.add_user(player(1)), Ok(()));
    assert_eq!(engine.remove_user(Id(9)), EngineReport::NotQueued(Id(9)));
    assert_eq!(engine.queue_len(), 1);
    assert!(engine.is_queued(Id(1)));
}

#[test]
fn leave_via_message_reports_and_delivers_nothing() {
    let mut engine = MatchmakingService::new();
    engine.handle_message(MatchmakingRequest::JoinQueue(player(1)));
    let (deliveries, report) = engine.handle_message(MatchmakingRequest::LeaveQueue(Id(1)));
    assert!(deliveries.is_empty());
    assert_eq!(report, EngineReport::Left(Id(1)));
    let (deliveries, report) = engine.handle_message(MatchmakingRequest::LeaveQueue(Id(1)));
    assert!(deliveries.is_empty());
    assert_eq!(report, EngineReport::NotQueued(Id(1)));
}

#[test]
fn disconnect_acts_as_an_implicit_leave() {
    let mut engine = MatchmakingService::new();
    engine.handle_message(MatchmakingRequest::JoinQueue(player(8)));
    let (deliveries, report) = engine.handle_message(MatchmakingRequest::Disconnected(Id(8)));
    assert!(deliveries.is_empty());
    assert_eq!(report, EngineReport::Left(Id(8)));
    assert_eq!(engine.queue_len(), 0);
}

#[test]
fn default_engine_starts_empty() {
    let engine: MatchmakingService = Default::default();
    assert_eq!(engine.queue_len(), 0);
    assert_eq!(engine.games_len(), 0);
}

#[test]
fn rejoining_after_a_match_is_allowed() {
    let mut engine = MatchmakingService::new();
    assert_eq!(engine.add_user(player(1)), Ok(()));
    assert_eq!(engine.add_user(player(2)), Ok(()));
    engine.read_queue();
    assert_eq!(engine.add_user(player(1)), Ok(()));
    assert!(engine.is_queued(Id(1)));
}
