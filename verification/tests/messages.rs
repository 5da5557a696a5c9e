use match_server::internal::{GameRequest, GameResponse, Move, Outcome, Player, RoundResult};
use match_server::messages::{Id, SocketRequest, SocketResponse};

#[test]
fn socket_frames_carry_their_payload() {
    let request = SocketRequest { user_id: Some(Id(1)), request: Move::Rock };
    assert_eq!(request.user_id, Some(Id(1)));
    assert!(matches!(request.request, Move::Rock));

    let response = SocketResponse { user_id: Id(2), message: GameResponse::Connected };
    assert_eq!(response.user_id, Id(2));
    assert!(matches!(response.message, GameResponse::Connected));
}

#[test]
fn game_requests_name_their_acting_participant() {
    let connect = GameRequest::Connect(Player { id: Id(1) });
    assert_eq!(connect.player_id(), Id(1));
    let action = GameRequest::Move { player: Id(2), value: Move::Scissors };
    assert_eq!(action.player_id(), Id(2));
    let disconnect = GameRequest::Disconnect(Player { id: Id(3) });
    assert_eq!(disconnect.player_id(), Id(3));
}

#[test]
fn round_results_pair_an_outcome_with_the_opposing_move() {
    let round = RoundResult { result: Outcome::Win, other_move: Move::Paper };
    assert_eq!(round.result, Outcome::Win);
    assert_eq!(round.other_move, Move::Paper);
    let summary = GameResponse::MatchResult { result: Outcome::Draw };
    assert!(matches!(summary, GameResponse::MatchResult { result: Outcome::Draw }));
}
