use match_server::game_manager::{DirectoryError, GameManager};
use match_server::internal::{GameRequest, Move, Player};
use match_server::messages::{CreateGameRequest, CreateGameResponse, Id};

fn request(game: u128, players: &[u128]) -> CreateGameRequest {
    CreateGameRequest {
        game_id: Id(game),
        players: players.iter().map(|n| Id(*n)).collect(),
    }
}

#[test]
fn create_game_succeeds_once_then_conflicts_on_either_participant() {
    let mut directory = GameManager::new();
    let created = directory.create_game(request(100, &[1, 2]));
    assert_eq!(created, Ok(CreateGameResponse { game_id: Id(100) }));

    let reuse_first = directory.create_game(request(101, &[1, 3]));
    assert_eq!(reuse_first, Err(DirectoryError::Conflict));

    let reuse_second = directory.create_game(request(102, &[4, 2]));
    assert_eq!(reuse_second, Err(DirectoryError::Conflict));

    assert_eq!(directory.games_len(), 1);
}

#[test]
fn create_game_rejects_a_taken_session_identifier() {
    let mut directory = GameManager::new();
    assert!(directory.create_game(request(100, &[1, 2])).is_ok());
    let reuse_id = directory.create_game(request(100, &[3, 4]));
    assert_eq!(reuse_id, Err(DirectoryError::Conflict));
}

#[test]
fn create_game_validates_the_participant_count() {
    let mut directory = GameManager::new();
    assert_eq!(
        directory.create_game(request(100, &[1])),
        Err(DirectoryError::InvalidRequest)
    );
    assert_eq!(
        directory.create_game(request(100, &[1, 2, 3])),
        Err(DirectoryError::InvalidRequest)
    );
    assert_eq!(
        directory.create_game(request(100, &[])),
        Err(DirectoryError::InvalidRequest)
    );
    assert_eq!(directory.games_len(), 0);
}

#[test]
fn create_game_rejects_a_participant_paired_with_itself() {
    let mut directory = GameManager::new();
    assert_eq!(
        directory.create_game(request(100, &[1, 1])),
        Err(DirectoryError::InvalidRequest)
    );
    assert_eq!(directory.games_len(), 0);
}

#[test]
fn default_directory_starts_empty() {
    let directory: GameManager = Default::default();
    assert_eq!(directory.games_len(), 0);
}

#[test]
fn get_game_for_an_unknown_session_is_not_found() {
    let directory = GameManager::new();
    assert_eq!(directory.get_game(Id(100)), Err(DirectoryError::NotFound));
}

#[test]
fn get_game_returns_the_created_session() {
    let mut directory = GameManager::new();
    assert!(directory.create_game(request(100, &[1, 2])).is_ok());
    let game = directory.get_game(Id(100)).unwrap();
    assert_eq!(game.id, Id(100));
    assert_eq!(game.players, (Id(1), Id(2)));
}

#[test]
fn lookup_by_participant_finds_the_session_of_either_member() {
    let mut directory = GameManager::new();
    assert!(directory.create_game(request(100, &[1, 2])).is_ok());
    assert!(directory.create_game(request(200, &[3, 4])).is_ok());
    assert_eq!(directory.lookup_by_participant(Id(1)).unwrap().id, Id(100));
    assert_eq!(directory.lookup_by_participant(Id(2)).unwrap().id, Id(100));
    assert_eq!(directory.lookup_by_participant(Id(4)).unwrap().id, Id(200));
    assert_eq!(
        directory.lookup_by_participant(Id(9)),
        Err(DirectoryError::NotFound)
    );
}

#[test]
fn route_request_forwards_to_the_acting_participants_session() {
    let mut directory = GameManager::new();
    assert!(directory.create_game(request(100, &[1, 2])).is_ok());
    let action = GameRequest::Move { player: Id(2), value: Move::Rock };
    assert_eq!(directory.route_request(&action), Ok(Id(100)));
    let connect = GameRequest::Connect(Player { id: Id(1) });
    assert_eq!(directory.route_request(&connect), Ok(Id(100)));
}

#[test]
fn remove_game_for_an_unknown_session_is_not_found() {
    let mut directory = GameManager::new();
    assert_eq!(directory.remove_game(Id(100)), Err(DirectoryError::NotFound));
}

#[test]
fn remove_game_reclaims_both_assignments() {
    let mut directory = GameManager::new();
    assert!(directory.create_game(request(100, &[1, 2])).is_ok());
    assert!(directory.create_game(request(200, &[3, 4])).is_ok());

    assert_eq!(directory.remove_game(Id(100)), Ok(()));
    assert_eq!(directory.get_game(Id(100)), Err(DirectoryError::NotFound));
    assert_eq!(
        directory.lookup_by_participant(Id(1)),
        Err(DirectoryError::NotFound)
    );
    assert_eq!(
        directory.lookup_by_participant(Id(2)),
        Err(DirectoryError::NotFound)
    );
    assert_eq!(directory.games_len(), 1);

    // The untouched session is still there and still routable.
    assert_eq!(directory.lookup_by_participant(Id(3)).unwrap().id, Id(200));

    // The reclaimed participants can be paired again.
    assert_eq!(
        directory.create_game(request(300, &[1, 2])),
        Ok(CreateGameResponse { game_id: Id(300) })
    );
}

#[test]
fn route_request_for_an_unassigned_participant_signals_not_found() {
    let directory = GameManager::new();
    let action = GameRequest::Move { player: Id(5), value: Move::Paper };
    assert_eq!(directory.route_request(&action), Err(DirectoryError::NotFound));
}
