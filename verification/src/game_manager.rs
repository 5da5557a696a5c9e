//! The session directory: the shared mapping from sessions to their
//! participants and from each participant to the one session it plays in.
//!
//! The directory is plain data; the caller that shares it between tasks
//! guards it with a mutual-exclusion discipline and holds the guard only
//! around single calls, never across a mailbox send.

use vstd::prelude::*;
use crate::internal::GameRequest;
use crate::messages::{CreateGameRequest, CreateGameResponse, Id};

verus! {

/// A session record: its identifier and its two participants.
#[derive(Clone, Copy, Debug, PartialEq, Eq)]
pub struct Game {
    pub id: Id,
    pub players: (Id, Id),
}

/// The error a directory operation reports.
#[derive(Clone, Copy, Debug, PartialEq, Eq, Structural)]
pub enum DirectoryError {
    Conflict,
    NotFound,
    InvalidRequest,
}

/// The session directory: session records keyed by session identifier, and
/// the assignment of each participant to the session it plays in.
pub struct GameManager {
    games: Vec<Game>,
    player_assignment: Vec<(Id, Id)>,
}

impl GameManager {
    /// The session records, in creation order.
    pub closed spec fn games_seq(self) -> Seq<Game> {
        self.games@
    }

    /// The assignments, each a pair of participant and session identifier.
    pub closed spec fn assignment_seq(self) -> Seq<(Id, Id)> {
        self.player_assignment@
    }

    /// Whether a session with identifier `g` exists.
    pub open spec fn has_game(self, g: Id) -> bool {
        exists|i: int| 0 <= i < self.games_seq().len() && self.games_seq()[i].id == g
    }

    /// The position of the session with identifier `g`, when one exists.
    pub open spec fn game_index(self, g: Id) -> int {
        choose|i: int| 0 <= i < self.games_seq().len() && self.games_seq()[i].id == g
    }

    /// The session record with identifier `g`, when one exists.
    pub open spec fn game_with(self, g: Id) -> Game {
        self.games_seq()[self.game_index(g)]
    }

    /// Whether participant `p` currently belongs to a session.
    pub open spec fn assigned(self, p: Id) -> bool {
        exists|i: int| 0 <= i < self.assignment_seq().len() && self.assignment_seq()[i].0 == p
    }

    /// The position of participant `p`'s assignment, when one exists.
    pub open spec fn assignment_index(self, p: Id) -> int {
        choose|i: int| 0 <= i < self.assignment_seq().len() && self.assignment_seq()[i].0 == p
    }

    /// The identifier of the session participant `p` belongs to, when one
    /// exists.
    pub open spec fn assignment_of(self, p: Id) -> Id {
        self.assignment_seq()[self.assignment_index(p)].1
    }

    /// Whether the `i`-th assignment names an existing session that its
    /// participant plays in.
    pub open spec fn assignment_backed(self, i: int) -> bool {
        exists|j: int|
            0 <= j < self.games_seq().len() && self.games_seq()[j].id == self.assignment_seq()[i].1
                && (self.games_seq()[j].players.0 == self.assignment_seq()[i].0
                || self.games_seq()[j].players.1 == self.assignment_seq()[i].0)
    }

    /// Well-formedness: session identifiers are unique; a participant
    /// appears in at most one assignment; a session's two participants are
    /// distinct and both assigned to it; and every assignment names an
    /// existing session the participant plays in.
    pub open spec fn wf(self) -> bool {
        let gs = self.games_seq();
        let pa = self.assignment_seq();
        &&& forall|i: int, j: int|
            0 <= i < gs.len() && 0 <= j < gs.len() && i != j ==> gs[i].id != gs[j].id
        &&& forall|i: int, j: int|
            0 <= i < pa.len() && 0 <= j < pa.len() && i != j ==> pa[i].0 != pa[j].0
        &&& forall|j: int| 0 <= j < gs.len() ==> gs[j].players.0 != gs[j].players.1
        &&& forall|j: int|
            0 <= j < gs.len() ==> pa.contains((gs[j].players.0, gs[j].id)) && pa.contains(
                (gs[j].players.1, gs[j].id),
            )
        &&& forall|i: int| 0 <= i < pa.len() ==> #[trigger] self.assignment_backed(i)
    }

    /// The state change of an accepted creation: the session record is
    /// appended and both participants are assigned to it, atomically.
    pub open spec fn create_accepted(pre: Self, post: Self, g: Id, a: Id, b: Id) -> bool {
        &&& post.games_seq() == pre.games_seq().push((Game { id: g, players: (a, b) }))
        &&& post.assignment_seq() == pre.assignment_seq().push((a, g)).push((b, g))
        &&& post.has_game(g)
        &&& post.assigned(a)
        &&& post.assigned(b)
    }

    /// Makes an empty directory.
    pub fn new() -> (s: Self)
        ensures
            s.wf(),
            s.games_seq().len() == 0,
            s.assignment_seq().len() == 0,
    {
        Self { games: Vec::new(), player_assignment: Vec::new() }
    }

    /// Opens a session for the two participants of `request`.
    ///
    /// A request whose participant list does not hold exactly two distinct
    /// identities is rejected with `InvalidRequest`.  If either participant
    /// already belongs to a session, or the session identifier is already
    /// taken, nothing changes and `Conflict` is reported.  Otherwise the
    /// session record and both assignments are inserted together.
    pub fn create_game(&mut self, request: CreateGameRequest) -> (r: Result<
        CreateGameResponse,
        DirectoryError,
    >)
        requires
            old(self).wf(),
        ensures
            final(self).wf(),
            request.players@.len() != 2 ==> (r matches Err(DirectoryError::InvalidRequest)
                && *final(self) == *old(self)),
            request.players@.len() == 2 && request.players@[0] == request.players@[1] ==> (
            r matches Err(DirectoryError::InvalidRequest) && *final(self) == *old(self)),
            request.players@.len() == 2 && request.players@[0] != request.players@[1] && (old(
                self,
            ).assigned(request.players@[0]) || old(self).assigned(request.players@[1]) || old(
                self,
            ).has_game(request.game_id)) ==> (r matches Err(DirectoryError::Conflict)
                && *final(self) == *old(self)),
            request.players@.len() == 2 && request.players@[0] != request.players@[1] && !old(
                self,
            ).assigned(request.players@[0]) && !old(self).assigned(request.players@[1]) && !old(
                self,
            ).has_game(request.game_id) ==> (r matches Ok(resp) && resp == (CreateGameResponse {
                game_id: request.game_id,
            }) && Self::create_accepted(
                *old(self),
                *final(self),
                request.game_id,
                request.players@[0],
                request.players@[1],
            )),
    {
        if request.players.len() != 2 {
            return Err(DirectoryError::InvalidRequest);
        }
        let player_a = request.players[0];
        let player_b = request.players[1];
        if player_a == player_b {
            return Err(DirectoryError::InvalidRequest);
        }
        let a_taken = contains_assignment(&self.player_assignment, player_a);
        let b_taken = contains_assignment(&self.player_assignment, player_b);
        let id_taken = contains_game(&self.games, request.game_id);
        if a_taken || b_taken || id_taken {
            proof {
                assert(old(self).assignment_seq() == self.player_assignment@);
                assert(old(self).games_seq() == self.games@);
            }
            return Err(DirectoryError::Conflict);
        }
        let ghost pre = *old(self);
        let ghost g = request.game_id;
        self.games.push(Game { id: request.game_id, players: (player_a, player_b) });
        self.player_assignment.push((player_a, request.game_id));
        self.player_assignment.push((player_b, request.game_id));
        proof {
            let gs0 = pre.games_seq();
            let pa0 = pre.assignment_seq();
            let gs1 = self.games_seq();
            let pa1 = self.assignment_seq();
            let n = pa0.len() as int;
            assert forall|i: int| 0 <= i < n implies pa1[i] == pa0[i] by {
                assert(pa0.push((player_a, g))[i] == pa0[i]);
            }
            assert(pa0.push((player_a, g))[n] == (player_a, g));
            assert(pa1[n] == (player_a, g));
            assert(pa1[n + 1] == (player_b, g));
            assert forall|i: int, j: int|
                0 <= i < pa1.len() && 0 <= j < pa1.len() && i != j implies pa1[i].0
                != pa1[j].0 by {
                if i < n && j < n {
                } else {
                    assert(forall|m: int| 0 <= m < n ==> pa0[m].0 != player_a);
                    assert(forall|m: int| 0 <= m < n ==> pa0[m].0 != player_b);
                }
            }
            assert forall|i: int, j: int|
                0 <= i < gs1.len() && 0 <= j < gs1.len() && i != j implies gs1[i].id
                != gs1[j].id by {
                assert(forall|m: int| 0 <= m < gs0.len() ==> gs0[m].id != g);
            }
            assert forall|j: int|
                0 <= j < gs1.len() implies pa1.contains((gs1[j].players.0, gs1[j].id))
                && pa1.contains((gs1[j].players.1, gs1[j].id)) by {
                if j < gs0.len() {
                    lemma_push_keeps_contains(pa0, (player_a, g), (gs0[j].players.0, gs0[j].id));
                    lemma_push_keeps_contains(
                        pa0.push((player_a, g)),
                        (player_b, g),
                        (gs0[j].players.0, gs0[j].id),
                    );
                    lemma_push_keeps_contains(pa0, (player_a, g), (gs0[j].players.1, gs0[j].id));
                    lemma_push_keeps_contains(
                        pa0.push((player_a, g)),
                        (player_b, g),
                        (gs0[j].players.1, gs0[j].id),
                    );
                } else {
                    assert(pa1[n] == (gs1[j].players.0, gs1[j].id));
                    assert(pa1[n + 1] == (gs1[j].players.1, gs1[j].id));
                }
            }
            assert forall|i: int| 0 <= i < pa1.len() implies self.assignment_backed(i) by {
                if i < n {
                    assert(pa1[i] == pa0[i]);
                    assert(pre.assignment_backed(i));
                    let j = choose|j: int|
                        0 <= j < gs0.len() && gs0[j].id == pa0[i].1 && (gs0[j].players.0
                            == pa0[i].0 || gs0[j].players.1 == pa0[i].0);
                    assert(gs1[j] == gs0[j]);
                    assert(gs1[j].id == pa1[i].1 && (gs1[j].players.0 == pa1[i].0
                        || gs1[j].players.1 == pa1[i].0));
                } else {
                    assert(gs1[gs0.len() as int].id == pa1[i].1 && (gs1[gs0.len()
                        as int].players.0 == pa1[i].0 || gs1[gs0.len() as int].players.1
                        == pa1[i].0));
                }
            }
            assert(gs1[gs0.len() as int].id == g);
            assert(pa1[n].0 == player_a);
            assert(pa1[n + 1].0 == player_b);
        }
        Ok(CreateGameResponse { game_id: request.game_id })
    }

    /// Ends a session: removes its record and reclaims both participants'
    /// assignments, so they can be assigned again.
    ///
    /// This is the teardown path, invoked when a session concludes; a
    /// transport disconnect alone does not end a session.  An unknown
    /// session identifier changes nothing and reports `NotFound`.
    pub fn remove_game(&mut self, game_id: Id) -> (r: Result<(), DirectoryError>)
        requires
            old(self).wf(),
        ensures
            final(self).wf(),
            !old(self).has_game(game_id) ==> (r matches Err(DirectoryError::NotFound)
                && *final(self) == *old(self)),
            old(self).has_game(game_id) ==> (r matches Ok(u)
                && final(self).games_seq() == old(self).games_seq().remove(
                old(self).game_index(game_id),
            ) && !final(self).has_game(game_id) && (forall|x: (Id, Id)|
                final(self).assignment_seq().contains(x) <==> (old(self).assignment_seq().contains(
                    x,
                ) && x.1 != game_id)) && (forall|p: Id|
                final(self).assigned(p) <==> (old(self).assigned(p) && old(self).assignment_of(p)
                    != game_id))),
    {
        match find_game_index(&self.games, game_id) {
            Some(position) => {
                let ghost pre = *old(self);
                let ghost j = position as int;
                self.games.remove(position);
                remove_assignments_of(&mut self.player_assignment, game_id);
                proof {
                    let gs0 = pre.games_seq();
                    let pa0 = pre.assignment_seq();
                    let gs1 = self.games_seq();
                    let pa1 = self.assignment_seq();
                    gs0.remove_ensures(j);
                    assert(gs0[j].id == game_id);
                    let c = pre.game_index(game_id);
                    if c != j {
                        assert(gs0[c].id != gs0[j].id);
                    }
                    assert forall|m: int| 0 <= m < gs1.len() implies gs1[m] == gs0[
                        if m < j {
                            m
                        } else {
                            m + 1
                        }
                    ] && gs1[m].id != game_id by {
                        if m < j {
                            assert(gs1[m] == gs0[m]);
                        } else {
                            assert(gs1[m] == gs0[m + 1]);
                        }
                    }
                    assert forall|i2: int, j2: int|
                        0 <= i2 < gs1.len() && 0 <= j2 < gs1.len() && i2 != j2 implies gs1[i2].id
                        != gs1[j2].id by {
                        let m1 = if i2 < j {
                            i2
                        } else {
                            i2 + 1
                        };
                        let m2 = if j2 < j {
                            j2
                        } else {
                            j2 + 1
                        };
                        assert(gs1[i2] == gs0[m1] && gs1[j2] == gs0[m2] && m1 != m2);
                    }
                    assert(pa1 == self.player_assignment@);
                    assert(gs1 == self.games@);
                    assert forall|i2: int, j2: int|
                        0 <= i2 < pa1.len() && 0 <= j2 < pa1.len() && i2 != j2 implies pa1[i2].0
                        != pa1[j2].0 by {}
                    assert forall|m: int|
                        0 <= m < gs1.len() implies gs1[m].players.0 != gs1[m].players.1 by {
                        if m < j {
                            assert(gs1[m] == gs0[m]);
                        } else {
                            assert(gs1[m] == gs0[m + 1]);
                        }
                    }
                    assert forall|m: int|
                        0 <= m < gs1.len() implies pa1.contains((gs1[m].players.0, gs1[m].id))
                        && pa1.contains((gs1[m].players.1, gs1[m].id)) by {
                        assert(pa0.contains((gs1[m].players.0, gs1[m].id)));
                        assert(pa0.contains((gs1[m].players.1, gs1[m].id)));
                    }
                    assert forall|i2: int| 0 <= i2 < pa1.len() implies self.assignment_backed(
                        i2,
                    ) by {
                        assert(pa1.contains(pa1[i2]));
                        assert(pa0.contains(pa1[i2]) && pa1[i2].1 != game_id);
                        let w = choose|w: int| 0 <= w < pa0.len() && pa0[w] == pa1[i2];
                        assert(pre.assignment_backed(w));
                        let g_old = choose|g_old: int|
                            0 <= g_old < gs0.len() && gs0[g_old].id == pa0[w].1 && (
                            gs0[g_old].players.0 == pa0[w].0 || gs0[g_old].players.1 == pa0[w].0);
                        assert(g_old != j);
                        let g_new = if g_old < j {
                            g_old
                        } else {
                            g_old - 1
                        };
                        assert(gs1[g_new] == gs0[g_old]);
                        assert(0 <= g_new < gs1.len() && gs1[g_new].id == pa1[i2].1 && (
                        gs1[g_new].players.0 == pa1[i2].0 || gs1[g_new].players.1 == pa1[i2].0));
                    }
                    assert forall|p: Id|
                        self.assigned(p) <==> (pre.assigned(p) && pre.assignment_of(p)
                            != game_id) by {
                        if self.assigned(p) {
                            let i2 = choose|i2: int| 0 <= i2 < pa1.len() && pa1[i2].0 == p;
                            assert(pa1.contains(pa1[i2]));
                            assert(pa0.contains(pa1[i2]) && pa1[i2].1 != game_id);
                            let w = choose|w: int| 0 <= w < pa0.len() && pa0[w] == pa1[i2];
                            assert(pa0[w].0 == p);
                            let c = pre.assignment_index(p);
                            assert(0 <= c < pa0.len() && pa0[c].0 == p);
                            if c != w {
                                assert(pa0[c].0 != pa0[w].0);
                            }
                            assert(pre.assignment_of(p) == pa0[w].1);
                        }
                        if pre.assigned(p) && pre.assignment_of(p) != game_id {
                            let c = pre.assignment_index(p);
                            assert(0 <= c < pa0.len() && pa0[c].0 == p);
                            assert(pa0.contains(pa0[c]));
                            assert(pa1.contains(pa0[c]));
                            let w2 = choose|w2: int| 0 <= w2 < pa1.len() && pa1[w2] == pa0[c];
                            assert(pa1[w2].0 == p);
                        }
                    }
                }
                Ok(())
            },
            None => Err(DirectoryError::NotFound),
        }
    }

    /// Looks a session up by its identifier, `NotFound` if there is none.
    pub fn get_game(&self, game_id: Id) -> (r: Result<Game, DirectoryError>)
        requires
            self.wf(),
        ensures
            self.has_game(game_id) ==> (r matches Ok(game) && game == self.game_with(game_id)
                && game.id == game_id),
            !self.has_game(game_id) ==> r matches Err(DirectoryError::NotFound),
    {
        match find_game_index(&self.games, game_id) {
            Some(position) => {
                let game = self.games[position];
                proof {
                    assert(self.games_seq()[position as int].id == game_id);
                    let c = self.game_index(game_id);
                    if c != position as int {
                        assert(self.games_seq()[c].id != self.games_seq()[position as int].id);
                    }
                }
                Ok(game)
            },
            None => Err(DirectoryError::NotFound),
        }
    }

    /// Looks the active session of a participant up, `NotFound` if the
    /// participant is in none.
    pub fn lookup_by_participant(&self, player_id: Id) -> (r: Result<Game, DirectoryError>)
        requires
            self.wf(),
        ensures
            self.assigned(player_id) ==> (r matches Ok(game) && game.id == self.assignment_of(
                player_id,
            ) && game == self.game_with(game.id) && (game.players.0 == player_id
                || game.players.1 == player_id)),
            !self.assigned(player_id) ==> r matches Err(DirectoryError::NotFound),
    {
        match find_assignment_index(&self.player_assignment, player_id) {
            Some(position) => {
                let entry = self.player_assignment[position];
                proof {
                    assert(self.assignment_seq()[position as int].0 == player_id);
                    let c = self.assignment_index(player_id);
                    if c != position as int {
                        assert(self.assignment_seq()[c].0 != self.assignment_seq()[position
                            as int].0);
                    }
                }
                match find_game_index(&self.games, entry.1) {
                    Some(game_position) => {
                        let game = self.games[game_position];
                        proof {
                            assert(self.games_seq()[game_position as int].id == entry.1);
                            let c = self.game_index(entry.1);
                            if c != game_position as int {
                                assert(self.games_seq()[c].id != self.games_seq()[game_position
                                    as int].id);
                            }
                            assert(self.assignment_backed(position as int));
                            let j = choose|j: int|
                                0 <= j < self.games_seq().len() && self.games_seq()[j].id
                                    == self.assignment_seq()[position as int].1 && (
                                self.games_seq()[j].players.0 == self.assignment_seq()[position
                                    as int].0 || self.games_seq()[j].players.1
                                    == self.assignment_seq()[position as int].0);
                            if j != game_position as int {
                                assert(self.games_seq()[j].id != self.games_seq()[game_position
                                    as int].id);
                            }
                        }
                        Ok(game)
                    },
                    None => {
                        // The assignment names a session the directory does
                        // not hold; under the well-formedness this function
                        // requires, that branch is unreachable, as proved
                        // here.
                        proof {
                            assert(self.assignment_backed(position as int));
                            let j = choose|j: int|
                                0 <= j < self.games_seq().len() && self.games_seq()[j].id
                                    == self.assignment_seq()[position as int].1 && (
                                self.games_seq()[j].players.0 == self.assignment_seq()[position
                                    as int].0 || self.games_seq()[j].players.1
                                    == self.assignment_seq()[position as int].0);
                            assert(self.games_seq()[j].id == entry.1);
                            assert(false);
                        }
                        Err(DirectoryError::NotFound)
                    },
                }
            },
            None => Err(DirectoryError::NotFound),
        }
    }

    /// Decides where an inbound session action must be forwarded: the
    /// session its acting participant is assigned to, or `NotFound` — to be
    /// signalled back to the transport layer, not dropped — when the
    /// participant is in no session.
    pub fn route_request(&self, request: &GameRequest) -> (r: Result<Id, DirectoryError>)
        requires
            self.wf(),
        ensures
            self.assigned(request.acting_id()) ==> (r matches Ok(g) && g == self.assignment_of(
                request.acting_id(),
            )),
            !self.assigned(request.acting_id()) ==> r matches Err(DirectoryError::NotFound),
    {
        let player_id = request.player_id();
        match self.lookup_by_participant(player_id) {
            Ok(game) => {
                proof {
                    if self.assigned(player_id) {
                        let c = self.game_index(game.id);
                        assert(self.games_seq()[c] == game);
                    }
                }
                Ok(game.id)
            },
            Err(_) => Err(DirectoryError::NotFound),
        }
    }

    /// The number of sessions the directory holds.
    pub fn games_len(&self) -> (n: usize)
        ensures
            n == self.games_seq().len(),
    {
        self.games.len()
    }
}

impl Default for GameManager {
    /// An empty directory.
    fn default() -> (s: Self)
        ensures
            s.wf(),
            s.games_seq().len() == 0,
            s.assignment_seq().len() == 0,
    {
        Self::new()
    }
}

/// A successful creation assigns both participants to the new session, so a
/// second creation that reuses either participant meets `create_game`'s
/// `Conflict` case and changes nothing.
pub proof fn lemma_create_then_conflict(d0: GameManager, d1: GameManager, g: Id, a: Id, b: Id)
    requires
        GameManager::create_accepted(d0, d1, g, a, b),
    ensures
        d1.assigned(a),
        d1.assigned(b),
        d1.has_game(g),
{
}

/// Pushing onto a sequence keeps every element it already contains.
proof fn lemma_push_keeps_contains<T>(s: Seq<T>, x: T, t: T)
    requires
        s.contains(t),
    ensures
        s.push(x).contains(t),
{
    let i = choose|i: int| 0 <= i < s.len() && s[i] == t;
    assert(s.push(x)[i] == t);
}

/// Scans the assignments for the first entry of participant `p`.
fn find_assignment_index(pa: &Vec<(Id, Id)>, p: Id) -> (r: Option<usize>)
    ensures
        match r {
            Some(j) => j < pa@.len() && pa@[j as int].0 == p,
            None => forall|m: int| 0 <= m < pa@.len() ==> pa@[m].0 != p,
        },
{
    let mut i: usize = 0;
    while i < pa.len()
        invariant
            i <= pa@.len(),
            forall|m: int| 0 <= m < i ==> pa@[m].0 != p,
        decreases pa@.len() - i,
    {
        let entry = pa[i];
        if entry.0 == p {
            return Some(i);
        }
        i += 1;
    }
    None
}

/// Whether some assignment names participant `p`.
fn contains_assignment(pa: &Vec<(Id, Id)>, p: Id) -> (r: bool)
    ensures
        r == exists|i: int| 0 <= i < pa@.len() && pa@[i].0 == p,
{
    match find_assignment_index(pa, p) {
        Some(position) => {
            proof {
                assert(pa@[position as int].0 == p);
            }
            true
        },
        None => false,
    }
}

/// Removes every assignment that names session `g`, keeping the uniqueness
/// of participants.
fn remove_assignments_of(pa: &mut Vec<(Id, Id)>, g: Id)
    requires
        forall|i: int, j: int|
            0 <= i < old(pa)@.len() && 0 <= j < old(pa)@.len() && i != j ==> old(pa)@[i].0
                != old(pa)@[j].0,
    ensures
        forall|i: int, j: int|
            0 <= i < final(pa)@.len() && 0 <= j < final(pa)@.len() && i != j ==> final(pa)@[i].0
                != final(pa)@[j].0,
        forall|x: (Id, Id)| final(pa)@.contains(x) <==> (old(pa)@.contains(x) && x.1 != g),
{
    let mut kept: Vec<(Id, Id)> = Vec::new();
    let mut i: usize = 0;
    while i < pa.len()
        invariant
            i <= pa@.len(),
            pa@ == old(pa)@,
            forall|i2: int, j2: int|
                0 <= i2 < old(pa)@.len() && 0 <= j2 < old(pa)@.len() && i2 != j2 ==> old(
                    pa,
                )@[i2].0 != old(pa)@[j2].0,
            forall|x: (Id, Id)|
                kept@.contains(x) <==> exists|m: int|
                    0 <= m < i && old(pa)@[m] == x && x.1 != g,
            forall|i2: int, j2: int|
                0 <= i2 < kept@.len() && 0 <= j2 < kept@.len() && i2 != j2 ==> kept@[i2].0
                    != kept@[j2].0,
        decreases pa@.len() - i,
    {
        let entry = pa[i];
        if entry.1 != g {
            let ghost before = kept@;
            kept.push(entry);
            proof {
                assert forall|x: (Id, Id)| kept@.contains(x) implies exists|m: int|
                    0 <= m < i + 1 && old(pa)@[m] == x && x.1 != g by {
                    let w = choose|w: int| 0 <= w < kept@.len() && kept@[w] == x;
                    if w < before.len() {
                        assert(before[w] == x);
                        assert(before.contains(x));
                    } else {
                        assert(old(pa)@[i as int] == x);
                    }
                }
                assert forall|x: (Id, Id)|
                    (exists|m: int| 0 <= m < i + 1 && old(pa)@[m] == x && x.1 != g) implies kept@
                    .contains(x) by {
                    let m = choose|m: int| 0 <= m < i + 1 && old(pa)@[m] == x && x.1 != g;
                    if m < i {
                        assert(before.contains(x));
                        let w = choose|w: int| 0 <= w < before.len() && before[w] == x;
                        assert(kept@[w] == x);
                    } else {
                        assert(kept@[before.len() as int] == x);
                    }
                }
                assert forall|i2: int, j2: int|
                    0 <= i2 < kept@.len() && 0 <= j2 < kept@.len() && i2 != j2 implies kept@[i2].0
                    != kept@[j2].0 by {
                    if i2 < before.len() && j2 < before.len() {
                    } else {
                        let outer = if i2 < before.len() {
                            i2
                        } else {
                            j2
                        };
                        if outer < before.len() {
                            assert(before.contains(before[outer]));
                            let m = choose|m: int|
                                0 <= m < i && old(pa)@[m] == before[outer] && before[outer].1 != g;
                            assert(old(pa)@[m].0 != old(pa)@[i as int].0);
                        }
                    }
                }
            }
        } else {
            proof {
                assert forall|x: (Id, Id)|
                    (exists|m: int| 0 <= m < i + 1 && old(pa)@[m] == x && x.1 != g) implies kept@
                    .contains(x) by {
                    let m = choose|m: int| 0 <= m < i + 1 && old(pa)@[m] == x && x.1 != g;
                    assert(m < i);
                }
            }
        }
        i += 1;
    }
    proof {
        assert forall|x: (Id, Id)| old(pa)@.contains(x) && x.1 != g implies (exists|m: int|
            0 <= m < pa@.len() && old(pa)@[m] == x && x.1 != g) by {
            let w = choose|w: int| 0 <= w < old(pa)@.len() && old(pa)@[w] == x;
            assert(0 <= w < pa@.len() && old(pa)@[w] == x && x.1 != g);
        }
    }
    *pa = kept;
}

/// Whether some session record has identifier `g`.
fn contains_game(gs: &Vec<Game>, g: Id) -> (r: bool)
    ensures
        r == exists|i: int| 0 <= i < gs@.len() && gs@[i as int].id == g,
{
    match find_game_index(gs, g) {
        Some(position) => {
            proof {
                assert(gs@[position as int].id == g);
            }
            true
        },
        None => false,
    }
}

/// Scans the session records for the one with identifier `g`.
fn find_game_index(gs: &Vec<Game>, g: Id) -> (r: Option<usize>)
    ensures
        match r {
            Some(j) => j < gs@.len() && gs@[j as int].id == g,
            None => forall|m: int| 0 <= m < gs@.len() ==> gs@[m].id != g,
        },
{
    let mut i: usize = 0;
    while i < gs.len()
        invariant
            i <= gs@.len(),
            forall|m: int| 0 <= m < i ==> gs@[m].id != g,
        decreases gs@.len() - i,
    {
        let game = gs[i];
        if game.id == g {
            return Some(i);
        }
        i += 1;
    }
    None
}

} // verus!
