//! The matchmaking engine: queue admission, leave handling, and the periodic
//! pairing sweep.
//!
//! The engine is a single-owner state machine.  The caller owns the event
//! loop: it feeds one request at a time into [`MatchmakingService::handle_message`]
//! and triggers [`MatchmakingService::read_queue`] on its timer tick, so all
//! queue mutation is serialized by construction.  Mailbox traffic is
//! represented as returned [`Delivery`] values; the caller performs them.

use vstd::prelude::*;
use crate::internal::Player;
use crate::messages::Id;

verus! {

/// An inbound matchmaking event, one per queue mutation.
#[derive(Clone, Copy, Debug, PartialEq, Eq, Structural)]
pub enum MatchmakingRequest {
    JoinQueue(Player),
    LeaveQueue(Id),
    Disconnected(Id),
}

/// An asynchronous notification owed to one participant's mailbox.
#[derive(Clone, Copy, Debug, PartialEq, Eq, Structural)]
pub enum MatchmakingResponse {
    QueueJoined,
    AlreadyQueued,
    MatchFound(usize),
}

/// One pending mailbox send: the addressee and the message.
#[derive(Clone, Copy, Debug, PartialEq, Eq, Structural)]
pub struct Delivery {
    pub to: Id,
    pub message: MatchmakingResponse,
}

/// The error a rejected queue admission reports.
#[derive(Clone, Copy, Debug, PartialEq, Eq, Structural)]
pub enum QueueError {
    AlreadyQueued,
}

/// What one engine step observed, for the caller's observability sink.
///
/// `Desynced` would mean the queued-identity set named an identity the
/// waiting queue does not hold.  It is surfaced rather than swallowed; on a
/// well-formed engine it is proved never to be returned.
#[derive(Clone, Copy, Debug, PartialEq, Eq, Structural)]
pub enum EngineReport {
    Joined(Id),
    AlreadyQueued(Id),
    Left(Id),
    NotQueued(Id),
    Desynced(Id),
}

/// A session record the sweep produced: its identifier and the pair, in
/// pairing order.
#[derive(Clone, Copy, Debug, PartialEq, Eq, Structural)]
pub struct Game {
    pub id: usize,
    pub player1: Player,
    pub player2: Player,
}

/// The identities of a sequence of participants, in the same order.
pub open spec fn ids_of(q: Seq<Player>) -> Seq<Id> {
    Seq::new(q.len(), |i: int| q[i].id)
}

/// The matchmaking engine state: the arrival-ordered waiting queue, the set
/// of queued identities mirroring it, and the session records made so far.
pub struct MatchmakingService {
    queue: Vec<Player>,
    users_in_queue: Vec<Id>,
    games: Vec<Game>,
}

impl MatchmakingService {
    /// The waiting queue, in arrival order.
    pub closed spec fn queue_seq(self) -> Seq<Player> {
        self.queue@
    }

    /// The queued-identity set, as the sequence that stores it.
    pub closed spec fn users_seq(self) -> Seq<Id> {
        self.users_in_queue@
    }

    /// The session records made so far, in creation order.
    pub closed spec fn games_seq(self) -> Seq<Game> {
        self.games@
    }

    /// The identities in the waiting queue, in arrival order.
    pub open spec fn queue_ids(self) -> Seq<Id> {
        ids_of(self.queue_seq())
    }

    /// Whether `id` is currently waiting in the queue.
    pub open spec fn queued(self, id: Id) -> bool {
        self.queue_ids().contains(id)
    }

    /// Well-formedness: each identity waits at most once, and the
    /// queued-identity set holds exactly the identities of the queue, kept
    /// in arrival order.
    pub open spec fn wf(self) -> bool {
        &&& self.queue_ids().no_duplicates()
        &&& self.users_seq() == self.queue_ids()
    }

    /// The state change of an accepted join: `p` is appended to the queue
    /// and its identity to the queued-identity set, so exactly the identity
    /// of `p` gains membership; sessions are untouched.
    pub open spec fn join_accepted(pre: Self, post: Self, p: Player) -> bool {
        &&& post.queue_seq() == pre.queue_seq().push(p)
        &&& post.users_seq() == pre.users_seq().push(p.id)
        &&& post.games_seq() == pre.games_seq()
        &&& forall|x: Id| post.queued(x) <==> (pre.queued(x) || x == p.id)
    }

    /// The state change of a completed leave: the single entry of `id`
    /// leaves the queue, order of the rest kept, and no identity but `id`
    /// changes membership; sessions are untouched.
    pub open spec fn leave_removed(pre: Self, post: Self, id: Id) -> bool {
        &&& exists|j: int|
            0 <= j < pre.queue_seq().len() && pre.queue_seq()[j].id == id && post.queue_seq()
                == pre.queue_seq().remove(j)
        &&& forall|x: Id| post.queued(x) <==> (pre.queued(x) && x != id)
        &&& post.games_seq() == pre.games_seq()
    }

    /// The state change and deliveries of one sweep over a queue of length
    /// `n`: consecutive arrivals are paired (1st with 2nd, 3rd with 4th, …),
    /// each pair becomes a session record numbered after its position in the
    /// session list, both members are owed one `MatchFound` carrying that
    /// session identifier, and an odd last arrival stays queued.
    ///
    /// The `m`-th delivery goes to the `m`-th old queue entry and names the
    /// session of pair `m / 2`, so each paired participant is owed exactly
    /// one notification, in arrival order.
    pub open spec fn sweep_spec(pre: Self, post: Self, ds: Seq<Delivery>) -> bool {
        let q = pre.queue_seq();
        let n = q.len() as int;
        let k = n / 2;
        let g0 = pre.games_seq().len() as int;
        &&& post.queue_seq() == if n % 2 == 0 {
            Seq::<Player>::empty()
        } else {
            seq![q[n - 1]]
        }
        &&& post.games_seq().len() == g0 + k
        &&& forall|j: int| 0 <= j < g0 ==> post.games_seq()[j] == pre.games_seq()[j]
        &&& forall|j: int|
            g0 <= j < g0 + k ==> post.games_seq()[j] == (Game {
                id: j as usize,
                player1: q[2 * (j - g0)],
                player2: q[2 * (j - g0) + 1],
            })
        &&& ds.len() == 2 * k
        &&& forall|m: int|
            0 <= m < 2 * k ==> ds[m] == (Delivery {
                to: q[m].id,
                message: MatchmakingResponse::MatchFound((g0 + m / 2) as usize),
            })
    }

    /// Makes an engine with an empty queue and no session records.
    pub fn new() -> (s: Self)
        ensures
            s.wf(),
            s.queue_seq().len() == 0,
            s.users_seq().len() == 0,
            s.games_seq().len() == 0,
    {
        let s = Self { queue: Vec::new(), users_in_queue: Vec::new(), games: Vec::new() };
        proof {
            assert(s.queue_ids() =~= Seq::<Id>::empty());
        }
        s
    }

    /// Admits a participant to the waiting queue.
    ///
    /// An identity already queued is rejected with `AlreadyQueued` and the
    /// state is left as it was, so a duplicate join never changes the queue
    /// length.
    pub fn add_user(&mut self, player: Player) -> (r: Result<(), QueueError>)
        requires
            old(self).wf(),
        ensures
            final(self).wf(),
            old(self).queued(player.id) ==> r == Result::<(), QueueError>::Err(
                QueueError::AlreadyQueued,
            ) && *final(self) == *old(self),
            !old(self).queued(player.id) ==> r == Result::<(), QueueError>::Ok(())
                && Self::join_accepted(*old(self), *final(self), player),
    {
        if contains_id(&self.users_in_queue, player.id) {
            Err(QueueError::AlreadyQueued)
        } else {
            self.queue.push(player);
            self.users_in_queue.push(player.id);
            proof {
                let pre = *old(self);
                assert(self.queue_ids() =~= pre.queue_ids().push(player.id));
                assert forall|i: int, j: int|
                    0 <= i < self.queue_ids().len() && 0 <= j < self.queue_ids().len() && i
                        != j implies self.queue_ids()[i] != self.queue_ids()[j] by {
                    if i < pre.queue_ids().len() && j < pre.queue_ids().len() {
                    } else if j == pre.queue_ids().len() {
                        assert(pre.queue_ids()[i] != player.id);
                    } else {
                        assert(pre.queue_ids()[j] != player.id);
                    }
                }
                assert forall|x: Id| self.queued(x) <==> (pre.queued(x) || x == player.id) by {
                    if self.queued(x) {
                        let w = choose|w: int|
                            0 <= w < self.queue_ids().len() && self.queue_ids()[w] == x;
                        if w < pre.queue_ids().len() {
                            assert(pre.queue_ids()[w] == x);
                        }
                    }
                    if pre.queued(x) {
                        let w = choose|w: int|
                            0 <= w < pre.queue_ids().len() && pre.queue_ids()[w] == x;
                        assert(self.queue_ids()[w] == x);
                    }
                    if x == player.id {
                        assert(self.queue_ids()[pre.queue_ids().len() as int] == x);
                    }
                }
            }
            Ok(())
        }
    }

    /// Removes an identity from the waiting queue.
    ///
    /// Leaving an identity that is not queued is a no-op: the state, and in
    /// particular the queue length, is untouched and `NotQueued` is
    /// reported.  A divergence between the queued-identity set and the queue
    /// would be reported as `Desynced`; on a well-formed engine it cannot
    /// happen, as the contract states.
    pub fn remove_user(&mut self, user_id: Id) -> (r: EngineReport)
        requires
            old(self).wf(),
        ensures
            final(self).wf(),
            r != EngineReport::Desynced(user_id),
            old(self).queued(user_id) ==> r == EngineReport::Left(user_id)
                && Self::leave_removed(*old(self), *final(self), user_id),
            !old(self).queued(user_id) ==> r == EngineReport::NotQueued(user_id) && *final(self)
                == *old(self),
    {
        if !contains_id(&self.users_in_queue, user_id) {
            return EngineReport::NotQueued(user_id);
        }
        match find_player(&self.queue, user_id) {
            Some(position) => {
                let ghost pre = *old(self);
                let ghost j = position as int;
                self.queue.remove(position);
                remove_id(&mut self.users_in_queue, user_id);
                proof {
                    assert(pre.queue_ids()[j] == user_id);
                    let j2 = choose|j2: int|
                        0 <= j2 < pre.users_seq().len() && pre.users_seq()[j2] == user_id && (
                        forall|m: int| 0 <= m < j2 ==> pre.users_seq()[m] != user_id)
                            && self.users_in_queue@ == pre.users_seq().remove(j2);
                    if j2 < j {
                        assert(pre.queue_ids()[j2] == pre.queue_seq()[j2].id);
                        assert(false);
                    }
                    if j2 > j {
                        assert(pre.users_seq()[j] != user_id);
                        assert(false);
                    }
                    assert(self.queue_ids() =~= pre.queue_ids().remove(j));
                    lemma_remove_membership(pre.queue_ids(), j, user_id);
                }
                EngineReport::Left(user_id)
            },
            None => {
                // The set named an identity the queue does not hold; under
                // the well-formedness this function requires, that branch is
                // unreachable, as proved here.
                proof {
                    let m = choose|m: int|
                        0 <= m < old(self).users_seq().len() && old(self).users_seq()[m] == user_id;
                    assert(old(self).queue_ids()[m] == user_id);
                    assert(old(self).queue_seq()[m].id == user_id);
                    assert(false);
                }
                EngineReport::Desynced(user_id)
            },
        }
    }

    /// Handles one inbound matchmaking event.
    ///
    /// A join is acknowledged to the joining participant's mailbox with
    /// `QueueJoined`, or answered with `AlreadyQueued` and no state change if
    /// the identity already waits.  A leave, and a transport disconnect,
    /// removes the identity if present and is otherwise a no-op reported as
    /// `NotQueued`.  The returned deliveries are the mailbox sends the
    /// caller owes.
    pub fn handle_message(&mut self, message: MatchmakingRequest) -> (r: (
        Vec<Delivery>,
        EngineReport,
    ))
        requires
            old(self).wf(),
        ensures
            final(self).wf(),
            final(self).games_seq() == old(self).games_seq(),
            match message {
                MatchmakingRequest::JoinQueue(p) => {
                    &&& !old(self).queued(p.id) ==> Self::join_accepted(
                        *old(self),
                        *final(self),
                        p,
                    ) && r.1 == EngineReport::Joined(p.id) && r.0@.len() == 1 && r.0@[0]
                        == (Delivery { to: p.id, message: MatchmakingResponse::QueueJoined })
                    &&& old(self).queued(p.id) ==> *final(self) == *old(self) && r.1
                        == EngineReport::AlreadyQueued(p.id) && r.0@.len() == 1 && r.0@[0]
                        == (Delivery { to: p.id, message: MatchmakingResponse::AlreadyQueued })
                },
                MatchmakingRequest::LeaveQueue(id) => {
                    &&& old(self).queued(id) ==> Self::leave_removed(*old(self), *final(self), id)
                        && r.1 == EngineReport::Left(id)
                    &&& !old(self).queued(id) ==> *final(self) == *old(self) && r.1
                        == EngineReport::NotQueued(id)
                    &&& r.0@.len() == 0
                },
                MatchmakingRequest::Disconnected(id) => {
                    &&& old(self).queued(id) ==> Self::leave_removed(*old(self), *final(self), id)
                        && r.1 == EngineReport::Left(id)
                    &&& !old(self).queued(id) ==> *final(self) == *old(self) && r.1
                        == EngineReport::NotQueued(id)
                    &&& r.0@.len() == 0
                },
            },
    {
        match message {
            MatchmakingRequest::JoinQueue(player) => {
                let mut deliveries: Vec<Delivery> = Vec::new();
                match self.add_user(player) {
                    Ok(()) => {
                        deliveries.push(
                            Delivery { to: player.id, message: MatchmakingResponse::QueueJoined },
                        );
                        (deliveries, EngineReport::Joined(player.id))
                    },
                    Err(QueueError::AlreadyQueued) => {
                        deliveries.push(
                            Delivery { to: player.id, message: MatchmakingResponse::AlreadyQueued },
                        );
                        (deliveries, EngineReport::AlreadyQueued(player.id))
                    },
                }
            },
            MatchmakingRequest::LeaveQueue(user_id) => {
                let report = self.remove_user(user_id);
                (Vec::new(), report)
            },
            MatchmakingRequest::Disconnected(user_id) => {
                // A transport disconnect is an implicit leave: any spot the
                // identity held in the queue is reclaimed at once.
                let report = self.remove_user(user_id);
                (Vec::new(), report)
            },
        }
    }

    /// Runs one pairing sweep over the waiting queue.
    ///
    /// Consecutive arrivals are paired first-with-second in arrival order;
    /// each pair gets a fresh session record and both members are owed
    /// exactly one `MatchFound` delivery carrying its identifier; an odd
    /// last arrival keeps its place for the next sweep.
    pub fn read_queue(&mut self) -> (deliveries: Vec<Delivery>)
        requires
            old(self).wf(),
        ensures
            final(self).wf(),
            Self::sweep_spec(*old(self), *final(self), deliveries@),
    {
        let ghost q = self.queue@;
        let ghost g0 = self.games@;
        let n = self.queue.len();
        let k = n / 2;
        let mut deliveries: Vec<Delivery> = Vec::new();
        let mut i: usize = 0;
        while i < k
            invariant
                0 <= i <= k,
                k == n / 2,
                n == q.len(),
                self.queue@ == q,
                self.users_in_queue@ == old(self).users_in_queue@,
                self.games@.len() == g0.len() + i,
                forall|j: int| 0 <= j < g0.len() ==> self.games@[j] == g0[j],
                forall|j: int|
                    g0.len() <= j < g0.len() + i ==> self.games@[j] == (Game {
                        id: j as usize,
                        player1: q[2 * (j - g0.len())],
                        player2: q[2 * (j - g0.len()) + 1],
                    }),
                deliveries@.len() == 2 * i,
                forall|m: int|
                    0 <= m < 2 * i ==> deliveries@[m] == (Delivery {
                        to: q[m].id,
                        message: MatchmakingResponse::MatchFound((g0.len() + m / 2) as usize),
                    }),
            decreases k - i,
        {
            proof {
                assert(2 * i + 1 < n);
            }
            let player1 = self.queue[2 * i];
            let player2 = self.queue[2 * i + 1];
            let game_id = self.games.len();
            self.games.push(Game { id: game_id, player1, player2 });
            deliveries.push(
                Delivery { to: player1.id, message: MatchmakingResponse::MatchFound(game_id) },
            );
            deliveries.push(
                Delivery { to: player2.id, message: MatchmakingResponse::MatchFound(game_id) },
            );
            i += 1;
        }
        let mut rest: Vec<Player> = Vec::new();
        let mut rest_ids: Vec<Id> = Vec::new();
        if n % 2 == 1 {
            let last = self.queue[n - 1];
            rest.push(last);
            rest_ids.push(last.id);
        }
        self.queue = rest;
        self.users_in_queue = rest_ids;
        proof {
            if n % 2 == 1 {
                assert(self.queue@ =~= seq![q[n as int - 1]]);
                assert(self.queue_ids() =~= seq![q[n as int - 1].id]);
                assert(self.users_seq() =~= seq![q[n as int - 1].id]);
            } else {
                assert(self.queue@ =~= Seq::<Player>::empty());
                assert(self.queue_ids() =~= Seq::<Id>::empty());
            }
        }
        deliveries
    }

    /// The number of participants currently waiting.
    pub fn queue_len(&self) -> (n: usize)
        ensures
            n == self.queue_seq().len(),
    {
        self.queue.len()
    }

    /// Whether `id` is currently waiting in the queue.
    pub fn is_queued(&self, id: Id) -> (r: bool)
        ensures
            r == self.queued(id),
    {
        match find_player(&self.queue, id) {
            Some(position) => {
                proof {
                    assert(self.queue_ids()[position as int] == id);
                }
                true
            },
            None => {
                proof {
                    assert forall|i: int|
                        0 <= i < self.queue_ids().len() implies self.queue_ids()[i] != id by {
                        assert(self.queue_seq()[i].id != id);
                    }
                }
                false
            },
        }
    }

    /// The number of session records the sweeps have made.
    pub fn games_len(&self) -> (n: usize)
        ensures
            n == self.games_seq().len(),
    {
        self.games.len()
    }

    /// The `i`-th session record, if there is one.
    pub fn game_at(&self, i: usize) -> (r: Option<Game>)
        ensures
            i < self.games_seq().len() ==> r == Some(self.games_seq()[i as int]),
            i >= self.games_seq().len() ==> r == Option::<Game>::None,
    {
        if i < self.games.len() {
            Some(self.games[i])
        } else {
            None
        }
    }
}

impl Default for MatchmakingService {
    /// An engine with an empty queue and no session records.
    fn default() -> (s: Self)
        ensures
            s.wf(),
            s.queue_seq().len() == 0,
            s.users_seq().len() == 0,
            s.games_seq().len() == 0,
    {
        Self::new()
    }
}

/// The queued-identity set always mirrors the waiting queue: on a
/// well-formed engine — and every operation of the engine leaves it
/// well-formed — the identities in the queued-identity set are exactly the
/// identities of the participants waiting in the queue.
pub proof fn lemma_set_mirrors_queue(s: MatchmakingService)
    requires
        s.wf(),
    ensures
        s.users_seq().to_set() == s.queue_ids().to_set(),
{
    assert(s.users_seq().to_set() =~= s.queue_ids().to_set());
}

/// Two distinct participants join an idle engine and one sweep runs: both
/// are owed exactly one `MatchFound` carrying the same fresh session
/// identifier, and neither remains in the queue.
pub proof fn lemma_pair_in_one_sweep(
    s0: MatchmakingService,
    s1: MatchmakingService,
    s2: MatchmakingService,
    s3: MatchmakingService,
    a: Player,
    b: Player,
    ds: Seq<Delivery>,
)
    requires
        s0.wf(),
        s0.queue_seq().len() == 0,
        a.id != b.id,
        MatchmakingService::join_accepted(s0, s1, a),
        MatchmakingService::join_accepted(s1, s2, b),
        MatchmakingService::sweep_spec(s2, s3, ds),
    ensures
        ds.len() == 2,
        ds[0] == (Delivery {
            to: a.id,
            message: MatchmakingResponse::MatchFound(s0.games_seq().len() as usize),
        }),
        ds[1] == (Delivery {
            to: b.id,
            message: MatchmakingResponse::MatchFound(s0.games_seq().len() as usize),
        }),
        s3.queue_seq().len() == 0,
        !s3.queued(a.id),
        !s3.queued(b.id),
{
    assert(s2.queue_seq()[0] == a);
    assert(s2.queue_seq()[1] == b);
    assert(ds[0] == (Delivery {
        to: a.id,
        message: MatchmakingResponse::MatchFound(s0.games_seq().len() as usize),
    }));
    assert(ds[1] == (Delivery {
        to: b.id,
        message: MatchmakingResponse::MatchFound(s0.games_seq().len() as usize),
    }));
}

/// Three participants join an idle engine in order `a`, `b`, `c`: one sweep
/// pairs `a` with `b` and leaves `c` queued; after a fourth arrival `d`, a
/// second sweep pairs `c` with `d` and empties the queue.
pub proof fn lemma_odd_one_waits(
    s0: MatchmakingService,
    s1: MatchmakingService,
    s2: MatchmakingService,
    s3: MatchmakingService,
    s4: MatchmakingService,
    s5: MatchmakingService,
    s6: MatchmakingService,
    a: Player,
    b: Player,
    c: Player,
    d: Player,
    ds1: Seq<Delivery>,
    ds2: Seq<Delivery>,
)
    requires
        s0.wf(),
        s0.queue_seq().len() == 0,
        a.id != b.id && a.id != c.id && a.id != d.id && b.id != c.id && b.id != d.id && c.id
            != d.id,
        MatchmakingService::join_accepted(s0, s1, a),
        MatchmakingService::join_accepted(s1, s2, b),
        MatchmakingService::join_accepted(s2, s3, c),
        MatchmakingService::sweep_spec(s3, s4, ds1),
        MatchmakingService::join_accepted(s4, s5, d),
        MatchmakingService::sweep_spec(s5, s6, ds2),
    ensures
        ds1.len() == 2,
        ds1[0].to == a.id,
        ds1[1].to == b.id,
        s4.queue_seq() == seq![c],
        ds2.len() == 2,
        ds2[0].to == c.id,
        ds2[1].to == d.id,
        ds2[0].message == ds2[1].message,
        s6.queue_seq().len() == 0,
{
    assert(s3.queue_seq()[0] == a);
    assert(s3.queue_seq()[1] == b);
    assert(s3.queue_seq()[2] == c);
    assert(ds1[0] == (Delivery {
        to: a.id,
        message: MatchmakingResponse::MatchFound(s3.games_seq().len() as usize),
    }));
    assert(ds1[1] == (Delivery {
        to: b.id,
        message: MatchmakingResponse::MatchFound(s3.games_seq().len() as usize),
    }));
    assert(s4.queue_seq() == seq![c]);
    assert(s5.queue_seq()[0] == c);
    assert(s5.queue_seq()[1] == d);
    assert(ds2[0] == (Delivery {
        to: c.id,
        message: MatchmakingResponse::MatchFound(s5.games_seq().len() as usize),
    }));
    assert(ds2[1] == (Delivery {
        to: d.id,
        message: MatchmakingResponse::MatchFound(s5.games_seq().len() as usize),
    }));
}

/// Removing the entry at `j` from a duplicate-free sequence keeps it
/// duplicate-free and removes exactly the membership of the value at `j`.
proof fn lemma_remove_membership(s: Seq<Id>, j: int, id: Id)
    requires
        s.no_duplicates(),
        0 <= j < s.len(),
        s[j] == id,
    ensures
        s.remove(j).no_duplicates(),
        forall|x: Id| s.remove(j).contains(x) <==> (s.contains(x) && x != id),
{
    s.remove_ensures(j);
    assert forall|x: Id| s.remove(j).contains(x) implies (s.contains(x) && x != id) by {
        let k = choose|k: int| 0 <= k < s.remove(j).len() && s.remove(j)[k] == x;
        if k < j {
            assert(s[k] == x);
        } else {
            assert(s[k + 1] == x);
        }
    }
    assert forall|x: Id| s.contains(x) && x != id implies s.remove(j).contains(x) by {
        let k = choose|k: int| 0 <= k < s.len() && s[k] == x;
        if k < j {
            assert(s.remove(j)[k] == x);
        } else {
            assert(k != j);
            assert(s.remove(j)[k - 1] == x);
        }
    }
}

/// Scans the queued-identity set for `id`.
fn contains_id(v: &Vec<Id>, id: Id) -> (r: bool)
    ensures
        r == v@.contains(id),
{
    let mut i: usize = 0;
    while i < v.len()
        invariant
            i <= v@.len(),
            forall|m: int| 0 <= m < i ==> v@[m] != id,
        decreases v@.len() - i,
    {
        if v[i] == id {
            proof {
                assert(v@[i as int] == id);
            }
            return true;
        }
        i += 1;
    }
    false
}

/// Scans the waiting queue for the first participant with identity `id`.
fn find_player(q: &Vec<Player>, id: Id) -> (r: Option<usize>)
    ensures
        match r {
            Some(j) => j < q@.len() && q@[j as int].id == id && forall|m: int|
                0 <= m < j ==> q@[m].id != id,
            None => forall|m: int| 0 <= m < q@.len() ==> q@[m].id != id,
        },
{
    let mut i: usize = 0;
    while i < q.len()
        invariant
            i <= q@.len(),
            forall|m: int| 0 <= m < i ==> q@[m].id != id,
        decreases q@.len() - i,
    {
        if q[i].id == id {
            return Some(i);
        }
        i += 1;
    }
    None
}

/// Removes the first entry holding `id` from the queued-identity set, if
/// there is one.
fn remove_id(v: &mut Vec<Id>, id: Id)
    ensures
        old(v)@.contains(id) ==> exists|j: int|
            0 <= j < old(v)@.len() && old(v)@[j] == id && (forall|m: int|
                0 <= m < j ==> old(v)@[m] != id) && final(v)@ == old(v)@.remove(j),
        !old(v)@.contains(id) ==> final(v)@ == old(v)@,
{
    let mut i: usize = 0;
    while i < v.len()
        invariant
            i <= v@.len(),
            v@ == old(v)@,
            forall|m: int| 0 <= m < i ==> v@[m] != id,
        decreases v@.len() - i,
    {
        if v[i] == id {
            let ghost j = i as int;
            v.remove(i);
            proof {
                assert(old(v)@[j] == id);
                assert(v@ == old(v)@.remove(j));
            }
            return ;
        }
        i += 1;
    }
    proof {
        assert forall|m: int| 0 <= m < old(v)@.len() implies old(v)@[m] != id by {}
    }
}

} // verus!
