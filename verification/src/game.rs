//! The session/room manager: maps human-chosen room names to rooms,
//! enforces one waiting and one playing slot per room, and exposes room
//! lookup by numeric identifier.

use vstd::prelude::*;

use crate::card::Registry;
use crate::events::{req_eq, GameEvent, UserEventType};
use crate::player::PlayerId;
use crate::logic::{resolution_of, submit_step};
use crate::room::{entered, Flow, JoinOutcome, Room, RoomError, RoomState};

verus! {

/// The answer to a join request.
#[derive(Debug, Clone)]
pub struct JoinRoomResponse {
    pub message: String,
    pub room_id: u64,
    pub success: bool,
    /// Whether this call created the room (first player) rather than
    /// joining an existing one.
    pub created: bool,
    /// The named admission outcome; "room is full" and "room has
    /// finished" are distinct conditions, not just message text.
    pub outcome: JoinOutcome,
}

/// The room manager.
///
/// Room identifiers are indices into a monotonically growing list and
/// are never reused for the lifetime of the process.
pub struct Game {
    rooms: Vec<Room>,
    room_map: Vec<(String, usize)>,
}

impl Game {
    pub closed spec fn spec_rooms(self) -> Seq<Room> {
        self.rooms@
    }

    pub closed spec fn spec_map(self) -> Seq<(String, usize)> {
        self.room_map@
    }

    /// The identifier a room name maps to, if any (first match).
    pub open spec fn lookup_spec(self, name: Seq<char>) -> Option<int>
        decreases self.spec_map().len(),
    {
        self.lookup_from(name, 0)
    }

    pub open spec fn lookup_from(self, name: Seq<char>, j: int) -> Option<int>
        decreases self.spec_map().len() - j,
    {
        if j < 0 || j >= self.spec_map().len() {
            None
        } else if self.spec_map()[j].0@ == name {
            Some(self.spec_map()[j].1 as int)
        } else {
            self.lookup_from(name, j + 1)
        }
    }

    /// Every mapped identifier points at an existing room.
    pub open spec fn map_wf(self) -> bool {
        forall|j: int|
            0 <= j < self.spec_map().len() ==> (#[trigger] self.spec_map()[j]).1
                < self.spec_rooms().len()
    }

    /// Manager invariant: the name table is sound and every room upholds
    /// its own invariant.
    pub open spec fn inv(self) -> bool {
        &&& self.map_wf()
        &&& forall|i: int| 0 <= i < self.spec_rooms().len() ==> (#[trigger] self.spec_rooms()[i]).inv()
    }

    pub fn new() -> (r: Game)
        ensures
            r.inv(),
            r.spec_rooms().len() == 0,
            r.spec_map().len() == 0,
    {
        Game { rooms: Vec::new(), room_map: Vec::new() }
    }

    pub fn room_count(&self) -> (r: usize)
        ensures
            r == self.spec_rooms().len(),
    {
        self.rooms.len()
    }

    /// Looks a room up by its numeric identifier; an unknown identifier
    /// is the distinct "room not found" failure, and identifiers are
    /// never reused.
    pub fn room(&self, room_id: usize) -> (r: Result<&Room, RoomError>)
        ensures
            match r {
                Ok(room) => room_id < self.spec_rooms().len() && *room == self.spec_rooms()[
                    room_id as int
                ],
                Err(e) => room_id >= self.spec_rooms().len() && e == RoomError::RoomNotFound,
            },
    {
        if room_id < self.rooms.len() {
            Ok(&self.rooms[room_id])
        } else {
            Err(RoomError::RoomNotFound)
        }
    }

    /// A successful lookup lands inside the room list.
    proof fn lemma_lookup_in_range(self, name: Seq<char>, j: int)
        requires
            self.map_wf(),
            0 <= j,
        ensures
            self.lookup_from(name, j) matches Some(id) ==> 0 <= id < self.spec_rooms().len(),
        decreases self.spec_map().len() - j,
    {
        if j < self.spec_map().len() {
            self.lemma_lookup_in_range(name, j + 1);
        }
    }

    fn find_room_id(&self, room_name: &String) -> (r: Option<usize>)
        ensures
            match r {
                Some(id) => self.lookup_spec(room_name@) == Some(id as int),
                None => self.lookup_spec(room_name@) is None,
            },
    {
        let mut j: usize = 0;
        while j < self.room_map.len()
            invariant
                j <= self.spec_map().len(),
                self.lookup_spec(room_name@) == self.lookup_from(room_name@, j as int),
            decreases self.spec_map().len() - j,
        {
            if self.room_map[j].0.eq(room_name) {
                return Some(self.room_map[j].1);
            }
            j = j + 1;
        }
        None
    }

    /// Resolves `room_name`, creating a waiting room owned by `username`
    /// if absent, or joining the existing room: rejoining is idempotent,
    /// a second distinct player starts the game loop, a third is told the
    /// room is full, and a finished room stays finished.
    pub fn join_room(
        &mut self,
        username: String,
        room_name: String,
        registry: &Registry,
        now: u64,
    ) -> (r: JoinRoomResponse)
        requires
            old(self).inv(),
            old(self).spec_rooms().len() < u64::MAX,
        ensures
            final(self).inv(),
            old(self).lookup_spec(room_name@) is None ==> {
                &&& r.created && r.success && r.outcome == JoinOutcome::Created
                &&& r.room_id == old(self).spec_rooms().len()
                &&& final(self).spec_rooms().len() == old(self).spec_rooms().len() + 1
                &&& forall|j: int|
                    0 <= j < old(self).spec_rooms().len() ==> #[trigger] final(self).spec_rooms()[j]
                        == old(self).spec_rooms()[j]
                &&& final(self).spec_rooms().last().spec_state() matches RoomState::Waiting {
                    p0_username,
                } && p0_username@ == username@
                &&& final(self).lookup_spec(room_name@) == Some(
                    old(self).spec_rooms().len() as int,
                )
            },
            old(self).lookup_spec(room_name@) matches Some(id) ==> {
                &&& final(self).spec_rooms().len() == old(self).spec_rooms().len()
                &&& final(self).spec_map() == old(self).spec_map()
                &&& forall|j: int|
                    0 <= j < old(self).spec_rooms().len() && j != id ==> #[trigger] final(self).spec_rooms()[j] == old(self).spec_rooms()[j]
                &&& r.room_id == id
                &&& !r.created
                &&& match old(self).spec_rooms()[id].spec_state() {
                    RoomState::Waiting { p0_username } => if p0_username@ == username@ {
                        &&& r.success && r.outcome == JoinOutcome::AlreadyIn
                        &&& final(self).spec_rooms()[id].spec_state() == old(self).spec_rooms()[
                            id
                        ].spec_state()
                    } else {
                        &&& r.success && r.outcome == JoinOutcome::Started
                        &&& final(self).spec_rooms()[id].spec_state()
                            matches RoomState::Playing(g) && g.p0_username@ == p0_username@
                            && g.p1_username@ == username@
                        &&& final(self).spec_rooms()[id].spec_flow()
                            matches Flow::AwaitTurnAction { player: p2, .. } && p2
                            == PlayerId::Player0
                    },
                    RoomState::Playing(g) => {
                        &&& final(self).spec_rooms()[id].spec_state() == old(self).spec_rooms()[
                            id
                        ].spec_state()
                        &&& final(self).spec_rooms()[id].spec_flow() == old(self).spec_rooms()[
                            id
                        ].spec_flow()
                        &&& if g.p0_username@ == username@ || g.p1_username@ == username@ {
                            r.success && r.outcome == JoinOutcome::AlreadyIn
                        } else {
                            !r.success && r.outcome == JoinOutcome::Full
                        }
                    },
                    RoomState::Finished => {
                        &&& !r.success && r.outcome == JoinOutcome::HasFinished
                        &&& final(self).spec_rooms()[id].spec_state() == old(self).spec_rooms()[
                            id
                        ].spec_state()
                    },
                }
            },
    {
        let ghost pre = *self;
        match self.find_room_id(&room_name) {
            None => {
                let room = Room::new(username);
                let room_id = self.rooms.len();
                self.rooms.push(room);
                self.room_map.push((room_name, room_id));
                proof {
                    assert forall|j: int|
                        0 <= j < self.spec_map().len() implies (#[trigger] self.spec_map()[j]).1
                        < self.spec_rooms().len() by {
                        if j < pre.spec_map().len() {
                            assert(pre.spec_map()[j].1 < pre.spec_rooms().len());
                        }
                    }
                    assert forall|i: int|
                        0 <= i < self.spec_rooms().len() implies (#[trigger] self.spec_rooms()[i]).inv() by {
                        if i < pre.spec_rooms().len() {
                            assert(pre.spec_rooms()[i].inv());
                        }
                    }
                    assert(self.lookup_spec(room_name@) == Some(pre.spec_rooms().len() as int))
                        by {
                        self.lemma_lookup_appended(room_name@, pre);
                    }
                }
                JoinRoomResponse {
                    message: String::from_str("Created the room."),
                    room_id: room_id as u64,
                    success: true,
                    created: true,
                    outcome: JoinOutcome::Created,
                }
            },
            Some(room_id) => {
                proof {
                    pre.lemma_lookup_in_range(room_name@, 0);
                    assert(pre.spec_rooms()[room_id as int].inv());
                }
                let room = &mut self.rooms[room_id];
                let outcome = room.join(username);
                let (success, message) = match outcome {
                    JoinOutcome::AlreadyIn => (true, String::from_str("Already in the room.")),
                    JoinOutcome::Started => {
                        room.main_loop(registry, now);
                        (true, String::from_str("Joined the room."))
                    },
                    JoinOutcome::Full => (false, String::from_str("The room is full.")),
                    JoinOutcome::HasFinished => (
                        false,
                        String::from_str("The room has finished."),
                    ),
                    JoinOutcome::Created => {
                        // Admission to an existing room never reports a
                        // creation.
                        proof {
                            assert(false);
                        }
                        (false, String::from_str("Already in the room."))
                    },
                };
                proof {
                    assert forall|i: int|
                        0 <= i < self.spec_rooms().len() implies (#[trigger] self.spec_rooms()[i]).inv() by {
                        if i != room_id as int {
                            assert(pre.spec_rooms()[i].inv());
                        }
                    }
                    assert forall|j: int|
                        0 <= j < pre.spec_rooms().len() && j != room_id as int
                            implies #[trigger] self.spec_rooms()[j] == pre.spec_rooms()[j] by {}
                }
                JoinRoomResponse { message, room_id: room_id as u64, success, created: false, outcome }
            },
        }
    }

    /// A name missing from the old table maps to the appended room.
    proof fn lemma_lookup_appended(self, name: Seq<char>, pre: Game)
        requires
            pre.lookup_spec(name) is None,
            self.spec_map() == pre.spec_map().push(
                (self.spec_map().last().0, self.spec_map().last().1),
            ),
            self.spec_map().last().0@ == name,
        ensures
            self.lookup_spec(name) == Some(self.spec_map().last().1 as int),
    {
        self.lemma_lookup_appended_from(name, pre, 0);
    }

    proof fn lemma_lookup_appended_from(self, name: Seq<char>, pre: Game, j: int)
        requires
            pre.lookup_from(name, j) is None,
            0 <= j <= pre.spec_map().len(),
            self.spec_map() == pre.spec_map().push(
                (self.spec_map().last().0, self.spec_map().last().1),
            ),
            self.spec_map().last().0@ == name,
        ensures
            self.lookup_from(name, j) == Some(self.spec_map().last().1 as int),
        decreases pre.spec_map().len() - j,
    {
        if j < pre.spec_map().len() {
            self.lemma_lookup_appended_from(name, pre, j + 1);
        }
    }

    /// Forwards a player's reply to the room's outstanding request: the
    /// reply is matched by sequence number alone; an unknown room and an
    /// unknown sequence number are distinct, named failures; a matched
    /// reply consumes the exchange and runs the loop to its next rest.
    pub fn submit_user_event(
        &mut self,
        room_id: usize,
        seqnum: usize,
        event: UserEventType,
        registry: &Registry,
        now: u64,
    ) -> (r: Result<(), RoomError>)
        requires
            old(self).inv(),
        ensures
            final(self).inv(),
            room_id >= old(self).spec_rooms().len() ==> r == Err::<(), RoomError>(
                RoomError::RoomNotFound,
            ) && *final(self) == *old(self),
            room_id < old(self).spec_rooms().len() ==> {
                &&& final(self).spec_map() == old(self).spec_map()
                &&& final(self).spec_rooms().len() == old(self).spec_rooms().len()
                &&& forall|j: int|
                    0 <= j < old(self).spec_rooms().len() && j != room_id as int
                        ==> #[trigger] final(self).spec_rooms()[j] == old(self).spec_rooms()[j]
                &&& submit_step(
                    old(self).spec_rooms()[room_id as int],
                    final(self).spec_rooms()[room_id as int],
                    seqnum,
                    r,
                )
                &&& r is Ok ==> resolution_of(
                    *registry,
                    old(self).spec_rooms()[room_id as int],
                    final(self).spec_rooms()[room_id as int],
                    seqnum,
                    Some(event),
                )
            },
    {
        let ghost pre = *self;
        if room_id >= self.rooms.len() {
            return Err(RoomError::RoomNotFound);
        }
        proof {
            assert(pre.spec_rooms()[room_id as int].inv());
        }
        let room = &mut self.rooms[room_id];
        let r = room.submit_user_event(seqnum, event, registry, now);
        proof {
            assert(self.spec_map() == pre.spec_map());
            assert(self.spec_rooms().len() == pre.spec_rooms().len());
            assert(self.map_wf());
            assert forall|i: int|
                0 <= i < self.spec_rooms().len() implies (#[trigger] self.spec_rooms()[i]).inv() by {
                if i != room_id as int {
                    assert(self.spec_rooms()[i] == pre.spec_rooms()[i]);
                    assert(pre.spec_rooms()[i].inv());
                }
            }
        }
        r
    }

    /// Expires the room's outstanding request under `seqnum`: the slot
    /// is freed, the remembered request cleared, and the waiting loop
    /// step resolved as "no answer" — an implicit end of turn.
    pub fn timeout_user_event(
        &mut self,
        room_id: usize,
        seqnum: usize,
        registry: &Registry,
        now: u64,
    )
        requires
            old(self).inv(),
        ensures
            final(self).inv(),
            room_id >= old(self).spec_rooms().len() ==> *final(self) == *old(self),
            room_id < old(self).spec_rooms().len() ==> {
                &&& final(self).spec_map() == old(self).spec_map()
                &&& final(self).spec_rooms().len() == old(self).spec_rooms().len()
                &&& forall|j: int|
                    0 <= j < old(self).spec_rooms().len() && j != room_id as int
                        ==> #[trigger] final(self).spec_rooms()[j] == old(self).spec_rooms()[j]
                &&& !old(self).spec_rooms()[room_id as int].slot_occupied(seqnum as int)
                    ==> final(self).spec_rooms()[room_id as int] == old(self).spec_rooms()[
                    room_id as int
                ]
                &&& old(self).spec_rooms()[room_id as int].slot_occupied(seqnum as int)
                    ==> resolution_of(
                    *registry,
                    old(self).spec_rooms()[room_id as int],
                    final(self).spec_rooms()[room_id as int],
                    seqnum,
                    None,
                )
            },
    {
        let ghost pre = *self;
        if room_id >= self.rooms.len() {
            return ;
        }
        proof {
            assert(pre.spec_rooms()[room_id as int].inv());
        }
        let room = &mut self.rooms[room_id];
        room.timeout_user_event(seqnum, registry, now);
        proof {
            assert(self.spec_map() == pre.spec_map());
            assert(self.spec_rooms().len() == pre.spec_rooms().len());
            assert(self.map_wf());
            assert forall|i: int|
                0 <= i < self.spec_rooms().len() implies (#[trigger] self.spec_rooms()[i]).inv() by {
                if i != room_id as int {
                    assert(self.spec_rooms()[i] == pre.spec_rooms()[i]);
                    assert(pre.spec_rooms()[i].inv());
                }
            }
        }
    }

    /// Opens a player's event stream: exactly the callers occupying a
    /// player slot are admitted; the remembered pending request, if any,
    /// is re-delivered verbatim and one fresh snapshot is published,
    /// without creating a second outstanding request.
    pub fn enter_game(
        &mut self,
        room_id: usize,
        username: &String,
    ) -> (r: Result<PlayerId, RoomError>)
        requires
            old(self).inv(),
        ensures
            final(self).inv(),
            room_id >= old(self).spec_rooms().len() ==> r == Err::<PlayerId, RoomError>(
                RoomError::RoomNotFound,
            ) && *final(self) == *old(self),
            room_id < old(self).spec_rooms().len() ==> {
                &&& final(self).spec_map() == old(self).spec_map()
                &&& final(self).spec_rooms().len() == old(self).spec_rooms().len()
                &&& forall|j: int|
                    0 <= j < old(self).spec_rooms().len() && j != room_id as int
                        ==> #[trigger] final(self).spec_rooms()[j] == old(self).spec_rooms()[j]
                &&& match r {
                    Ok(p) => old(self).spec_rooms()[room_id as int].get_player_spec(username@)
                        == Some(p) && entered(
                        old(self).spec_rooms()[room_id as int],
                        final(self).spec_rooms()[room_id as int],
                        p,
                    ),
                    Err(e) => {
                        &&& old(self).spec_rooms()[room_id as int].get_player_spec(username@)
                            is None
                        &&& e == RoomError::NotAPlayer
                        &&& final(self).spec_rooms()[room_id as int] == old(self).spec_rooms()[
                            room_id as int
                        ]
                    },
                }
            },
    {
        let ghost pre = *self;
        if room_id >= self.rooms.len() {
            return Err(RoomError::RoomNotFound);
        }
        proof {
            assert(pre.spec_rooms()[room_id as int].inv());
        }
        let room = &mut self.rooms[room_id];
        let player = match room.get_player(username) {
            Ok(p) => p,
            Err(e) => {
                proof {
                    assert(self.spec_map() == pre.spec_map());
                    assert(self.spec_rooms().len() == pre.spec_rooms().len());
                    assert(self.map_wf());
                    assert forall|i: int|
                        0 <= i < self.spec_rooms().len() implies (#[trigger] self.spec_rooms()[i]).inv() by {
                        assert(self.spec_rooms()[i] == pre.spec_rooms()[i]);
                        assert(pre.spec_rooms()[i].inv());
                    }
                }
                return Err(e);
            },
        };
        let ghost room0 = pre.spec_rooms()[room_id as int];
        let _ = room.send_pending_event(username);
        let ghost room1 = *room;
        room.sync_game_state();
        proof {
            let room2 = *room;
            assert(room2.events(player).subrange(0, room0.events(player).len() as int)
                =~= room0.events(player)) by {
                assert(room1.events(player).subrange(0, room0.events(player).len() as int)
                    == room0.events(player));
                assert(room2.events(player).subrange(0, room1.events(player).len() as int)
                    == room1.events(player));
            }
            if room0.pending(player) is Some {
                assert(room1.events(player).last() matches GameEvent::RequestUserEvent(r2)
                    && req_eq(room0.pending(player).unwrap(), r2));
                if room0.spec_state() is Playing {
                    let k = room0.events(player).len() as int;
                    let n1 = room1.events(player).len() as int;
                    assert(room2.events(player).subrange(0, n1) == room1.events(player));
                    assert(room2.events(player)[k] == room2.events(player).subrange(0, n1)[k]);
                }
            }
            if !(room0.spec_state() is Playing) {
                assert(room2 == room1);
                assert(room2.events(player.spec_opp()) == room0.events(player.spec_opp()));
            }
            assert(entered(room0, room2, player));
            assert(self.spec_map() == pre.spec_map());
            assert(self.spec_rooms().len() == pre.spec_rooms().len());
            assert(self.map_wf());
            assert forall|i: int|
                0 <= i < self.spec_rooms().len() implies (#[trigger] self.spec_rooms()[i]).inv() by {
                if i != room_id as int {
                    assert(self.spec_rooms()[i] == pre.spec_rooms()[i]);
                    assert(pre.spec_rooms()[i].inv());
                }
            }
        }
        Ok(player)
    }

    /// Ticks the advisory countdown of the player's remembered request
    /// in the given room down by one second; app-side tickers call this
    /// once per second so a reconnecting client sees an accurate
    /// remaining time.
    pub fn countdown_pending(&mut self, room_id: usize, player: PlayerId) -> (r: Option<i64>)
        requires
            old(self).inv(),
        ensures
            final(self).inv(),
            room_id >= old(self).spec_rooms().len() ==> r is None && *final(self) == *old(self),
            room_id < old(self).spec_rooms().len() ==> {
                &&& final(self).spec_map() == old(self).spec_map()
                &&& final(self).spec_rooms().len() == old(self).spec_rooms().len()
                &&& forall|j: int|
                    0 <= j < old(self).spec_rooms().len() && j != room_id as int
                        ==> #[trigger] final(self).spec_rooms()[j] == old(self).spec_rooms()[j]
                &&& match old(self).spec_rooms()[room_id as int].pending(player) {
                    Some(rp) => final(self).spec_rooms()[room_id as int].pending(player)
                        matches Some(rp2) && rp2.seqnum == rp.seqnum && rp2.timeout == (
                    if rp.timeout > i64::MIN {
                        (rp.timeout - 1) as i64
                    } else {
                        rp.timeout
                    }),
                    None => final(self).spec_rooms()[room_id as int].pending(player) is None
                        && r is None,
                }
            },
    {
        let ghost pre = *self;
        if room_id >= self.rooms.len() {
            return None;
        }
        proof {
            assert(pre.spec_rooms()[room_id as int].inv());
        }
        let room = &mut self.rooms[room_id];
        let r = room.countdown_pending(player);
        proof {
            assert(self.spec_map() == pre.spec_map());
            assert(self.spec_rooms().len() == pre.spec_rooms().len());
            assert(self.map_wf());
            assert forall|i: int|
                0 <= i < self.spec_rooms().len() implies (#[trigger] self.spec_rooms()[i]).inv() by {
                if i != room_id as int {
                    assert(self.spec_rooms()[i] == pre.spec_rooms()[i]);
                    assert(pre.spec_rooms()[i].inv());
                }
            }
        }
        r
    }
}

} // verus!
