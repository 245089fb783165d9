//! In-memory model of the remote room service.
//!
//! Each project has one room; membership is mirrored as room invitations and
//! removals.  The remote service is the sole writer of room state, so the
//! orchestrator sees it only through the operations here: create a room,
//! rename it, and the two idempotent membership operations.  A shell that
//! drives a real room client maps its outcomes onto the same results.
//!
//! A room member's handle is derived deterministically from the person's
//! name, so the model keys room membership by that name.

use vstd::prelude::*;

use crate::identity::IdentityState;
use crate::project::Project;
use crate::strutil::{lemma_decimal_injective, spec_decimal, u32_to_decimal};

verus! {

/// A room-service failure, as far as the orchestrator distinguishes them.
#[derive(Debug, Clone, Copy, PartialEq, Eq, Structural)]
pub enum RoomError {
    /// The service cannot be reached, or an exchange with it broke off.
    Unreachable,
    /// No room carries the given reference.
    RoomDoesNotExist,
    /// The person is banned from the room they were to be invited into.
    UserIsBanned,
    /// The person's membership state is of an undocumented kind.
    StateUnknown,
}

/// The membership state a room records for one person.
#[derive(Debug, Clone, Copy, PartialEq, Eq, Structural)]
pub enum RoomMembership {
    Join,
    Invite,
    Knock,
    Leave,
    Ban,
    /// A state the client does not recognize.
    Unrecognized,
}

/// One remote room: its reference, its display name, and the membership
/// state of everyone the room has ever recorded.
#[derive(Debug, PartialEq, Eq)]
pub struct Room {
    pub room_id: String,
    pub display_name: String,
    pub members: Vec<(String, RoomMembership)>,
}

impl Room {
    /// A room records at most one state per person.
    pub open spec fn wf(self) -> bool {
        forall|i: int, j: int|
            0 <= i < j < self.members@.len() ==> self.members@[i].0@ != self.members@[j].0@
    }

    pub open spec fn spec_has_member(self, name: Seq<char>) -> bool {
        exists|i: int| 0 <= i < self.members@.len() && (#[trigger] self.members@[i]).0@ == name
    }

    pub open spec fn spec_member_index(self, name: Seq<char>) -> int {
        choose|i: int| 0 <= i < self.members@.len() && (#[trigger] self.members@[i]).0@ == name
    }

    /// The state this room records for the person, `None` when it records
    /// nothing.
    pub open spec fn spec_member_state(self, name: Seq<char>) -> Option<RoomMembership> {
        if self.spec_has_member(name) {
            Some(self.members@[self.spec_member_index(name)].1)
        } else {
            None
        }
    }
}

/// In a well-formed room the entry at `i` is the one and only entry for its
/// name, so the lookup resolves to it.
pub proof fn lemma_room_member_lookup(room: Room, i: int, name: Seq<char>)
    requires
        room.wf(),
        0 <= i < room.members@.len(),
        room.members@[i].0@ == name,
    ensures
        room.spec_has_member(name),
        room.spec_member_index(name) == i,
        room.spec_member_state(name) == Some(room.members@[i].1),
{
    assert(room.spec_has_member(name));
    let k = room.spec_member_index(name);
    if k < i {
        assert(room.members@[k].0@ != room.members@[i].0@);
        assert(false);
    } else if i < k {
        assert(room.members@[i].0@ != room.members@[k].0@);
        assert(false);
    }
}

/// What one idempotent "ensure present" call answers, given the state the
/// room records: already joined or invited is success, as is anything an
/// invitation can mend; a ban and an unrecognized state are distinct
/// failures.
pub open spec fn spec_present_outcome(m: Option<RoomMembership>) -> Result<(), RoomError> {
    match m {
        Some(RoomMembership::Ban) => Err(RoomError::UserIsBanned),
        Some(RoomMembership::Unrecognized) => Err(RoomError::StateUnknown),
        _ => Ok(()),
    }
}

/// The state the room records after an "ensure present" call.
pub open spec fn spec_present_next(m: Option<RoomMembership>) -> Option<RoomMembership> {
    match m {
        None => Some(RoomMembership::Invite),
        Some(RoomMembership::Knock) => Some(RoomMembership::Invite),
        Some(RoomMembership::Leave) => Some(RoomMembership::Invite),
        _ => m,
    }
}

/// The state the room records after an "ensure absent" call.  The call
/// itself always succeeds on a reachable room: only a joined or invited
/// person has anything to retract.
pub open spec fn spec_absent_next(m: Option<RoomMembership>) -> Option<RoomMembership> {
    match m {
        Some(RoomMembership::Join) => Some(RoomMembership::Leave),
        Some(RoomMembership::Invite) => Some(RoomMembership::Leave),
        _ => m,
    }
}

/// The directory of all rooms the service knows.
#[derive(Debug, PartialEq, Eq)]
pub struct RoomDirectory {
    /// Whether the service answers at all; every operation fails without it.
    pub reachable: bool,
    /// Counter from which fresh room references are minted.
    pub next_serial: u32,
    pub rooms: Vec<Room>,
}

impl RoomDirectory {
    /// Every room reference was minted from the counter, and no two rooms
    /// share one.
    pub open spec fn wf(self) -> bool {
        &&& forall|i: int| 0 <= i < self.rooms@.len() ==> (#[trigger] self.rooms@[i]).wf()
        &&& forall|i: int|
            0 <= i < self.rooms@.len() ==> exists|k: int|
                0 <= k < self.next_serial && (#[trigger] self.rooms@[i]).room_id@ == spec_decimal(k)
        &&& forall|i: int, j: int|
            0 <= i < j < self.rooms@.len() ==> self.rooms@[i].room_id@ != self.rooms@[j].room_id@
    }

    /// An empty, reachable directory.
    pub fn new() -> (r: Self)
        ensures
            r.reachable,
            r.rooms@ =~= Seq::<Room>::empty(),
            r.next_serial == 0,
            r.wf(),
    {
        RoomDirectory { reachable: true, next_serial: 0, rooms: Vec::new() }
    }

    pub open spec fn spec_has_room(self, id: Seq<char>) -> bool {
        exists|i: int| 0 <= i < self.rooms@.len() && (#[trigger] self.rooms@[i]).room_id@ == id
    }

    pub open spec fn spec_room_index(self, id: Seq<char>) -> int {
        choose|i: int| 0 <= i < self.rooms@.len() && (#[trigger] self.rooms@[i]).room_id@ == id
    }

    /// The room carrying the given reference.
    pub open spec fn spec_room(self, id: Seq<char>) -> Room {
        self.rooms@[self.spec_room_index(id)]
    }

    /// Index of the room with the given reference.
    fn find_room(&self, room_id: &str) -> (r: Option<usize>)
        requires
            self.wf(),
        ensures
            match r {
                Some(i) => {
                    &&& i < self.rooms@.len()
                    &&& self.rooms@[i as int].room_id@ == room_id@
                    &&& self.spec_has_room(room_id@)
                    &&& self.spec_room_index(room_id@) == i
                },
                None => !self.spec_has_room(room_id@),
            },
    {
        let key: String = room_id.to_owned();
        let mut i: usize = 0;
        while i < self.rooms.len()
            invariant
                self.wf(),
                key@ == room_id@,
                0 <= i <= self.rooms@.len(),
                forall|j: int| 0 <= j < i ==> (#[trigger] self.rooms@[j]).room_id@ != room_id@,
            decreases self.rooms@.len() - i,
        {
            if self.rooms[i].room_id == key {
                proof {
                    lemma_room_lookup(*self, i as int, room_id@);
                }
                return Some(i);
            }
            i += 1;
        }
        None
    }
}

/// Index of the entry recording the given person, in a list with at most
/// one entry per person.
fn find_member(list: &Vec<(String, RoomMembership)>, name: &String) -> (r: Option<usize>)
    requires
        forall|i: int, j: int| 0 <= i < j < list@.len() ==> list@[i].0@ != list@[j].0@,
    ensures
        match r {
            Some(i) => i < list@.len() && list@[i as int].0@ == name@,
            None => forall|j: int| 0 <= j < list@.len() ==> (#[trigger] list@[j]).0@ != name@,
        },
{
    let mut i: usize = 0;
    while i < list.len()
        invariant
            0 <= i <= list@.len(),
            forall|j: int| 0 <= j < i ==> (#[trigger] list@[j]).0@ != name@,
        decreases list@.len() - i,
    {
        if list[i].0 == *name {
            return Some(i);
        }
        i += 1;
    }
    None
}

impl RoomDirectory {
    /// Create a room named after the project and invite its members; the
    /// service mints the reference.  Moves the project to `RoomOnly`.
    pub fn create_room(&mut self, project: Project) -> (r: Result<Project, RoomError>)
        requires
            old(self).wf(),
            project.project_id is Unprovisioned,
            forall|i: int, j: int|
                0 <= i < j < project.members@.len() ==> project.members@[i].0.name@
                    != project.members@[j].0.name@,
            old(self).next_serial < u32::MAX,
        ensures
            final(self).wf(),
            !old(self).reachable ==> r == Result::<Project, RoomError>::Err(RoomError::Unreachable)
                && *final(self) == *old(self),
            old(self).reachable ==> match r {
                Ok(p) => {
                    let room = final(self).rooms@.last();
                    &&& p.project_id matches IdentityState::RoomOnly(m) && m.matrix_id@
                        == spec_decimal(old(self).next_serial as int)
                    &&& p.name == project.name
                    &&& p.members@ == project.members@
                    &&& final(self).rooms@.len() == old(self).rooms@.len() + 1
                    &&& final(self).rooms@.subrange(0, old(self).rooms@.len() as int) == old(
                        self,
                    ).rooms@
                    &&& room.room_id@ == spec_decimal(old(self).next_serial as int)
                    &&& room.display_name == project.name
                    &&& room.members@.len() == project.members@.len()
                    &&& forall|k: int|
                        0 <= k < project.members@.len() ==> (#[trigger] room.members@[k]).0@
                            == project.members@[k].0.name@ && room.members@[k].1
                            == RoomMembership::Invite
                    &&& final(self).next_serial == old(self).next_serial + 1
                    &&& final(self).reachable
                },
                Err(_) => false,
            },
    {
        if !self.reachable {
            return Err(RoomError::Unreachable);
        }
        let room_id = u32_to_decimal(self.next_serial);
        let mut members: Vec<(String, RoomMembership)> = Vec::new();
        let mut i: usize = 0;
        while i < project.members.len()
            invariant
                0 <= i <= project.members@.len(),
                members@.len() == i,
                forall|k: int|
                    0 <= k < i ==> (#[trigger] members@[k]).0@ == project.members@[k].0.name@
                        && members@[k].1 == RoomMembership::Invite,
            decreases project.members@.len() - i,
        {
            members.push((project.members[i].0.name.clone(), RoomMembership::Invite));
            i += 1;
        }
        let room = Room {
            room_id: room_id.clone(),
            display_name: project.name.clone(),
            members,
        };
        let ghost serial = self.next_serial;
        proof {
            assert forall|i: int|
                0 <= i < self.rooms@.len() implies (#[trigger] self.rooms@[i]).room_id@
                != spec_decimal(serial as int) by {
                let k = choose|k: int|
                    0 <= k < self.next_serial && (#[trigger] self.rooms@[i]).room_id@
                        == spec_decimal(k);
                if self.rooms@[i].room_id@ == spec_decimal(serial as int) {
                    lemma_decimal_injective(k, serial as int);
                }
            }
        }
        self.rooms.push(room);
        self.next_serial = self.next_serial + 1;
        proof {
            assert(self.rooms@.subrange(0, old(self).rooms@.len() as int) =~= old(self).rooms@);
            assert forall|a: int, b: int|
                0 <= a < b < self.rooms@.len() implies self.rooms@[a].room_id@
                != self.rooms@[b].room_id@ by {
                if b == self.rooms@.len() - 1 {
                    assert(self.rooms@[a] == old(self).rooms@[a]);
                    assert(self.rooms@[a].room_id@ != spec_decimal(serial as int));
                }
            }
            assert forall|i: int| 0 <= i < self.rooms@.len() implies exists|k: int|
                0 <= k < self.next_serial && (#[trigger] self.rooms@[i]).room_id@ == spec_decimal(
                    k,
                ) by {
                if i == self.rooms@.len() - 1 {
                    assert(self.rooms@[i].room_id@ == spec_decimal(serial as int));
                } else {
                    let k = choose|k: int|
                        0 <= k < old(self).next_serial && (#[trigger] old(self).rooms@[i]).room_id@
                            == spec_decimal(k);
                    assert(self.rooms@[i].room_id@ == spec_decimal(k));
                }
            }
        }
        Ok(project.set_matrix_id(room_id))
    }

    /// Change a room's display name.
    pub fn rename_room(&mut self, room_id: &str, new_name: String) -> (r: Result<(), RoomError>)
        requires
            old(self).wf(),
        ensures
            final(self).wf(),
            !old(self).reachable ==> r == Result::<(), RoomError>::Err(RoomError::Unreachable)
                && *final(self) == *old(self),
            old(self).reachable && !old(self).spec_has_room(room_id@) ==> r == Result::<
                (),
                RoomError,
            >::Err(RoomError::RoomDoesNotExist) && *final(self) == *old(self),
            old(self).reachable && old(self).spec_has_room(room_id@) ==> match r {
                Ok(_) => {
                    let j = old(self).spec_room_index(room_id@);
                    &&& rooms_updated_at(old(self).rooms@, final(self).rooms@, j)
                    &&& final(self).rooms@[j].room_id == old(self).rooms@[j].room_id
                    &&& final(self).rooms@[j].display_name == new_name
                    &&& final(self).rooms@[j].members@ == old(self).rooms@[j].members@
                    &&& final(self).reachable == old(self).reachable
                    &&& final(self).next_serial == old(self).next_serial
                },
                Err(_) => false,
            },
    {
        if !self.reachable {
            return Err(RoomError::Unreachable);
        }
        let j = match self.find_room(room_id) {
            None => {
                return Err(RoomError::RoomDoesNotExist);
            },
            Some(j) => j,
        };
        self.rooms[j].display_name = new_name;
        Ok(())
    }

    /// Ensure the person is in the room: succeed at once when they are
    /// already joined or invited, invite them when an invitation can mend
    /// their state, and fail distinctly on a ban or an unrecognized state.
    pub fn ensure_member_present(&mut self, room_id: &str, person_name: &String) -> (r: Result<
        (),
        RoomError,
    >)
        requires
            old(self).wf(),
        ensures
            final(self).wf(),
            !old(self).reachable ==> r == Result::<(), RoomError>::Err(RoomError::Unreachable)
                && *final(self) == *old(self),
            old(self).reachable && !old(self).spec_has_room(room_id@) ==> r == Result::<
                (),
                RoomError,
            >::Err(RoomError::RoomDoesNotExist) && *final(self) == *old(self),
            old(self).reachable && old(self).spec_has_room(room_id@) ==> {
                let j = old(self).spec_room_index(room_id@);
                let room0 = old(self).rooms@[j];
                let m0 = room0.spec_member_state(person_name@);
                &&& r == spec_present_outcome(m0)
                &&& rooms_updated_at(old(self).rooms@, final(self).rooms@, j)
                &&& final(self).rooms@[j].room_id == room0.room_id
                &&& final(self).rooms@[j].display_name == room0.display_name
                &&& final(self).rooms@[j].spec_member_state(person_name@) == spec_present_next(m0)
                &&& forall|n: Seq<char>|
                    n != person_name@ ==> #[trigger] final(self).rooms@[j].spec_member_state(n)
                        == room0.spec_member_state(n)
                &&& r is Err ==> *final(self) == *old(self)
                &&& final(self).reachable == old(self).reachable
                &&& final(self).next_serial == old(self).next_serial
            },
    {
        if !self.reachable {
            return Err(RoomError::Unreachable);
        }
        let j = match self.find_room(room_id) {
            None => {
                return Err(RoomError::RoomDoesNotExist);
            },
            Some(j) => j,
        };
        let ghost room0 = self.rooms@[j as int];
        match find_member(&self.rooms[j].members, person_name) {
            None => {
                self.rooms[j].members.push((person_name.clone(), RoomMembership::Invite));
                proof {
                    let room1 = self.rooms@[j as int];
                    assert(room1.wf());
                    lemma_room_member_lookup(
                        room1,
                        room1.members@.len() - 1,
                        person_name@,
                    );
                    lemma_one_entry_changed(room0, room1, person_name@);
                }
                Ok(())
            },
            Some(i) => {
                proof {
                    lemma_room_member_lookup(room0, i as int, person_name@);
                }
                let state = self.rooms[j].members[i].1;
                match state {
                    RoomMembership::Join => Ok(()),
                    RoomMembership::Invite => Ok(()),
                    RoomMembership::Knock | RoomMembership::Leave => {
                        self.rooms[j].members[i].1 = RoomMembership::Invite;
                        proof {
                            let room1 = self.rooms@[j as int];
                            assert(room1.wf()) by {
                                assert(forall|k: int|
                                    0 <= k < room1.members@.len() ==> (#[trigger] room1.members@[k]).0
                                        == room0.members@[k].0);
                            }
                            lemma_room_member_lookup(room1, i as int, person_name@);
                            lemma_one_entry_changed(room0, room1, person_name@);
                        }
                        Ok(())
                    },
                    RoomMembership::Ban => Err(RoomError::UserIsBanned),
                    RoomMembership::Unrecognized => Err(RoomError::StateUnknown),
                }
            },
        }
    }

    /// Ensure the person is not in the room: retract a join or an
    /// invitation, and treat everyone else, the never-seen included, as
    /// already absent.
    pub fn ensure_member_absent(&mut self, room_id: &str, person_name: &String) -> (r: Result<
        (),
        RoomError,
    >)
        requires
            old(self).wf(),
        ensures
            final(self).wf(),
            !old(self).reachable ==> r == Result::<(), RoomError>::Err(RoomError::Unreachable)
                && *final(self) == *old(self),
            old(self).reachable && !old(self).spec_has_room(room_id@) ==> r == Result::<
                (),
                RoomError,
            >::Err(RoomError::RoomDoesNotExist) && *final(self) == *old(self),
            old(self).reachable && old(self).spec_has_room(room_id@) ==> {
                let j = old(self).spec_room_index(room_id@);
                let room0 = old(self).rooms@[j];
                let m0 = room0.spec_member_state(person_name@);
                &&& r is Ok
                &&& rooms_updated_at(old(self).rooms@, final(self).rooms@, j)
                &&& final(self).rooms@[j].room_id == room0.room_id
                &&& final(self).rooms@[j].display_name == room0.display_name
                &&& final(self).rooms@[j].spec_member_state(person_name@) == spec_absent_next(m0)
                &&& forall|n: Seq<char>|
                    n != person_name@ ==> #[trigger] final(self).rooms@[j].spec_member_state(n)
                        == room0.spec_member_state(n)
                &&& final(self).reachable == old(self).reachable
                &&& final(self).next_serial == old(self).next_serial
            },
    {
        if !self.reachable {
            return Err(RoomError::Unreachable);
        }
        let j = match self.find_room(room_id) {
            None => {
                return Err(RoomError::RoomDoesNotExist);
            },
            Some(j) => j,
        };
        let ghost room0 = self.rooms@[j as int];
        match find_member(&self.rooms[j].members, person_name) {
            None => Ok(()),
            Some(i) => {
                proof {
                    lemma_room_member_lookup(room0, i as int, person_name@);
                }
                let state = self.rooms[j].members[i].1;
                match state {
                    RoomMembership::Join | RoomMembership::Invite => {
                        self.rooms[j].members[i].1 = RoomMembership::Leave;
                        proof {
                            let room1 = self.rooms@[j as int];
                            assert(room1.wf()) by {
                                assert(forall|k: int|
                                    0 <= k < room1.members@.len() ==> (#[trigger] room1.members@[k]).0
                                        == room0.members@[k].0);
                            }
                            lemma_room_member_lookup(room1, i as int, person_name@);
                            lemma_one_entry_changed(room0, room1, person_name@);
                        }
                        Ok(())
                    },
                    _ => Ok(()),
                }
            },
        }
    }
}

/// When a room changes at most the one entry carrying `name` — in place
/// or by appending it — every other person's recorded state stays as it
/// was.
pub proof fn lemma_one_entry_changed(room0: Room, room1: Room, name: Seq<char>)
    requires
        room0.wf(),
        room1.wf(),
        room0.members@.len() <= room1.members@.len(),
        room1.members@.len() <= room0.members@.len() + 1,
        forall|k: int|
            0 <= k < room0.members@.len() ==> (#[trigger] room1.members@[k]).0 == room0.members@[k].0,
        forall|k: int|
            0 <= k < room0.members@.len() && room0.members@[k].0@ != name ==> (
            #[trigger] room1.members@[k]) == room0.members@[k],
        room1.members@.len() > room0.members@.len() ==> room1.members@.last().0@ == name,
    ensures
        forall|n: Seq<char>|
            n != name ==> #[trigger] room1.spec_member_state(n) == room0.spec_member_state(n),
{
    assert forall|n: Seq<char>| n != name implies #[trigger] room1.spec_member_state(n)
        == room0.spec_member_state(n) by {
        if room0.spec_has_member(n) {
            let k = room0.spec_member_index(n);
            assert(room0.members@[k].0@ == n);
            assert(room1.members@[k] == room0.members@[k]);
            lemma_room_member_lookup(room1, k, n);
        } else {
            if room1.spec_has_member(n) {
                let k = room1.spec_member_index(n);
                assert(room1.members@[k].0@ == n);
                if k < room0.members@.len() {
                    assert(room0.members@[k].0@ == n);
                    assert(false);
                } else {
                    assert(room1.members@[k].0@ == name);
                    assert(false);
                }
            }
        }
    }
}

/// All rooms other than the one at `j` are untouched.
pub open spec fn rooms_updated_at(before: Seq<Room>, after: Seq<Room>, j: int) -> bool {
    &&& after.len() == before.len()
    &&& forall|k: int| 0 <= k < before.len() && k != j ==> after[k] == before[k]
}

/// Ensuring presence is idempotent: once a call has succeeded, an immediate
/// second call, with no intervening removal, succeeds as well and records
/// no further change.
pub proof fn lemma_ensure_present_idempotent(m: Option<RoomMembership>)
    requires
        spec_present_outcome(m) is Ok,
    ensures
        spec_present_outcome(spec_present_next(m)) is Ok,
        spec_present_next(spec_present_next(m)) == spec_present_next(m),
{
}

/// Ensuring absence is idempotent in the same way.
pub proof fn lemma_ensure_absent_idempotent(m: Option<RoomMembership>)
    ensures
        spec_absent_next(spec_absent_next(m)) == spec_absent_next(m),
{
}

/// In a well-formed directory the room at `i` is the one and only room for
/// its reference, so the lookup resolves to it.
pub proof fn lemma_room_lookup(d: RoomDirectory, i: int, id: Seq<char>)
    requires
        d.wf(),
        0 <= i < d.rooms@.len(),
        d.rooms@[i].room_id@ == id,
    ensures
        d.spec_has_room(id),
        d.spec_room_index(id) == i,
        d.spec_room(id) == d.rooms@[i],
{
    assert(d.spec_has_room(id));
    let k = d.spec_room_index(id);
    if k < i {
        assert(d.rooms@[k].room_id@ != d.rooms@[i].room_id@);
        assert(false);
    } else if i < k {
        assert(d.rooms@[i].room_id@ != d.rooms@[k].room_id@);
        assert(false);
    }
}

} // verus!
