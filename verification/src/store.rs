//! In-memory model of the relational store.
//!
//! The store is the source of truth for identity and permissions.  This
//! module gives its operations exact semantics over plain data: person rows,
//! project rows and the member entries a loaded project carries.  The
//! orchestrator is verified against these semantics; a shell that drives a
//! real database maps its outcomes onto the same results.
//!
//! The store is the sole writer of persisted identifiers: fresh ids come
//! from its counters and nothing else fabricates one.  A staged write that a
//! transaction would hold back is modelled by applying the write only when
//! the action commits; an uncommitted transaction has no observable effect.

use vstd::prelude::*;
use vstd::seq_lib::group_seq_properties;

use crate::identity::{DbNoMatrix, IdentityState};
use crate::person::Person;
use crate::project::{same_db_id, Project};
use crate::project::ids_match;
use crate::user_permission::UserPermission;

verus! {

/// A relational failure, as far as the orchestrator distinguishes them.
#[derive(Debug, Clone, Copy, PartialEq, Eq, Structural)]
pub enum StoreFault {
    /// The store cannot be reached (connect, begin or query failed).
    Unreachable,
    /// A uniqueness constraint rejected the write.
    Constraint,
    /// A row that the write depends on does not exist.
    MissingRow,
}

/// Whether an optional store id is present and below the bound.
pub open spec fn id_below(o: Option<i32>, bound: i32) -> bool {
    match o {
        Some(x) => x < bound,
        None => false,
    }
}

/// Whether some member entry of `s` carries the given store id.
pub open spec fn seq_has_member_id(s: Seq<(Person, UserPermission)>, id: Option<i32>) -> bool {
    exists|i: int| 0 <= i < s.len() && same_db_id((#[trigger] s[i]).0.spec_db_id(), id)
}

/// Whether some person of `s` carries the given store id.
pub open spec fn seq_has_person_id(s: Seq<Person>, id: Option<i32>) -> bool {
    exists|i: int| 0 <= i < s.len() && same_db_id((#[trigger] s[i]).spec_db_id(), id)
}

pub struct Store {
    /// Whether the database answers at all; every operation fails without it.
    pub reachable: bool,
    pub next_person_id: i32,
    pub next_project_id: i32,
    pub persons: Vec<Person>,
    pub projects: Vec<Project>,
}

impl Store {
    /// Row invariants: persisted identities, fresh counters, unique keys.
    pub open spec fn wf(self) -> bool {
        &&& forall|i: int|
            0 <= i < self.persons@.len() ==> (#[trigger] self.persons@[i]).person_id is StoreOnly
        &&& forall|i: int|
            0 <= i < self.persons@.len() ==> id_below(
                (#[trigger] self.persons@[i]).spec_db_id(),
                self.next_person_id,
            )
        &&& forall|i: int, j: int|
            0 <= i < j < self.persons@.len() ==> !same_db_id(
                self.persons@[i].spec_db_id(),
                self.persons@[j].spec_db_id(),
            )
        &&& forall|i: int, j: int|
            0 <= i < j < self.persons@.len() ==> self.persons@[i].name@ != self.persons@[j].name@
        &&& forall|i: int|
            0 <= i < self.projects@.len() ==> (#[trigger] self.projects@[i]).project_id is Complete
        &&& forall|i: int|
            0 <= i < self.projects@.len() ==> id_below(
                (#[trigger] self.projects@[i]).spec_db_id(),
                self.next_project_id,
            )
        &&& forall|i: int, j: int|
            0 <= i < j < self.projects@.len() ==> !same_db_id(
                self.projects@[i].spec_db_id(),
                self.projects@[j].spec_db_id(),
            )
        &&& forall|i: int| 0 <= i < self.projects@.len() ==> (#[trigger] self.projects@[i]).wf()
    }

    /// An empty, reachable store.
    pub fn new() -> (r: Self)
        ensures
            r.reachable,
            r.persons@ =~= Seq::<Person>::empty(),
            r.projects@ =~= Seq::<Project>::empty(),
            r.next_person_id == 1,
            r.next_project_id == 1,
            r.wf(),
    {
        Store {
            reachable: true,
            next_person_id: 1,
            next_project_id: 1,
            persons: Vec::new(),
            projects: Vec::new(),
        }
    }

    pub open spec fn spec_has_project(self, id: i32) -> bool {
        exists|i: int|
            0 <= i < self.projects@.len() && same_db_id(
                (#[trigger] self.projects@[i]).spec_db_id(),
                Some(id),
            )
    }

    pub open spec fn spec_project_index(self, id: i32) -> int {
        choose|i: int|
            0 <= i < self.projects@.len() && same_db_id(
                (#[trigger] self.projects@[i]).spec_db_id(),
                Some(id),
            )
    }

    /// The project row carrying the given id.
    pub open spec fn spec_project(self, id: i32) -> Project {
        self.projects@[self.spec_project_index(id)]
    }

    pub open spec fn spec_has_person_named(self, name: Seq<char>) -> bool {
        exists|i: int| 0 <= i < self.persons@.len() && (#[trigger] self.persons@[i]).name@ == name
    }

    pub open spec fn spec_person_named_index(self, name: Seq<char>) -> int {
        choose|i: int| 0 <= i < self.persons@.len() && (#[trigger] self.persons@[i]).name@ == name
    }

    /// The person row carrying the given name.
    pub open spec fn spec_person_named(self, name: Seq<char>) -> Person {
        self.persons@[self.spec_person_named_index(name)]
    }

    /// Test at runtime whether the store answers at all.
    pub fn try_acquire_connection(&self) -> (r: Result<(), StoreFault>)
        ensures
            r is Ok <==> self.reachable,
            r is Err ==> r == Result::<(), StoreFault>::Err(StoreFault::Unreachable),
    {
        if self.reachable {
            Ok(())
        } else {
            Err(StoreFault::Unreachable)
        }
    }

    /// Index of the project row with the given id.
    fn find_project(&self, id: i32) -> (r: Option<usize>)
        requires
            self.wf(),
        ensures
            match r {
                Some(i) => {
                    &&& i < self.projects@.len()
                    &&& same_db_id(self.projects@[i as int].spec_db_id(), Some(id))
                    &&& self.spec_has_project(id)
                    &&& self.spec_project_index(id) == i
                },
                None => !self.spec_has_project(id),
            },
    {
        let mut i: usize = 0;
        while i < self.projects.len()
            invariant
                self.wf(),
                0 <= i <= self.projects@.len(),
                forall|j: int|
                    0 <= j < i ==> !same_db_id(
                        (#[trigger] self.projects@[j]).spec_db_id(),
                        Some(id),
                    ),
            decreases self.projects@.len() - i,
        {
            if ids_match(self.projects[i].db_id(), Some(id)) {
                proof {
                    lemma_project_lookup(*self, i as int, id);
                }
                return Some(i);
            }
            i += 1;
        }
        None
    }

    /// Load one project by id: `None` when no row carries the id.
    pub fn get_project(&self, id: i32) -> (r: Result<Option<Project>, StoreFault>)
        requires
            self.wf(),
        ensures
            !self.reachable ==> r == Result::<Option<Project>, StoreFault>::Err(
                StoreFault::Unreachable,
            ),
            self.reachable ==> match r {
                Ok(opt) => {
                    &&& opt is Some <==> self.spec_has_project(id)
                    &&& opt matches Some(p) ==> same_project(p, self.spec_project(id))
                },
                Err(_) => false,
            },
    {
        if !self.reachable {
            return Err(StoreFault::Unreachable);
        }
        match self.find_project(id) {
            Some(i) => Ok(Some(self.projects[i].duplicate())),
            None => Ok(None),
        }
    }

    /// Load the list of all projects, in row order.
    pub fn get_projects(&self) -> (r: Result<Vec<Project>, StoreFault>)
        requires
            self.wf(),
        ensures
            !self.reachable ==> r == Result::<Vec<Project>, StoreFault>::Err(
                StoreFault::Unreachable,
            ),
            self.reachable ==> match r {
                Ok(list) => list@.len() == self.projects@.len() && forall|i: int|
                    0 <= i < list@.len() ==> same_project(#[trigger] list@[i], self.projects@[i]),
                Err(_) => false,
            },
    {
        if !self.reachable {
            return Err(StoreFault::Unreachable);
        }
        let mut list: Vec<Project> = Vec::new();
        let mut i: usize = 0;
        while i < self.projects.len()
            invariant
                0 <= i <= self.projects@.len(),
                list@.len() == i,
                forall|j: int| 0 <= j < i ==> same_project(#[trigger] list@[j], self.projects@[j]),
            decreases self.projects@.len() - i,
        {
            list.push(self.projects[i].duplicate());
            i += 1;
        }
        Ok(list)
    }

    /// Load one person by exact name: `None` when no row carries the name.
    pub fn get_person(&self, name: &str) -> (r: Result<Option<Person>, StoreFault>)
        requires
            self.wf(),
        ensures
            !self.reachable ==> r == Result::<Option<Person>, StoreFault>::Err(
                StoreFault::Unreachable,
            ),
            self.reachable ==> match r {
                Ok(opt) => {
                    &&& opt is Some <==> self.spec_has_person_named(name@)
                    &&& opt matches Some(p) ==> p == self.spec_person_named(name@)
                },
                Err(_) => false,
            },
    {
        if !self.reachable {
            return Err(StoreFault::Unreachable);
        }
        let key: String = name.to_owned();
        let mut i: usize = 0;
        while i < self.persons.len()
            invariant
                self.wf(),
                self.reachable,
                key@ == name@,
                0 <= i <= self.persons@.len(),
                forall|j: int| 0 <= j < i ==> (#[trigger] self.persons@[j]).name@ != name@,
            decreases self.persons@.len() - i,
        {
            if self.persons[i].name == key {
                proof {
                    lemma_person_named_lookup(*self, i as int, name@);
                }
                return Ok(Some(self.persons[i].duplicate()));
            }
            i += 1;
        }
        Ok(None)
    }

    /// Load the list of all persons, in row order.
    pub fn get_all_persons(&self) -> (r: Result<Vec<Person>, StoreFault>)
        requires
            self.wf(),
        ensures
            !self.reachable ==> r == Result::<Vec<Person>, StoreFault>::Err(StoreFault::Unreachable),
            self.reachable ==> (r matches Ok(list) && list@ == self.persons@),
    {
        if !self.reachable {
            return Err(StoreFault::Unreachable);
        }
        let mut list: Vec<Person> = Vec::new();
        let mut i: usize = 0;
        while i < self.persons.len()
            invariant
                0 <= i <= self.persons@.len(),
                list@ =~= self.persons@.subrange(0, i as int),
            decreases self.persons@.len() - i,
        {
            list.push(self.persons[i].duplicate());
            i += 1;
        }
        assert(list@ =~= self.persons@);
        Ok(list)
    }

    /// Persist a fresh person.  The store mints the id; the name must not be
    /// taken, since it is the cross-system correlation key.
    pub fn add_person(&mut self, person: Person) -> (r: Result<Person, StoreFault>)
        requires
            old(self).wf(),
            person.person_id is Unprovisioned,
            old(self).next_person_id < i32::MAX,
        ensures
            final(self).wf(),
            !old(self).reachable ==> r == Result::<Person, StoreFault>::Err(StoreFault::Unreachable)
                && *final(self) == *old(self),
            old(self).reachable && old(self).spec_has_person_named(person.name@) ==> r
                == Result::<Person, StoreFault>::Err(StoreFault::Constraint) && *final(self)
                == *old(self),
            old(self).reachable && !old(self).spec_has_person_named(person.name@) ==> match r {
                Ok(p) => {
                    &&& p == (Person {
                        person_id: IdentityState::StoreOnly(
                            DbNoMatrix { db_id: old(self).next_person_id },
                        ),
                        ..person
                    })
                    &&& final(self).persons@ == old(self).persons@.push(p)
                    &&& final(self).next_person_id == old(self).next_person_id + 1
                    &&& final(self).projects@ == old(self).projects@
                    &&& final(self).next_project_id == old(self).next_project_id
                    &&& final(self).reachable
                },
                Err(_) => false,
            },
    {
        if !self.reachable {
            return Err(StoreFault::Unreachable);
        }
        let mut i: usize = 0;
        while i < self.persons.len()
            invariant
                *old(self) == *self,
                self.wf(),
                self.reachable,
                0 <= i <= self.persons@.len(),
                forall|j: int| 0 <= j < i ==> (#[trigger] self.persons@[j]).name@ != person.name@,
            decreases self.persons@.len() - i,
        {
            if self.persons[i].name == person.name {
                return Err(StoreFault::Constraint);
            }
            i += 1;
        }
        let id = self.next_person_id;
        let stored = Person {
            person_id: IdentityState::StoreOnly(DbNoMatrix { db_id: id }),
            name: person.name,
            global_permission: person.global_permission,
            surname: person.surname,
            firstname: person.firstname,
        };
        let result = stored.duplicate();
        self.persons.push(stored);
        self.next_person_id = id + 1;
        proof {
            assert forall|a: int, b: int| 0 <= a < b < self.persons@.len() implies !same_db_id(
                self.persons@[a].spec_db_id(),
                self.persons@[b].spec_db_id(),
            ) by {
                if b == self.persons@.len() - 1 {
                    assert(id_below(old(self).persons@[a].spec_db_id(), self.next_person_id));
                }
            }
        }
        Ok(result)
    }

    /// Persist a project that so far exists only as a remote room.  The
    /// store mints the id and keeps the member entries it arrives with.
    pub fn add_project(&mut self, project: Project) -> (r: Result<Project, StoreFault>)
        requires
            old(self).wf(),
            project.wf(),
            project.project_id is RoomOnly,
            old(self).next_project_id < i32::MAX,
        ensures
            final(self).wf(),
            !old(self).reachable ==> r == Result::<Project, StoreFault>::Err(StoreFault::Unreachable)
                && *final(self) == *old(self),
            old(self).reachable ==> match r {
                Ok(p) => {
                    &&& p.project_id matches IdentityState::Complete(f) && f.db_id == old(
                        self,
                    ).next_project_id && Some(f.matrix_id@) == project.spec_matrix_id()
                    &&& p.name == project.name
                    &&& p.members@ == project.members@
                    &&& final(self).projects@.len() == old(self).projects@.len() + 1
                    &&& same_project(final(self).projects@.last(), p)
                    &&& final(self).projects@.subrange(0, old(self).projects@.len() as int) == old(
                        self,
                    ).projects@
                    &&& final(self).next_project_id == old(self).next_project_id + 1
                    &&& final(self).persons@ == old(self).persons@
                    &&& final(self).next_person_id == old(self).next_person_id
                    &&& final(self).reachable
                },
                Err(_) => false,
            },
    {
        if !self.reachable {
            return Err(StoreFault::Unreachable);
        }
        let id = self.next_project_id;
        let idd = project.set_db_id(id);
        let result = idd.duplicate();
        self.projects.push(idd);
        self.next_project_id = id + 1;
        proof {
            assert(final(self).projects@.subrange(0, old(self).projects@.len() as int) =~= old(
                self,
            ).projects@);
            assert forall|a: int, b: int| 0 <= a < b < self.projects@.len() implies !same_db_id(
                self.projects@[a].spec_db_id(),
                self.projects@[b].spec_db_id(),
            ) by {
                if b == self.projects@.len() - 1 {
                    assert(id_below(old(self).projects@[a].spec_db_id(), self.next_project_id));
                }
            }
        }
        Ok(result)
    }
}

/// The member entries kept once the listed persons are removed.
pub open spec fn spec_without(
    members: Seq<(Person, UserPermission)>,
    removed: Seq<Person>,
) -> Seq<(Person, UserPermission)> {
    members.filter(
        |e: (Person, UserPermission)| !seq_has_person_id(removed, e.0.spec_db_id()),
    )
}

/// The entries of `before` whose person also appears in `desired`.
pub open spec fn spec_kept(
    before: Seq<(Person, UserPermission)>,
    desired: Seq<(Person, UserPermission)>,
) -> Seq<(Person, UserPermission)> {
    before.filter(|e: (Person, UserPermission)| seq_has_member_id(desired, e.0.spec_db_id()))
}

/// The entries of `desired` whose person is absent from `before`.
pub open spec fn spec_added(
    desired: Seq<(Person, UserPermission)>,
    before: Seq<(Person, UserPermission)>,
) -> Seq<(Person, UserPermission)> {
    desired.filter(|e: (Person, UserPermission)| !seq_has_member_id(before, e.0.spec_db_id()))
}

/// The member entries with the permission of the given person overwritten.
pub open spec fn spec_with_permission(
    members: Seq<(Person, UserPermission)>,
    person_id: i32,
    perm: UserPermission,
) -> Seq<(Person, UserPermission)> {
    members.map_values(
        |e: (Person, UserPermission)|
            if same_db_id(e.0.spec_db_id(), Some(person_id)) {
                (e.0, perm)
            } else {
                e
            },
    )
}

/// Member-list well-formedness, spelled out over a raw entry sequence.
pub open spec fn entries_wf(s: Seq<(Person, UserPermission)>) -> bool {
    &&& forall|i: int| 0 <= i < s.len() ==> (#[trigger] s[i]).0.person_id is StoreOnly
    &&& forall|i: int, j: int|
        0 <= i < j < s.len() ==> !same_db_id(s[i].0.spec_db_id(), s[j].0.spec_db_id())
}

/// Filtering a well-formed member list leaves a well-formed member list.
pub proof fn lemma_filter_entries_wf(
    s: Seq<(Person, UserPermission)>,
    pred: spec_fn((Person, UserPermission)) -> bool,
)
    requires
        entries_wf(s),
    ensures
        entries_wf(s.filter(pred)),
        s.filter(pred).len() <= s.len(),
    decreases s.len(),
{
    broadcast use group_seq_properties;

    reveal(Seq::filter);
    let out = s.filter(pred);
    if s.len() > 0 {
        let rest = s.drop_last();
        assert(entries_wf(rest)) by {
            assert(forall|i: int| 0 <= i < rest.len() ==> rest[i] == s[i]);
        }
        lemma_filter_entries_wf(rest, pred);
        if pred(s.last()) {
            assert(out == rest.filter(pred).push(s.last()));
            assert forall|k: int| 0 <= k < rest.filter(pred).len() implies !same_db_id(
                rest.filter(pred)[k].0.spec_db_id(),
                s.last().0.spec_db_id(),
            ) by {
                let e = rest.filter(pred)[k];
                assert(rest.filter(pred).contains(e));
                rest.lemma_filter_contains_rev(pred, e);
                let i = choose|i: int| 0 <= i < rest.len() && rest[i] == e;
                assert(!same_db_id(s[i].0.spec_db_id(), s[s.len() - 1].0.spec_db_id()));
            }
        }
    }
}

/// Every element of a filtered sequence is an element of the source.
pub proof fn lemma_filter_element_source<A>(s: Seq<A>, pred: spec_fn(A) -> bool, k: int)
    requires
        0 <= k < s.filter(pred).len(),
    ensures
        exists|i: int| 0 <= i < s.len() && s[i] == s.filter(pred)[k],
        pred(s.filter(pred)[k]),
    decreases s.len(),
{
    broadcast use group_seq_properties;

    s.lemma_filter_pred(pred, k);
    let e = s.filter(pred)[k];
    assert(s.filter(pred).contains(e));
    s.lemma_filter_contains_rev(pred, e);
}

/// A filter whose predicate holds of every element keeps the sequence.
pub proof fn lemma_filter_all_true<A>(s: Seq<A>, pred: spec_fn(A) -> bool)
    requires
        forall|i: int| 0 <= i < s.len() ==> pred(#[trigger] s[i]),
    ensures
        s.filter(pred) == s,
    decreases s.len(),
{
    reveal(Seq::filter);
    if s.len() > 0 {
        let rest = s.drop_last();
        assert(forall|i: int| 0 <= i < rest.len() ==> pred(#[trigger] rest[i])) by {
            assert(forall|i: int| 0 <= i < rest.len() ==> rest[i] == s[i]);
        }
        lemma_filter_all_true(rest, pred);
        assert(s.filter(pred) =~= s);
    } else {
        assert(s.filter(pred) =~= s);
    }
}

/// A filter whose predicate holds of no element keeps nothing.
pub proof fn lemma_filter_all_false<A>(s: Seq<A>, pred: spec_fn(A) -> bool)
    requires
        forall|i: int| 0 <= i < s.len() ==> !pred(#[trigger] s[i]),
    ensures
        s.filter(pred) == Seq::<A>::empty(),
    decreases s.len(),
{
    reveal(Seq::filter);
    if s.len() > 0 {
        let rest = s.drop_last();
        assert(forall|i: int| 0 <= i < rest.len() ==> !pred(#[trigger] rest[i])) by {
            assert(forall|i: int| 0 <= i < rest.len() ==> rest[i] == s[i]);
        }
        lemma_filter_all_false(rest, pred);
        assert(s.filter(pred) =~= Seq::<A>::empty());
    } else {
        assert(s.filter(pred) =~= Seq::<A>::empty());
    }
}

/// Whether some person of `s` carries the given name.
pub open spec fn seq_has_person_named(s: Seq<Person>, name: Seq<char>) -> bool {
    exists|i: int| 0 <= i < s.len() && (#[trigger] s[i]).name@ == name
}

/// The person of `s` carrying the given name.
pub open spec fn seq_person_named(s: Seq<Person>, name: Seq<char>) -> Person {
    s[choose|i: int| 0 <= i < s.len() && (#[trigger] s[i]).name@ == name]
}

/// In a sequence of persons with pairwise distinct names, the entry at `i`
/// is the one the name lookup resolves to.
pub proof fn lemma_seq_person_named_lookup(s: Seq<Person>, i: int, name: Seq<char>)
    requires
        forall|a: int, b: int| 0 <= a < b < s.len() ==> s[a].name@ != s[b].name@,
        0 <= i < s.len(),
        s[i].name@ == name,
    ensures
        seq_has_person_named(s, name),
        seq_person_named(s, name) == s[i],
{
    assert(seq_has_person_named(s, name));
    let k = choose|k: int| 0 <= k < s.len() && (#[trigger] s[k]).name@ == name;
    if k < i {
        assert(s[k].name@ != s[i].name@);
        assert(false);
    } else if i < k {
        assert(s[i].name@ != s[k].name@);
        assert(false);
    }
}

/// A stored person with the identifying fields kept and the
/// directory-derived data taken from the desired entry.
pub open spec fn spec_refresh(p: Person, u: Person) -> Person {
    Person {
        person_id: p.person_id,
        name: p.name,
        global_permission: u.global_permission,
        surname: u.surname,
        firstname: u.firstname,
    }
}

/// The stored persons that survive a directory sync: those whose name the
/// directory still lists, their data refreshed, their ids and order kept.
pub open spec fn spec_survivors(persons: Seq<Person>, users: Seq<Person>) -> Seq<Person>
    decreases persons.len(),
{
    if persons.len() == 0 {
        Seq::empty()
    } else {
        let rest = spec_survivors(persons.drop_last(), users);
        let p = persons.last();
        if seq_has_person_named(users, p.name@) {
            rest.push(spec_refresh(p, seq_person_named(users, p.name@)))
        } else {
            rest
        }
    }
}

/// The directory entries that a sync must insert: those whose name no
/// stored person carries.
pub open spec fn spec_newcomers(users: Seq<Person>, persons: Seq<Person>) -> Seq<Person> {
    users.filter(|u: Person| !seq_has_person_named(persons, u.name@))
}

/// The survivors of a well-formed person table keep its invariants, and
/// each survivor keeps the id and name of the row it came from.
pub proof fn lemma_survivors_wf(persons: Seq<Person>, users: Seq<Person>, bound: i32)
    requires
        forall|i: int| 0 <= i < persons.len() ==> (#[trigger] persons[i]).person_id is StoreOnly,
        forall|i: int| 0 <= i < persons.len() ==> id_below((#[trigger] persons[i]).spec_db_id(), bound),
        forall|a: int, b: int|
            0 <= a < b < persons.len() ==> !same_db_id(
                persons[a].spec_db_id(),
                persons[b].spec_db_id(),
            ),
        forall|a: int, b: int| 0 <= a < b < persons.len() ==> persons[a].name@ != persons[b].name@,
    ensures
        spec_survivors(persons, users).len() <= persons.len(),
        forall|k: int|
            0 <= k < spec_survivors(persons, users).len() ==> exists|i: int|
                0 <= i < persons.len() && (#[trigger] spec_survivors(persons, users)[k]).person_id
                    == persons[i].person_id && spec_survivors(persons, users)[k].name
                    == persons[i].name,
        forall|k: int|
            0 <= k < spec_survivors(persons, users).len() ==> (#[trigger] spec_survivors(
                persons,
                users,
            )[k]).person_id is StoreOnly,
        forall|k: int|
            0 <= k < spec_survivors(persons, users).len() ==> id_below(
                (#[trigger] spec_survivors(persons, users)[k]).spec_db_id(),
                bound,
            ),
        forall|a: int, b: int|
            0 <= a < b < spec_survivors(persons, users).len() ==> !same_db_id(
                spec_survivors(persons, users)[a].spec_db_id(),
                spec_survivors(persons, users)[b].spec_db_id(),
            ),
        forall|a: int, b: int|
            0 <= a < b < spec_survivors(persons, users).len() ==> spec_survivors(
                persons,
                users,
            )[a].name@ != spec_survivors(persons, users)[b].name@,
    decreases persons.len(),
{
    if persons.len() > 0 {
        let rest = persons.drop_last();
        let out = spec_survivors(persons, users);
        let prev = spec_survivors(rest, users);
        assert(forall|i: int| 0 <= i < rest.len() ==> rest[i] == persons[i]);
        lemma_survivors_wf(rest, users, bound);
        let p = persons.last();
        if seq_has_person_named(users, p.name@) {
            assert(out == prev.push(spec_refresh(p, seq_person_named(users, p.name@))));
            assert(out.last().person_id == p.person_id);
            assert(out.last().name == p.name);
            assert forall|k: int| 0 <= k < prev.len() implies !same_db_id(
                prev[k].spec_db_id(),
                p.spec_db_id(),
            ) && prev[k].name@ != p.name@ by {
                let i = choose|i: int|
                    0 <= i < rest.len() && (#[trigger] prev[k]).person_id == rest[i].person_id
                        && prev[k].name == rest[i].name;
                assert(!same_db_id(persons[i].spec_db_id(), persons[persons.len() - 1].spec_db_id()));
                assert(persons[i].name@ != persons[persons.len() - 1].name@);
            }
        }
    }
}

/// Every survivor name is also a stored name, and every stored name that
/// the directory still lists has a survivor.
pub proof fn lemma_survivors_contain(persons: Seq<Person>, users: Seq<Person>, i: int)
    requires
        0 <= i < persons.len(),
        seq_has_person_named(users, persons[i].name@),
    ensures
        seq_has_person_named(spec_survivors(persons, users), persons[i].name@),
    decreases persons.len(),
{
    if persons.len() > 0 {
        let rest = persons.drop_last();
        let out = spec_survivors(persons, users);
        let prev = spec_survivors(rest, users);
        if i == persons.len() - 1 {
            assert(out.last().name == persons[i].name);
            assert(out[out.len() - 1].name@ == persons[i].name@);
        } else {
            assert(rest[i] == persons[i]);
            lemma_survivors_contain(rest, users, i);
            let k = choose|k: int|
                0 <= k < prev.len() && (#[trigger] prev[k]).name@ == persons[i].name@;
            assert(out[k].name@ == persons[i].name@);
        }
    }
}

/// The parts of a store that a membership write never touches.
pub open spec fn persons_part_unchanged(a: Store, b: Store) -> bool {
    &&& b.persons@ == a.persons@
    &&& b.next_person_id == a.next_person_id
    &&& b.next_project_id == a.next_project_id
    &&& b.reachable == a.reachable
}

/// All project rows other than the one at `j` are untouched.
pub open spec fn projects_updated_at(before: Seq<Project>, after: Seq<Project>, j: int) -> bool {
    &&& after.len() == before.len()
    &&& forall|k: int| 0 <= k < before.len() && k != j ==> after[k] == before[k]
}

/// The row at `j` keeps its identity and name and carries the given members.
pub open spec fn row_with_members(
    before: Project,
    after: Project,
    members: Seq<(Person, UserPermission)>,
) -> bool {
    &&& after.project_id == before.project_id
    &&& after.name == before.name
    &&& after.members@ == members
}

/// Two projects with equal rows: identical but for sharing of the member
/// vector.
pub open spec fn same_project(a: Project, b: Project) -> bool {
    &&& a.project_id == b.project_id
    &&& a.name == b.name
    &&& a.members@ == b.members@
}

/// Index of some person of the list carrying the given name.
fn find_person_by_name(list: &Vec<Person>, name: &String) -> (r: Option<usize>)
    ensures
        match r {
            Some(k) => k < list@.len() && list@[k as int].name@ == name@,
            None => forall|j: int| 0 <= j < list@.len() ==> (#[trigger] list@[j]).name@ != name@,
        },
{
    let mut i: usize = 0;
    while i < list.len()
        invariant
            0 <= i <= list@.len(),
            forall|j: int| 0 <= j < i ==> (#[trigger] list@[j]).name@ != name@,
        decreases list@.len() - i,
    {
        if list[i].name == *name {
            return Some(i);
        }
        i += 1;
    }
    None
}

/// Whether some person of the list carries the given store id.
pub fn person_in_list(list: &Vec<Person>, id: Option<i32>) -> (r: bool)
    ensures
        r == seq_has_person_id(list@, id),
{
    let mut i: usize = 0;
    while i < list.len()
        invariant
            0 <= i <= list@.len(),
            forall|j: int| 0 <= j < i ==> !same_db_id((#[trigger] list@[j]).spec_db_id(), id),
        decreases list@.len() - i,
    {
        if ids_match(list[i].db_id(), id) {
            return true;
        }
        i += 1;
    }
    false
}

/// Whether some member entry of the list carries the given store id.
pub fn member_in_entries(list: &Vec<(Person, UserPermission)>, id: Option<i32>) -> (r: bool)
    ensures
        r == seq_has_member_id(list@, id),
{
    let mut i: usize = 0;
    while i < list.len()
        invariant
            0 <= i <= list@.len(),
            forall|j: int| 0 <= j < i ==> !same_db_id((#[trigger] list@[j]).0.spec_db_id(), id),
        decreases list@.len() - i,
    {
        if ids_match(list[i].0.db_id(), id) {
            return true;
        }
        i += 1;
    }
    false
}

impl Store {
    /// Delete the listed persons' member entries from the project's rows,
    /// answering how many entries went away.  A missing project simply has
    /// no rows to delete.
    pub fn remove_members(&mut self, project_id: i32, members_to_remove: &Vec<Person>) -> (r:
        Result<usize, StoreFault>)
        requires
            old(self).wf(),
        ensures
            final(self).wf(),
            !old(self).reachable ==> r == Result::<usize, StoreFault>::Err(StoreFault::Unreachable)
                && *final(self) == *old(self),
            old(self).reachable ==> match r {
                Ok(n) => {
                    &&& persons_part_unchanged(*old(self), *final(self))
                    &&& if old(self).spec_has_project(project_id) {
                        let j = old(self).spec_project_index(project_id);
                        let p0 = old(self).projects@[j];
                        let kept = spec_without(p0.members@, members_to_remove@);
                        &&& projects_updated_at(old(self).projects@, final(self).projects@, j)
                        &&& row_with_members(p0, final(self).projects@[j], kept)
                        &&& n == p0.members@.len() - kept.len()
                    } else {
                        &&& final(self).projects@ == old(self).projects@
                        &&& n == 0
                    }
                },
                Err(_) => false,
            },
    {
        if !self.reachable {
            return Err(StoreFault::Unreachable);
        }
        let j = match self.find_project(project_id) {
            None => {
                return Ok(0);
            },
            Some(j) => j,
        };
        let ghost p0 = self.projects@[j as int];
        let ghost pred = |e: (Person, UserPermission)|
            !seq_has_person_id(members_to_remove@, e.0.spec_db_id());
        let n_before = self.projects[j].members.len();
        let mut kept: Vec<(Person, UserPermission)> = Vec::new();
        let mut i: usize = 0;
        while i < self.projects[j].members.len()
            invariant
                *self == *old(self),
                self.wf(),
                j < self.projects@.len(),
                p0 == self.projects@[j as int],
                pred == (|e: (Person, UserPermission)|
                    !seq_has_person_id(members_to_remove@, e.0.spec_db_id())),
                0 <= i <= p0.members@.len(),
                kept@ == p0.members@.take(i as int).filter(pred),
                kept@.len() <= i,
            decreases p0.members@.len() - i,
        {
            proof {
                broadcast use group_seq_properties;

                assert(p0.members@.take(i as int).push(p0.members@[i as int]) =~= p0.members@.take(
                    i as int + 1,
                ));
                p0.members@.take(i as int).lemma_filter_push(p0.members@[i as int], pred);
            }
            let entry = &self.projects[j].members[i];
            if !person_in_list(members_to_remove, entry.0.db_id()) {
                kept.push((entry.0.duplicate(), entry.1));
            }
            i += 1;
        }
        proof {
            assert(p0.members@.take(p0.members@.len() as int) =~= p0.members@);
        }
        let n_after = kept.len();
        self.projects[j].members = kept;
        proof {
            lemma_filter_entries_wf(p0.members@, pred);
            assert(entries_wf(p0.members@)) by {
                assert(p0.wf());
            }
            assert(self.projects@[j as int].wf());
            lemma_project_lookup(*old(self), j as int, project_id);
        }
        Ok(n_before - n_after)
    }

    /// Insert member rows for the listed persons with their permissions.
    /// The callers guarantee what the row keys guarantee in the store: each
    /// person persisted, no duplicates, none already a member.
    pub fn add_members(
        &mut self,
        project_id: i32,
        members_to_add: &Vec<(Person, UserPermission)>,
    ) -> (r: Result<(), StoreFault>)
        requires
            old(self).wf(),
            entries_wf(members_to_add@),
            forall|i: int|
                0 <= i < members_to_add@.len() ==> old(self).spec_has_project(project_id)
                    ==> !seq_has_member_id(
                    old(self).spec_project(project_id).members@,
                    (#[trigger] members_to_add@[i]).0.spec_db_id(),
                ),
        ensures
            final(self).wf(),
            !old(self).reachable ==> r == Result::<(), StoreFault>::Err(StoreFault::Unreachable)
                && *final(self) == *old(self),
            old(self).reachable && !old(self).spec_has_project(project_id) ==> r == Result::<
                (),
                StoreFault,
            >::Err(StoreFault::MissingRow) && *final(self) == *old(self),
            old(self).reachable && old(self).spec_has_project(project_id) ==> match r {
                Ok(_) => {
                    &&& persons_part_unchanged(*old(self), *final(self))
                    &&& projects_updated_at(
                        old(self).projects@,
                        final(self).projects@,
                        old(self).spec_project_index(project_id),
                    )
                    &&& row_with_members(
                        old(self).spec_project(project_id),
                        final(self).projects@[old(self).spec_project_index(project_id)],
                        old(self).spec_project(project_id).members@ + members_to_add@,
                    )
                },
                Err(_) => false,
            },
    {
        if !self.reachable {
            return Err(StoreFault::Unreachable);
        }
        let j = match self.find_project(project_id) {
            None => {
                return Err(StoreFault::MissingRow);
            },
            Some(j) => j,
        };
        let ghost p0 = self.projects@[j as int];
        let mut i: usize = 0;
        while i < members_to_add.len()
            invariant
                old(self).wf(),
                entries_wf(members_to_add@),
                forall|k: int|
                    0 <= k < members_to_add@.len() ==> !seq_has_member_id(
                        p0.members@,
                        (#[trigger] members_to_add@[k]).0.spec_db_id(),
                    ),
                self.reachable == old(self).reachable,
                self.persons@ == old(self).persons@,
                self.next_person_id == old(self).next_person_id,
                self.next_project_id == old(self).next_project_id,
                j < self.projects@.len(),
                old(self).projects@.len() == self.projects@.len(),
                p0 == old(self).projects@[j as int],
                forall|k: int|
                    0 <= k < self.projects@.len() && k != j ==> self.projects@[k] == old(
                        self,
                    ).projects@[k],
                0 <= i <= members_to_add@.len(),
                self.projects@[j as int].project_id == p0.project_id,
                self.projects@[j as int].name == p0.name,
                self.projects@[j as int].members@ == p0.members@ + members_to_add@.take(i as int),
                self.wf(),
            decreases members_to_add@.len() - i,
        {
            let entry = &members_to_add[i];
            let person = entry.0.duplicate();
            let perm = entry.1;
            proof {
                assert(!seq_has_member_id(p0.members@, person.spec_db_id()));
                assert(!seq_has_member_id(
                    members_to_add@.take(i as int),
                    members_to_add@[i as int].0.spec_db_id(),
                )) by {
                    assert(forall|k: int|
                        0 <= k < i ==> members_to_add@.take(i as int)[k] == members_to_add@[k]);
                }
                assert(!self.projects@[j as int].spec_has_member(person.spec_db_id())) by {
                    assert forall|k: int|
                        0 <= k < self.projects@[j as int].members@.len() implies !same_db_id(
                        (#[trigger] self.projects@[j as int].members@[k]).0.spec_db_id(),
                        person.spec_db_id(),
                    ) by {
                        if k < p0.members@.len() {
                            assert(self.projects@[j as int].members@[k] == p0.members@[k]);
                        } else {
                            assert(self.projects@[j as int].members@[k] == members_to_add@.take(
                                i as int,
                            )[k - p0.members@.len()]);
                        }
                    }
                }
            }
            let target = &mut self.projects[j];
            target.add_member(person, perm);
            proof {
                assert(self.projects@[j as int].members@ =~= p0.members@ + members_to_add@.take(
                    i as int + 1,
                ));
            }
            i += 1;
        }
        proof {
            assert(members_to_add@.take(members_to_add@.len() as int) =~= members_to_add@);
            lemma_project_lookup(*old(self), j as int, project_id);
        }
        Ok(())
    }

    /// Overwrite the members of the project identified by `desired` so they
    /// match `desired`'s list: stale entries are deleted, new ones inserted.
    /// Entries that stay keep their stored permission; the diff is keyed by
    /// person identity.
    pub fn update_project_members(&mut self, desired: &Project) -> (r: Result<(), StoreFault>)
        requires
            old(self).wf(),
            desired.wf(),
            desired.spec_db_id() is Some,
        ensures
            final(self).wf(),
            !old(self).reachable ==> r == Result::<(), StoreFault>::Err(StoreFault::Unreachable)
                && *final(self) == *old(self),
            old(self).reachable && !old(self).spec_has_project(desired.spec_db_id()->0) ==> r
                == Result::<(), StoreFault>::Err(StoreFault::MissingRow) && *final(self) == *old(
                self,
            ),
            old(self).reachable && old(self).spec_has_project(desired.spec_db_id()->0) ==> match r {
                Ok(_) => {
                    let id = desired.spec_db_id()->0;
                    let j = old(self).spec_project_index(id);
                    let p0 = old(self).projects@[j];
                    &&& persons_part_unchanged(*old(self), *final(self))
                    &&& projects_updated_at(old(self).projects@, final(self).projects@, j)
                    &&& row_with_members(
                        p0,
                        final(self).projects@[j],
                        spec_kept(p0.members@, desired.members@) + spec_added(
                            desired.members@,
                            p0.members@,
                        ),
                    )
                },
                Err(_) => false,
            },
    {
        if !self.reachable {
            return Err(StoreFault::Unreachable);
        }
        let id = match desired.db_id() {
            Some(x) => x,
            None => {
                return Err(StoreFault::MissingRow);
            },
        };
        let j = match self.find_project(id) {
            None => {
                return Err(StoreFault::MissingRow);
            },
            Some(j) => j,
        };
        let ghost p0 = self.projects@[j as int];
        let ghost kept_pred = |e: (Person, UserPermission)|
            seq_has_member_id(desired.members@, e.0.spec_db_id());
        let ghost added_pred = |e: (Person, UserPermission)|
            !seq_has_member_id(p0.members@, e.0.spec_db_id());

        // Keep the stored entries whose person is still desired.
        let mut next: Vec<(Person, UserPermission)> = Vec::new();
        let mut i: usize = 0;
        while i < self.projects[j].members.len()
            invariant
                *self == *old(self),
                self.wf(),
                j < self.projects@.len(),
                p0 == self.projects@[j as int],
                kept_pred == (|e: (Person, UserPermission)|
                    seq_has_member_id(desired.members@, e.0.spec_db_id())),
                0 <= i <= p0.members@.len(),
                next@ == p0.members@.take(i as int).filter(kept_pred),
            decreases p0.members@.len() - i,
        {
            proof {
                broadcast use group_seq_properties;

                assert(p0.members@.take(i as int).push(p0.members@[i as int]) =~= p0.members@.take(
                    i as int + 1,
                ));
                p0.members@.take(i as int).lemma_filter_push(p0.members@[i as int], kept_pred);
            }
            let entry = &self.projects[j].members[i];
            if member_in_entries(&desired.members, entry.0.db_id()) {
                next.push((entry.0.duplicate(), entry.1));
            }
            i += 1;
        }
        proof {
            assert(p0.members@.take(p0.members@.len() as int) =~= p0.members@);
        }

        // Insert the desired entries whose person is new, permission and all.
        let ghost kept = spec_kept(p0.members@, desired.members@);
        let mut i: usize = 0;
        while i < desired.members.len()
            invariant
                *self == *old(self),
                self.wf(),
                j < self.projects@.len(),
                p0 == self.projects@[j as int],
                added_pred == (|e: (Person, UserPermission)|
                    !seq_has_member_id(p0.members@, e.0.spec_db_id())),
                0 <= i <= desired.members@.len(),
                next@ == kept + desired.members@.take(i as int).filter(added_pred),
            decreases desired.members@.len() - i,
        {
            proof {
                broadcast use group_seq_properties;

                assert(desired.members@.take(i as int).push(desired.members@[i as int])
                    =~= desired.members@.take(i as int + 1));
                desired.members@.take(i as int).lemma_filter_push(
                    desired.members@[i as int],
                    added_pred,
                );
            }
            let entry = &desired.members[i];
            if !member_in_entries(&self.projects[j].members, entry.0.db_id()) {
                next.push((entry.0.duplicate(), entry.1));
            }
            i += 1;
        }
        proof {
            assert(desired.members@.take(desired.members@.len() as int) =~= desired.members@);
        }

        self.projects[j].members = next;
        proof {
            let added = spec_added(desired.members@, p0.members@);
            lemma_filter_entries_wf(p0.members@, kept_pred);
            lemma_filter_entries_wf(desired.members@, added_pred);
            assert(entries_wf(p0.members@)) by {
                assert(p0.wf());
            }
            assert(entries_wf(desired.members@));
            assert forall|a: int, b: int|
                0 <= a < kept.len() && 0 <= b < added.len() implies !same_db_id(
                kept[a].0.spec_db_id(),
                added[b].0.spec_db_id(),
            ) by {
                lemma_filter_element_source(p0.members@, kept_pred, a);
                lemma_filter_element_source(desired.members@, added_pred, b);
                let ka = choose|i: int| 0 <= i < p0.members@.len() && p0.members@[i] == kept[a];
                assert(same_db_id(p0.members@[ka].0.spec_db_id(), p0.members@[ka].0.spec_db_id()));
            }
            assert(self.projects@[j as int].wf()) by {
                assert(entries_wf(kept));
                assert(entries_wf(added));
                assert forall|a: int, b: int|
                    0 <= a < b < (kept + added).len() implies !same_db_id(
                    (kept + added)[a].0.spec_db_id(),
                    (kept + added)[b].0.spec_db_id(),
                ) by {
                    if a < kept.len() && b >= kept.len() {
                        assert((kept + added)[a] == kept[a]);
                        assert((kept + added)[b] == added[b - kept.len()]);
                    }
                }
            }
            lemma_project_lookup(*old(self), j as int, id);
        }
        Ok(())
    }

    /// Overwrite the stored permission of one member of one project.  As
    /// with any update keyed on rows, matching nothing changes nothing and
    /// still succeeds.
    pub fn update_member_permission(
        &mut self,
        project_id: i32,
        person_id: i32,
        new_permission: UserPermission,
    ) -> (r: Result<(), StoreFault>)
        requires
            old(self).wf(),
        ensures
            final(self).wf(),
            !old(self).reachable ==> r == Result::<(), StoreFault>::Err(StoreFault::Unreachable)
                && *final(self) == *old(self),
            old(self).reachable ==> match r {
                Ok(_) => {
                    &&& persons_part_unchanged(*old(self), *final(self))
                    &&& if old(self).spec_has_project(project_id) {
                        let j = old(self).spec_project_index(project_id);
                        let p0 = old(self).projects@[j];
                        &&& projects_updated_at(old(self).projects@, final(self).projects@, j)
                        &&& row_with_members(
                            p0,
                            final(self).projects@[j],
                            spec_with_permission(p0.members@, person_id, new_permission),
                        )
                    } else {
                        final(self).projects@ == old(self).projects@
                    }
                },
                Err(_) => false,
            },
    {
        if !self.reachable {
            return Err(StoreFault::Unreachable);
        }
        let j = match self.find_project(project_id) {
            None => {
                return Ok(());
            },
            Some(j) => j,
        };
        let ghost p0 = self.projects@[j as int];
        let mut next: Vec<(Person, UserPermission)> = Vec::new();
        let mut i: usize = 0;
        while i < self.projects[j].members.len()
            invariant
                *self == *old(self),
                self.wf(),
                j < self.projects@.len(),
                p0 == self.projects@[j as int],
                0 <= i <= p0.members@.len(),
                next@.len() == i,
                forall|k: int|
                    0 <= k < i ==> next@[k] == (if same_db_id(
                        (#[trigger] p0.members@[k]).0.spec_db_id(),
                        Some(person_id),
                    ) {
                        (p0.members@[k].0, new_permission)
                    } else {
                        p0.members@[k]
                    }),
            decreases p0.members@.len() - i,
        {
            let entry = &self.projects[j].members[i];
            if ids_match(entry.0.db_id(), Some(person_id)) {
                next.push((entry.0.duplicate(), new_permission));
            } else {
                next.push((entry.0.duplicate(), entry.1));
            }
            i += 1;
        }
        self.projects[j].members = next;
        proof {
            assert(self.projects@[j as int].members@ =~= spec_with_permission(
                p0.members@,
                person_id,
                new_permission,
            ));
            assert(self.projects@[j as int].wf()) by {
                assert(p0.wf());
                assert(forall|k: int|
                    0 <= k < p0.members@.len() ==> (#[trigger] self.projects@[j as int].members@[k]).0
                        == p0.members@[k].0);
            }
            lemma_project_lookup(*old(self), j as int, project_id);
        }
        Ok(())
    }

    /// Change the stored name of a project.  Matching no row changes
    /// nothing and still succeeds.
    pub fn rename_project_in_tx(&mut self, project_id: i32, new_name: String) -> (r: Result<
        (),
        StoreFault,
    >)
        requires
            old(self).wf(),
        ensures
            final(self).wf(),
            !old(self).reachable ==> r == Result::<(), StoreFault>::Err(StoreFault::Unreachable)
                && *final(self) == *old(self),
            old(self).reachable ==> match r {
                Ok(_) => {
                    &&& persons_part_unchanged(*old(self), *final(self))
                    &&& if old(self).spec_has_project(project_id) {
                        let j = old(self).spec_project_index(project_id);
                        let p0 = old(self).projects@[j];
                        &&& projects_updated_at(old(self).projects@, final(self).projects@, j)
                        &&& final(self).projects@[j].project_id == p0.project_id
                        &&& final(self).projects@[j].name == new_name
                        &&& final(self).projects@[j].members@ == p0.members@
                    } else {
                        final(self).projects@ == old(self).projects@
                    }
                },
                Err(_) => false,
            },
    {
        if !self.reachable {
            return Err(StoreFault::Unreachable);
        }
        let j = match self.find_project(project_id) {
            None => {
                return Ok(());
            },
            Some(j) => j,
        };
        self.projects[j].name = new_name;
        proof {
            lemma_project_lookup(*old(self), j as int, project_id);
        }
        Ok(())
    }

    /// Reconcile the person table with the directory's view, so that
    /// exactly the listed users exist afterwards.  A stored person the
    /// directory no longer lists is deleted; one it still lists keeps
    /// their id and gets their data refreshed; one the store does not know
    /// yet is inserted with a fresh id.  Permissions here are global, not
    /// project-scoped, and member entries already loaded elsewhere are
    /// snapshots that this write does not touch.
    pub fn update_users(&mut self, users: Vec<Person>) -> (r: Result<(), StoreFault>)
        requires
            old(self).wf(),
            forall|i: int| 0 <= i < users@.len() ==> (#[trigger] users@[i]).person_id is Unprovisioned,
            forall|a: int, b: int| 0 <= a < b < users@.len() ==> users@[a].name@ != users@[b].name@,
            old(self).next_person_id + users@.len() <= i32::MAX,
        ensures
            final(self).wf(),
            !old(self).reachable ==> r == Result::<(), StoreFault>::Err(StoreFault::Unreachable)
                && *final(self) == *old(self),
            old(self).reachable ==> r is Ok && ({
                let survivors = spec_survivors(old(self).persons@, users@);
                let fresh = spec_newcomers(users@, old(self).persons@);
                &&& final(self).persons@.len() == survivors.len() + fresh.len()
                &&& final(self).persons@.subrange(0, survivors.len() as int) == survivors
                &&& forall|k: int|
                    0 <= k < fresh.len() ==> #[trigger] final(self).persons@[survivors.len() + k]
                        == (Person {
                        person_id: IdentityState::StoreOnly(
                            DbNoMatrix { db_id: (old(self).next_person_id + k) as i32 },
                        ),
                        ..fresh[k]
                    })
                &&& final(self).next_person_id == old(self).next_person_id + fresh.len()
                &&& final(self).projects@ == old(self).projects@
                &&& final(self).next_project_id == old(self).next_project_id
                &&& final(self).reachable
            }),
    {
        if !self.reachable {
            return Err(StoreFault::Unreachable);
        }
        let ghost persons0 = self.persons@;

        // First pass: keep and refresh the persons the directory still
        // lists; the others are dropped, which deletes them.
        let mut next: Vec<Person> = Vec::new();
        let mut i: usize = 0;
        while i < self.persons.len()
            invariant
                *self == *old(self),
                self.wf(),
                self.reachable,
                persons0 == self.persons@,
                forall|a: int, b: int|
                    0 <= a < b < users@.len() ==> users@[a].name@ != users@[b].name@,
                0 <= i <= persons0.len(),
                next@ == spec_survivors(persons0.take(i as int), users@),
            decreases persons0.len() - i,
        {
            proof {
                assert(persons0.take(i as int + 1).drop_last() =~= persons0.take(i as int));
                assert(persons0.take(i as int + 1).last() == persons0[i as int]);
            }
            let p = &self.persons[i];
            match find_person_by_name(&users, &p.name) {
                Some(k) => {
                    proof {
                        lemma_seq_person_named_lookup(users@, k as int, p.name@);
                    }
                    let refreshed = Person {
                        person_id: p.person_id.duplicate(),
                        name: p.name.clone(),
                        global_permission: users[k].global_permission,
                        surname: match &users[k].surname {
                            Some(s) => Some(s.clone()),
                            None => None,
                        },
                        firstname: match &users[k].firstname {
                            Some(s) => Some(s.clone()),
                            None => None,
                        },
                    };
                    next.push(refreshed);
                },
                None => {
                    proof {
                        assert(!seq_has_person_named(users@, persons0[i as int].name@));
                    }
                },
            }
            i += 1;
        }
        proof {
            assert(persons0.take(persons0.len() as int) =~= persons0);
        }
        self.persons = next;
        proof {
            lemma_survivors_wf(persons0, users@, old(self).next_person_id);
        }

        // Second pass: insert the directory entries whose name no stored
        // person carried; the store mints their ids.
        let ghost newcomer_pred = |u: Person| !seq_has_person_named(persons0, u.name@);
        let ghost survivors = spec_survivors(persons0, users@);
        let mut i: usize = 0;
        while i < users.len()
            invariant
                old(self).wf(),
                forall|j: int|
                    0 <= j < users@.len() ==> (#[trigger] users@[j]).person_id is Unprovisioned,
                forall|a: int, b: int|
                    0 <= a < b < users@.len() ==> users@[a].name@ != users@[b].name@,
                old(self).next_person_id + users@.len() <= i32::MAX,
                persons0 == old(self).persons@,
                survivors == spec_survivors(persons0, users@),
                newcomer_pred == (|u: Person| !seq_has_person_named(persons0, u.name@)),
                0 <= i <= users@.len(),
                users@.take(i as int).filter(newcomer_pred).len() <= i,
                self.persons@.len() == survivors.len() + users@.take(i as int).filter(
                    newcomer_pred,
                ).len(),
                self.persons@.subrange(0, survivors.len() as int) == survivors,
                forall|k: int|
                    0 <= k < users@.take(i as int).filter(newcomer_pred).len()
                        ==> #[trigger] self.persons@[survivors.len() + k] == (Person {
                        person_id: IdentityState::StoreOnly(
                            DbNoMatrix { db_id: (old(self).next_person_id + k) as i32 },
                        ),
                        ..users@.take(i as int).filter(newcomer_pred)[k]
                    }),
                self.next_person_id == old(self).next_person_id + users@.take(i as int).filter(
                    newcomer_pred,
                ).len(),
                self.wf(),
                self.projects@ == old(self).projects@,
                self.next_project_id == old(self).next_project_id,
                self.reachable,
            decreases users@.len() - i,
        {
            proof {
                broadcast use group_seq_properties;

                assert(users@.take(i as int).push(users@[i as int]) =~= users@.take(i as int + 1));
                users@.take(i as int).lemma_filter_push(users@[i as int], newcomer_pred);
            }
            let u = &users[i];
            match find_person_by_name(&self.persons, &u.name) {
                Some(k) => {
                    proof {
                        if k >= survivors.len() {
                            let m = k - survivors.len();
                            lemma_filter_element_source(
                                users@.take(i as int),
                                newcomer_pred,
                                m as int,
                            );
                            let e = users@.take(i as int).filter(newcomer_pred)[m as int];
                            let j = choose|j: int|
                                0 <= j < users@.take(i as int).len() && users@.take(i as int)[j]
                                    == e;
                            assert(users@[j] == e);
                            assert(self.persons@[survivors.len() + m as int] == (Person {
                                person_id: IdentityState::StoreOnly(
                                    DbNoMatrix {
                                        db_id: (old(self).next_person_id + m as int) as i32,
                                    },
                                ),
                                ..e
                            }));
                            assert(self.persons@[k as int].name == e.name);
                            assert(users@[j].name@ != users@[i as int].name@);
                            assert(false);
                        } else {
                            lemma_survivors_wf(persons0, users@, old(self).next_person_id);
                            assert(self.persons@[k as int] == survivors[k as int]);
                            let s = choose|s: int|
                                0 <= s < persons0.len() && (#[trigger] survivors[k as int]).person_id
                                    == persons0[s].person_id && survivors[k as int].name
                                    == persons0[s].name;
                            assert(persons0[s].name@ == u.name@);
                            assert(seq_has_person_named(persons0, users@[i as int].name@));
                            assert(!newcomer_pred(users@[i as int]));
                        }
                    }
                },
                None => {
                    proof {
                        if seq_has_person_named(persons0, users@[i as int].name@) {
                            let s = choose|s: int|
                                0 <= s < persons0.len() && (#[trigger] persons0[s]).name@
                                    == users@[i as int].name@;
                            lemma_survivors_contain(persons0, users@, s);
                            let k = choose|k: int|
                                0 <= k < survivors.len() && (#[trigger] survivors[k]).name@
                                    == users@[i as int].name@;
                            assert(self.persons@[k] == survivors[k]);
                            assert(false);
                        }
                        assert(newcomer_pred(users@[i as int]));
                    }
                    let id = self.next_person_id;
                    let fresh = Person {
                        person_id: IdentityState::StoreOnly(DbNoMatrix { db_id: id }),
                        name: u.name.clone(),
                        global_permission: u.global_permission,
                        surname: match &u.surname {
                            Some(s) => Some(s.clone()),
                            None => None,
                        },
                        firstname: match &u.firstname {
                            Some(s) => Some(s.clone()),
                            None => None,
                        },
                    };
                    self.persons.push(fresh);
                    self.next_person_id = id + 1;
                    proof {
                        assert(self.persons@.subrange(0, survivors.len() as int) =~= survivors);
                        assert forall|a: int, b: int|
                            0 <= a < b < self.persons@.len() implies !same_db_id(
                            self.persons@[a].spec_db_id(),
                            self.persons@[b].spec_db_id(),
                        ) by {
                            if b < self.persons@.len() - 1 {
                                assert(old(self).wf());
                            } else {
                                assert(id_below(self.persons@[a].spec_db_id(), id));
                            }
                        }
                    }
                },
            }
            i += 1;
        }
        proof {
            assert(users@.take(users@.len() as int) =~= users@);
        }
        Ok(())
    }
}

/// In a well-formed store the project row at `i` is the one and only row for
/// its id, so the lookup resolves to it.
pub proof fn lemma_project_lookup(s: Store, i: int, id: i32)
    requires
        s.wf(),
        0 <= i < s.projects@.len(),
        same_db_id(s.projects@[i].spec_db_id(), Some(id)),
    ensures
        s.spec_has_project(id),
        s.spec_project_index(id) == i,
        s.spec_project(id) == s.projects@[i],
{
    assert(s.spec_has_project(id));
    let k = s.spec_project_index(id);
    if k < i {
        assert(!same_db_id(s.projects@[k].spec_db_id(), s.projects@[i].spec_db_id()));
        assert(false);
    } else if i < k {
        assert(!same_db_id(s.projects@[i].spec_db_id(), s.projects@[k].spec_db_id()));
        assert(false);
    }
}

/// In a well-formed store the person row at `i` is the one and only row for
/// its name, so the lookup resolves to it.
pub proof fn lemma_person_named_lookup(s: Store, i: int, name: Seq<char>)
    requires
        s.wf(),
        0 <= i < s.persons@.len(),
        s.persons@[i].name@ == name,
    ensures
        s.spec_has_person_named(name),
        s.spec_person_named_index(name) == i,
        s.spec_person_named(name) == s.persons@[i],
{
    assert(s.spec_has_person_named(name));
    let k = s.spec_person_named_index(name);
    if k < i {
        assert(s.persons@[k].name@ != s.persons@[i].name@);
        assert(false);
    } else if i < k {
        assert(s.persons@[i].name@ != s.persons@[k].name@);
        assert(false);
    }
}

} // verus!
