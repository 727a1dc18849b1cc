//! Rows of the ledger tables (time entries, pay entries, allocations) and the
//! operations they share: insert-or-update by optional id, with a unique id
//! and a unique key per row, and delete by id.
use vstd::prelude::*;
use crate::data::{
    Allocation, PayEntry, Project, SaveAllocation, SavePayEntry, SaveTimeEntry, TimeEntry,
};

verus! {

/// Why a store operation did not take effect.
#[derive(Clone, Copy, Debug, PartialEq, Eq, Structural)]
pub enum StoreError {
    /// The project or row referred to does not exist.
    NotFound,
    /// The change would break a uniqueness rule or refer to a missing project.
    Constraint,
    /// No further id can be handed out.
    Exhausted,
}

/// A row of a ledger table, with the input that saves it.
pub trait LedgerRow: Sized {
    type Input;

    /// The row's id.
    spec fn row_id(&self) -> i64;

    /// The pair that no two rows of the table may share.
    spec fn row_key(&self) -> (i64, i64);

    /// The project the row belongs to.
    spec fn row_project(&self) -> i64;

    /// The id an input names, when it updates an existing row.
    spec fn input_id(input: &Self::Input) -> Option<i64>;

    /// The project an input refers to.
    spec fn input_project(input: &Self::Input) -> i64;

    /// The row that inserting `input` creates, with id `id`, made by `uid` at `now`.
    spec fn inserted(id: i64, uid: i64, now: i64, input: Self::Input) -> Self;

    /// The row that updating `self` with `input` at `now` leaves.
    spec fn updated(&self, now: i64, input: Self::Input) -> Self;

    /// An inserted row carries the id it was given.
    proof fn lemma_inserted_id(id: i64, uid: i64, now: i64, input: Self::Input)
        ensures
            Self::inserted(id, uid, now, input).row_id() == id,
    ;

    /// An update keeps the row's id.
    proof fn lemma_updated_id(&self, now: i64, input: Self::Input)
        ensures
            self.updated(now, input).row_id() == self.row_id(),
    ;

    /// The row's id.
    fn id(&self) -> (r: i64)
        ensures
            r == self.row_id(),
    ;

    /// The row's unique pair.
    fn key(&self) -> (r: (i64, i64))
        ensures
            r == self.row_key(),
    ;

    /// The row's project.
    fn project(&self) -> (r: i64)
        ensures
            r == self.row_project(),
    ;

    /// The id an input names, if any.
    fn id_of_input(input: &Self::Input) -> (r: Option<i64>)
        ensures
            r == Self::input_id(input),
    ;

    /// The project an input refers to.
    fn project_of_input(input: &Self::Input) -> (r: i64)
        ensures
            r == Self::input_project(input),
    ;

    /// Builds the row that inserting `input` creates.
    fn make(id: i64, uid: i64, now: i64, input: Self::Input) -> (r: Self)
        ensures
            r == Self::inserted(id, uid, now, input),
    ;

    /// Builds the row that updating with `input` leaves.
    fn update(&self, now: i64, input: Self::Input) -> (r: Self)
        ensures
            r == self.updated(now, input),
    ;

    /// A copy of the row.
    fn duplicate(&self) -> (r: Self)
        ensures
            r == *self,
    ;
}

impl LedgerRow for TimeEntry {
    type Input = SaveTimeEntry;

    open spec fn row_id(&self) -> i64 {
        self.id
    }

    open spec fn row_key(&self) -> (i64, i64) {
        (self.user, self.startdate)
    }

    open spec fn row_project(&self) -> i64 {
        self.project
    }

    open spec fn input_id(input: &SaveTimeEntry) -> Option<i64> {
        input.id
    }

    open spec fn input_project(input: &SaveTimeEntry) -> i64 {
        input.project
    }

    open spec fn inserted(id: i64, uid: i64, now: i64, input: SaveTimeEntry) -> TimeEntry {
        TimeEntry {
            id,
            project: input.project,
            user: input.user,
            description: input.description,
            startdate: input.startdate,
            enddate: input.enddate,
            ignore: input.ignore,
            createdate: now,
            changeddate: now,
            creator: uid,
        }
    }

    open spec fn updated(&self, now: i64, input: SaveTimeEntry) -> TimeEntry {
        TimeEntry {
            id: self.id,
            project: input.project,
            user: input.user,
            description: input.description,
            startdate: input.startdate,
            enddate: input.enddate,
            ignore: input.ignore,
            createdate: self.createdate,
            changeddate: now,
            creator: self.creator,
        }
    }

    proof fn lemma_inserted_id(id: i64, uid: i64, now: i64, input: SaveTimeEntry) {
    }

    proof fn lemma_updated_id(&self, now: i64, input: SaveTimeEntry) {
    }

    fn id(&self) -> (r: i64) {
        self.id
    }

    fn key(&self) -> (r: (i64, i64)) {
        (self.user, self.startdate)
    }

    fn project(&self) -> (r: i64) {
        self.project
    }

    fn id_of_input(input: &SaveTimeEntry) -> (r: Option<i64>) {
        input.id
    }

    fn project_of_input(input: &SaveTimeEntry) -> (r: i64) {
        input.project
    }

    fn make(id: i64, uid: i64, now: i64, input: SaveTimeEntry) -> (r: TimeEntry) {
        TimeEntry {
            id,
            project: input.project,
            user: input.user,
            description: input.description,
            startdate: input.startdate,
            enddate: input.enddate,
            ignore: input.ignore,
            createdate: now,
            changeddate: now,
            creator: uid,
        }
    }

    fn update(&self, now: i64, input: SaveTimeEntry) -> (r: TimeEntry) {
        TimeEntry {
            id: self.id,
            project: input.project,
            user: input.user,
            description: input.description,
            startdate: input.startdate,
            enddate: input.enddate,
            ignore: input.ignore,
            createdate: self.createdate,
            changeddate: now,
            creator: self.creator,
        }
    }

    fn duplicate(&self) -> (r: TimeEntry) {
        TimeEntry {
            id: self.id,
            project: self.project,
            user: self.user,
            description: self.description.clone(),
            startdate: self.startdate,
            enddate: self.enddate,
            ignore: self.ignore,
            createdate: self.createdate,
            changeddate: self.changeddate,
            creator: self.creator,
        }
    }
}

impl LedgerRow for PayEntry {
    type Input = SavePayEntry;

    open spec fn row_id(&self) -> i64 {
        self.id
    }

    open spec fn row_key(&self) -> (i64, i64) {
        (self.user, self.paymentdate)
    }

    open spec fn row_project(&self) -> i64 {
        self.project
    }

    open spec fn input_id(input: &SavePayEntry) -> Option<i64> {
        input.id
    }

    open spec fn input_project(input: &SavePayEntry) -> i64 {
        input.project
    }

    open spec fn inserted(id: i64, uid: i64, now: i64, input: SavePayEntry) -> PayEntry {
        PayEntry {
            id,
            project: input.project,
            user: input.user,
            duration: input.duration,
            paytype: input.paytype,
            paymentdate: input.paymentdate,
            description: input.description,
            createdate: now,
            changeddate: now,
            creator: uid,
        }
    }

    open spec fn updated(&self, now: i64, input: SavePayEntry) -> PayEntry {
        PayEntry {
            id: self.id,
            project: input.project,
            user: input.user,
            duration: input.duration,
            paytype: input.paytype,
            paymentdate: input.paymentdate,
            description: input.description,
            createdate: self.createdate,
            changeddate: now,
            creator: self.creator,
        }
    }

    proof fn lemma_inserted_id(id: i64, uid: i64, now: i64, input: SavePayEntry) {
    }

    proof fn lemma_updated_id(&self, now: i64, input: SavePayEntry) {
    }

    fn id(&self) -> (r: i64) {
        self.id
    }

    fn key(&self) -> (r: (i64, i64)) {
        (self.user, self.paymentdate)
    }

    fn project(&self) -> (r: i64) {
        self.project
    }

    fn id_of_input(input: &SavePayEntry) -> (r: Option<i64>) {
        input.id
    }

    fn project_of_input(input: &SavePayEntry) -> (r: i64) {
        input.project
    }

    fn make(id: i64, uid: i64, now: i64, input: SavePayEntry) -> (r: PayEntry) {
        PayEntry {
            id,
            project: input.project,
            user: input.user,
            duration: input.duration,
            paytype: input.paytype,
            paymentdate: input.paymentdate,
            description: input.description,
            createdate: now,
            changeddate: now,
            creator: uid,
        }
    }

    fn update(&self, now: i64, input: SavePayEntry) -> (r: PayEntry) {
        PayEntry {
            id: self.id,
            project: input.project,
            user: input.user,
            duration: input.duration,
            paytype: input.paytype,
            paymentdate: input.paymentdate,
            description: input.description,
            createdate: self.createdate,
            changeddate: now,
            creator: self.creator,
        }
    }

    fn duplicate(&self) -> (r: PayEntry) {
        PayEntry {
            id: self.id,
            project: self.project,
            user: self.user,
            duration: self.duration,
            paytype: self.paytype,
            paymentdate: self.paymentdate,
            description: self.description.clone(),
            createdate: self.createdate,
            changeddate: self.changeddate,
            creator: self.creator,
        }
    }
}

impl LedgerRow for Allocation {
    type Input = SaveAllocation;

    open spec fn row_id(&self) -> i64 {
        self.id
    }

    open spec fn row_key(&self) -> (i64, i64) {
        (self.creator, self.allocationdate)
    }

    open spec fn row_project(&self) -> i64 {
        self.project
    }

    open spec fn input_id(input: &SaveAllocation) -> Option<i64> {
        input.id
    }

    open spec fn input_project(input: &SaveAllocation) -> i64 {
        input.project
    }

    open spec fn inserted(id: i64, uid: i64, now: i64, input: SaveAllocation) -> Allocation {
        Allocation {
            id,
            project: input.project,
            duration: input.duration,
            allocationdate: input.allocationdate,
            description: input.description,
            createdate: now,
            changeddate: now,
            creator: uid,
        }
    }

    open spec fn updated(&self, now: i64, input: SaveAllocation) -> Allocation {
        Allocation {
            id: self.id,
            project: input.project,
            duration: input.duration,
            allocationdate: input.allocationdate,
            description: input.description,
            createdate: self.createdate,
            changeddate: now,
            creator: self.creator,
        }
    }

    proof fn lemma_inserted_id(id: i64, uid: i64, now: i64, input: SaveAllocation) {
    }

    proof fn lemma_updated_id(&self, now: i64, input: SaveAllocation) {
    }

    fn id(&self) -> (r: i64) {
        self.id
    }

    fn key(&self) -> (r: (i64, i64)) {
        (self.creator, self.allocationdate)
    }

    fn project(&self) -> (r: i64) {
        self.project
    }

    fn id_of_input(input: &SaveAllocation) -> (r: Option<i64>) {
        input.id
    }

    fn project_of_input(input: &SaveAllocation) -> (r: i64) {
        input.project
    }

    fn make(id: i64, uid: i64, now: i64, input: SaveAllocation) -> (r: Allocation) {
        Allocation {
            id,
            project: input.project,
            duration: input.duration,
            allocationdate: input.allocationdate,
            description: input.description,
            createdate: now,
            changeddate: now,
            creator: uid,
        }
    }

    fn update(&self, now: i64, input: SaveAllocation) -> (r: Allocation) {
        Allocation {
            id: self.id,
            project: input.project,
            duration: input.duration,
            allocationdate: input.allocationdate,
            description: input.description,
            createdate: self.createdate,
            changeddate: now,
            creator: self.creator,
        }
    }

    fn duplicate(&self) -> (r: Allocation) {
        Allocation {
            id: self.id,
            project: self.project,
            duration: self.duration,
            allocationdate: self.allocationdate,
            description: self.description.clone(),
            createdate: self.createdate,
            changeddate: self.changeddate,
            creator: self.creator,
        }
    }
}

/// Whether some project has id `pid`.
pub open spec fn has_project(projects: Seq<Project>, pid: i64) -> bool {
    exists|i: int| 0 <= i < projects.len() && projects[i].id == pid
}

/// Whether some row of `t` has id `id`.
pub open spec fn has_row<T: LedgerRow>(t: Seq<T>, id: i64) -> bool {
    exists|i: int| 0 <= i < t.len() && #[trigger] t[i].row_id() == id
}

/// The position of the row of `t` with id `id`, when there is one.
pub open spec fn row_index<T: LedgerRow>(t: Seq<T>, id: i64) -> int {
    choose|i: int| 0 <= i < t.len() && #[trigger] t[i].row_id() == id
}

/// Whether a row of `t` other than the one at `skip` has key `key`.
pub open spec fn key_taken<T: LedgerRow>(t: Seq<T>, key: (i64, i64), skip: int) -> bool {
    exists|i: int| 0 <= i < t.len() && i != skip && #[trigger] t[i].row_key() == key
}

/// The table's rules: ids and keys are unique, and every id is below `next`,
/// the id the next insert receives.
pub open spec fn table_wf<T: LedgerRow>(t: Seq<T>, next: i64) -> bool {
    &&& 1 <= next
    &&& forall|i: int| 0 <= i < t.len() ==> #[trigger] t[i].row_id() < next
    &&& forall|i: int, j: int|
        0 <= i < t.len() && 0 <= j < t.len() && i != j ==> #[trigger] t[i].row_id()
            != #[trigger] t[j].row_id()
    &&& forall|i: int, j: int|
        0 <= i < t.len() && 0 <= j < t.len() && i != j ==> #[trigger] t[i].row_key()
            != #[trigger] t[j].row_key()
}

/// Saving `input` into table `t` whose next id is `next`: the table, the next
/// id and the result afterwards.
/// Without an id, the row made from `input` is appended under id `next`,
/// unless its project is missing or its key is taken (a constraint error,
/// nothing changes) or no id is left. With an id, the row with that id is
/// updated in place under the same two rules; an id that no row has is not
/// found, and nothing changes.
pub open spec fn saved<T: LedgerRow>(
    t: Seq<T>,
    next: i64,
    projects: Seq<Project>,
    uid: i64,
    now: i64,
    input: T::Input,
) -> (Seq<T>, i64, Result<i64, StoreError>) {
    match T::input_id(&input) {
        None => {
            let row = T::inserted(next, uid, now, input);
            if !has_project(projects, T::input_project(&input)) || key_taken(t, row.row_key(), -1) {
                (t, next, Err(StoreError::Constraint))
            } else if next == i64::MAX {
                (t, next, Err(StoreError::Exhausted))
            } else {
                (t.push(row), (next + 1) as i64, Ok(next))
            }
        },
        Some(id) => {
            if !has_row(t, id) {
                (t, next, Err(StoreError::NotFound))
            } else {
                let i = row_index(t, id);
                let row = t[i].updated(now, input);
                if !has_project(projects, T::input_project(&input)) || key_taken(t, row.row_key(), i) {
                    (t, next, Err(StoreError::Constraint))
                } else {
                    (t.update(i, row), next, Ok(id))
                }
            }
        },
    }
}

/// Table `t` without the row with id `id`.
pub open spec fn deleted<T: LedgerRow>(t: Seq<T>, id: i64) -> Seq<T> {
    if has_row(t, id) {
        t.remove(row_index(t, id))
    } else {
        t
    }
}

/// Table and next id after saving each of `inputs` in turn; an input whose
/// save fails leaves them as they were and the others still apply.
pub open spec fn saved_all<T: LedgerRow>(
    t: Seq<T>,
    next: i64,
    projects: Seq<Project>,
    uid: i64,
    now: i64,
    inputs: Seq<T::Input>,
) -> (Seq<T>, i64)
    decreases inputs.len(),
{
    if inputs.len() == 0 {
        (t, next)
    } else {
        let before = saved_all(t, next, projects, uid, now, inputs.drop_last());
        let after = saved(before.0, before.1, projects, uid, now, inputs.last());
        (after.0, after.1)
    }
}

/// Table `t` after deleting each id of `ids` in turn.
pub open spec fn deleted_all<T: LedgerRow>(t: Seq<T>, ids: Seq<i64>) -> Seq<T>
    decreases ids.len(),
{
    if ids.len() == 0 {
        t
    } else {
        deleted(deleted_all(t, ids.drop_last()), ids.last())
    }
}

/// The rows of `t` that belong to project `pid`, in table order.
pub open spec fn rows_of_project<T: LedgerRow>(t: Seq<T>, pid: i64) -> Seq<T>
    decreases t.len(),
{
    if t.len() == 0 {
        t
    } else if t.last().row_project() == pid {
        rows_of_project(t.drop_last(), pid).push(t.last())
    } else {
        rows_of_project(t.drop_last(), pid)
    }
}

/// Finds the project with id `pid`.
pub fn project_index(projects: &Vec<Project>, pid: i64) -> (r: Option<usize>)
    ensures
        match r {
            Some(i) => i < projects@.len() && projects@[i as int].id == pid,
            None => !has_project(projects@, pid),
        },
{
    let mut i: usize = 0;
    while i < projects.len()
        invariant
            i <= projects@.len(),
            forall|j: int| 0 <= j < i ==> projects@[j].id != pid,
        decreases projects@.len() - i,
    {
        if projects[i].id == pid {
            return Some(i);
        }
        i = i + 1;
    }
    None
}

/// Finds the row with id `id`.
pub fn find_row<T: LedgerRow>(t: &Vec<T>, id: i64) -> (r: Option<usize>)
    ensures
        match r {
            Some(i) => i < t@.len() && t@[i as int].row_id() == id,
            None => !has_row(t@, id),
        },
{
    let mut i: usize = 0;
    while i < t.len()
        invariant
            i <= t@.len(),
            forall|j: int| 0 <= j < i ==> #[trigger] t@[j].row_id() != id,
        decreases t@.len() - i,
    {
        if t[i].id() == id {
            return Some(i);
        }
        i = i + 1;
    }
    None
}

/// Whether a row other than the one at `skip` has key `key`.
fn key_clash<T: LedgerRow>(t: &Vec<T>, key: (i64, i64), skip: Option<usize>) -> (r: bool)
    ensures
        r == key_taken(
            t@,
            key,
            match skip {
                Some(k) => k as int,
                None => -1,
            },
        ),
{
    let ghost sk: int = match skip {
        Some(k) => k as int,
        None => -1,
    };
    let mut i: usize = 0;
    while i < t.len()
        invariant
            i <= t@.len(),
            sk == match skip {
                Some(k) => k as int,
                None => -1,
            },
            forall|j: int| 0 <= j < i && j != sk ==> #[trigger] t@[j].row_key() != key,
        decreases t@.len() - i,
    {
        let skipped = match skip {
            Some(k) => k == i,
            None => false,
        };
        let k = t[i].key();
        if !skipped && k.0 == key.0 && k.1 == key.1 {
            return true;
        }
        i = i + 1;
    }
    false
}

/// A row found by id is the one `row_index` names.
proof fn lemma_found_index<T: LedgerRow>(t: Seq<T>, next: i64, id: i64, i: int)
    requires
        table_wf(t, next),
        0 <= i < t.len(),
        t[i].row_id() == id,
    ensures
        has_row(t, id),
        row_index(t, id) == i,
{
    assert(has_row(t, id));
    let k = row_index(t, id);
    assert(t[k].row_id() == id);
}

/// Saves one row: appends it or updates it in place, as `saved` states.
pub fn save_row<T: LedgerRow>(
    t: &mut Vec<T>,
    next: &mut i64,
    projects: &Vec<Project>,
    uid: i64,
    now: i64,
    input: T::Input,
) -> (r: Result<i64, StoreError>)
    requires
        table_wf(old(t)@, *old(next)),
    ensures
        (final(t)@, *final(next), r) == saved(old(t)@, *old(next), projects@, uid, now, input),
        table_wf(final(t)@, *final(next)),
{
    let pid = T::project_of_input(&input);
    let has_p = project_index(projects, pid).is_some();
    match T::id_of_input(&input) {
        None => {
            let n = *next;
            let row = T::make(n, uid, now, input);
            proof {
                T::lemma_inserted_id(n, uid, now, input);
            }
            if !has_p || key_clash(t, row.key(), None) {
                return Err(StoreError::Constraint);
            }
            if n == i64::MAX {
                return Err(StoreError::Exhausted);
            }
            t.push(row);
            *next = n + 1;
            proof {
                let s = final(t)@;
                assert forall|i: int, j: int|
                    0 <= i < s.len() && 0 <= j < s.len() && i != j implies #[trigger] s[i].row_key()
                    != #[trigger] s[j].row_key() by {
                    if i == s.len() - 1 {
                        assert(s[j] == old(t)@[j]);
                    } else if j == s.len() - 1 {
                        assert(s[i] == old(t)@[i]);
                    }
                }
            }
            Ok(n)
        },
        Some(id) => {
            match find_row(t, id) {
                None => Err(StoreError::NotFound),
                Some(i) => {
                    proof {
                        lemma_found_index(t@, *next, id, i as int);
                    }
                    let row = t[i].update(now, input);
                    proof {
                        t@[i as int].lemma_updated_id(now, input);
                    }
                    if !has_p || key_clash(t, row.key(), Some(i)) {
                        return Err(StoreError::Constraint);
                    }
                    t.set(i, row);
                    proof {
                        let s = final(t)@;
                        assert forall|a: int, b: int|
                            0 <= a < s.len() && 0 <= b < s.len() && a != b implies #[trigger] s[a].row_key()
                            != #[trigger] s[b].row_key() by {
                            if a == i {
                                assert(s[b] == old(t)@[b]);
                            } else if b == i {
                                assert(s[a] == old(t)@[a]);
                            }
                        }
                        assert forall|a: int, b: int|
                            0 <= a < s.len() && 0 <= b < s.len() && a != b implies #[trigger] s[a].row_id()
                            != #[trigger] s[b].row_id() by {
                            if a == i {
                                assert(s[b] == old(t)@[b]);
                            } else if b == i {
                                assert(s[a] == old(t)@[a]);
                            }
                        }
                    }
                    Ok(id)
                },
            }
        },
    }
}

/// Removing a row keeps the table's rules.
proof fn lemma_remove_wf<T: LedgerRow>(t: Seq<T>, next: i64, i: int)
    requires
        table_wf(t, next),
        0 <= i < t.len(),
    ensures
        table_wf(t.remove(i), next),
{
    let s = t.remove(i);
    assert forall|a: int| 0 <= a < s.len() implies s[a] == t[if a < i {
        a
    } else {
        a + 1
    }] by {}
    assert forall|a: int, b: int|
        0 <= a < s.len() && 0 <= b < s.len() && a != b implies #[trigger] s[a].row_key()
        != #[trigger] s[b].row_key() by {
        assert(s[a] == t[if a < i { a } else { a + 1 }]);
        assert(s[b] == t[if b < i { b } else { b + 1 }]);
    }
    assert forall|a: int, b: int|
        0 <= a < s.len() && 0 <= b < s.len() && a != b implies #[trigger] s[a].row_id()
        != #[trigger] s[b].row_id() by {
        assert(s[a] == t[if a < i { a } else { a + 1 }]);
        assert(s[b] == t[if b < i { b } else { b + 1 }]);
    }
    assert forall|a: int| 0 <= a < s.len() implies #[trigger] s[a].row_id() < next by {
        assert(s[a] == t[if a < i { a } else { a + 1 }]);
    }
}

/// Deletes the row with id `id`, if there is one.
pub fn delete_row<T: LedgerRow>(t: &mut Vec<T>, next: i64, id: i64)
    requires
        table_wf(old(t)@, next),
    ensures
        final(t)@ == deleted(old(t)@, id),
        table_wf(final(t)@, next),
{
    match find_row(t, id) {
        None => {},
        Some(i) => {
            proof {
                lemma_found_index(t@, next, id, i as int);
                lemma_remove_wf(t@, next, i as int);
            }
            t.remove(i);
        },
    }
}

/// Adds a stored row as it is, keeping the table's rules: a row whose id or
/// key is already taken, or whose id leaves no next id, is refused.
pub fn load_row<T: LedgerRow>(t: &mut Vec<T>, next: &mut i64, row: T) -> (r: Result<(), StoreError>)
    requires
        table_wf(old(t)@, *old(next)),
    ensures
        table_wf(final(t)@, *final(next)),
        r is Ok ==> final(t)@ == old(t)@.push(row),
        r is Err ==> *final(t) == *old(t) && *final(next) == *old(next),
        r is Err <==> (row.row_id() == i64::MAX || has_row(old(t)@, row.row_id()) || key_taken(
            old(t)@,
            row.row_key(),
            -1,
        )),
{
    let id = row.id();
    if id == i64::MAX || find_row(t, id).is_some() || key_clash(t, row.key(), None) {
        return Err(StoreError::Constraint);
    }
    t.push(row);
    if *next <= id {
        *next = id + 1;
    }
    proof {
        let s = final(t)@;
        assert forall|i: int, j: int|
            0 <= i < s.len() && 0 <= j < s.len() && i != j implies #[trigger] s[i].row_key()
            != #[trigger] s[j].row_key() by {
            if i == s.len() - 1 {
                assert(s[j] == old(t)@[j]);
            } else if j == s.len() - 1 {
                assert(s[i] == old(t)@[i]);
            }
        }
        assert forall|i: int, j: int|
            0 <= i < s.len() && 0 <= j < s.len() && i != j implies #[trigger] s[i].row_id()
            != #[trigger] s[j].row_id() by {
            if i == s.len() - 1 {
                assert(s[j] == old(t)@[j]);
            } else if j == s.len() - 1 {
                assert(s[i] == old(t)@[i]);
            }
        }
        assert forall|i: int| 0 <= i < s.len() implies #[trigger] s[i].row_id() < *final(next) by {
            if i < s.len() - 1 {
                assert(s[i] == old(t)@[i]);
            }
        }
    }
    Ok(())
}

/// Saves each input in turn; one that fails is skipped and the rest still apply.
pub fn save_rows<T: LedgerRow>(
    t: &mut Vec<T>,
    next: &mut i64,
    projects: &Vec<Project>,
    uid: i64,
    now: i64,
    inputs: Vec<T::Input>,
)
    requires
        table_wf(old(t)@, *old(next)),
    ensures
        (final(t)@, *final(next)) == saved_all(old(t)@, *old(next), projects@, uid, now, inputs@),
        table_wf(final(t)@, *final(next)),
{
    let ghost all = inputs@;
    let n = inputs.len();
    let mut rest = inputs;
    let mut i: usize = 0;
    while rest.len() > 0
        invariant
            table_wf(t@, *next),
            i <= all.len(),
            all.len() == n,
            rest@ == all.subrange(i as int, all.len() as int),
            (t@, *next) == saved_all(old(t)@, *old(next), projects@, uid, now, all.subrange(0, i as int)),
        decreases rest@.len(),
    {
        assert(i < all.len()) by {
            assert(rest@.len() == all.len() - i);
        }
        let input = rest.remove(0);
        assert(input == all[i as int]);
        let _ = save_row(t, next, projects, uid, now, input);
        proof {
            let done = all.subrange(0, i + 1);
            assert(done.drop_last() =~= all.subrange(0, i as int));
            assert(done.last() == input);
            assert(rest@ =~= all.subrange(i + 1, all.len() as int));
        }
        i = i + 1;
    }
    assert(all.subrange(0, i as int) =~= all);
}

/// Deletes each id in turn.
pub fn delete_rows<T: LedgerRow>(t: &mut Vec<T>, next: i64, ids: &Vec<i64>)
    requires
        table_wf(old(t)@, next),
    ensures
        final(t)@ == deleted_all(old(t)@, ids@),
        table_wf(final(t)@, next),
{
    let mut i: usize = 0;
    while i < ids.len()
        invariant
            i <= ids@.len(),
            table_wf(t@, next),
            t@ == deleted_all(old(t)@, ids@.subrange(0, i as int)),
        decreases ids@.len() - i,
    {
        delete_row(t, next, ids[i]);
        proof {
            let done = ids@.subrange(0, i + 1);
            assert(done.drop_last() =~= ids@.subrange(0, i as int));
        }
        i = i + 1;
    }
    assert(ids@.subrange(0, i as int) =~= ids@);
}

/// The rows of project `pid`, in table order.
pub fn rows_of<T: LedgerRow>(t: &Vec<T>, pid: i64) -> (r: Vec<T>)
    ensures
        r@ == rows_of_project(t@, pid),
{
    let mut r: Vec<T> = Vec::new();
    let mut i: usize = 0;
    while i < t.len()
        invariant
            i <= t@.len(),
            r@ == rows_of_project(t@.subrange(0, i as int), pid),
        decreases t@.len() - i,
    {
        let ghost s1 = t@.subrange(0, i + 1);
        proof {
            assert(s1.drop_last() =~= t@.subrange(0, i as int));
            assert(s1.last() == t@[i as int]);
        }
        if t[i].project() == pid {
            r.push(t[i].duplicate());
        }
        i = i + 1;
    }
    assert(t@.subrange(0, i as int) =~= t@);
    r
}

/// Whether `r` is one of the rows of `t`.
pub open spec fn contains_row<T>(t: Seq<T>, r: T) -> bool {
    exists|j: int| 0 <= j < t.len() && t[j] == r
}

/// Whether some input of `inputs` names the id `id`.
pub open spec fn names_id<T: LedgerRow>(inputs: Seq<T::Input>, id: i64) -> bool {
    exists|k: int| 0 <= k < inputs.len() && T::input_id(&inputs[k]) == Some(id)
}

/// Saving one input keeps the table's rules, and keeps every row whose id
/// the input does not name.
pub proof fn lemma_saved_keeps<T: LedgerRow>(
    t: Seq<T>,
    next: i64,
    ps: Seq<Project>,
    uid: i64,
    now: i64,
    input: T::Input,
)
    requires
        table_wf(t, next),
    ensures
        table_wf(saved(t, next, ps, uid, now, input).0, saved(t, next, ps, uid, now, input).1),
        forall|i: int|
            0 <= i < t.len() && T::input_id(&input) != Some(#[trigger] t[i].row_id())
                ==> contains_row(saved(t, next, ps, uid, now, input).0, t[i]),
{
    let res = saved(t, next, ps, uid, now, input);
    match T::input_id(&input) {
        None => {
            T::lemma_inserted_id(next, uid, now, input);
            if res.2 is Ok {
                let s = res.0;
                assert forall|i: int, j: int|
                    0 <= i < s.len() && 0 <= j < s.len() && i != j implies #[trigger] s[i].row_key()
                    != #[trigger] s[j].row_key() by {
                    if i == s.len() - 1 {
                        assert(s[j] == t[j]);
                    } else if j == s.len() - 1 {
                        assert(s[i] == t[i]);
                    }
                }
                assert forall|i: int| 0 <= i < t.len() && T::input_id(&input) != Some(
                    #[trigger] t[i].row_id(),
                ) implies contains_row(s, t[i]) by {
                    assert(s[i] == t[i]);
                }
            } else {
                assert forall|i: int| 0 <= i < t.len() && T::input_id(&input) != Some(
                    #[trigger] t[i].row_id(),
                ) implies contains_row(res.0, t[i]) by {
                    assert(res.0[i] == t[i]);
                }
            }
        },
        Some(id) => {
            if has_row(t, id) && res.2 is Ok {
                let i0 = row_index(t, id);
                t[i0].lemma_updated_id(now, input);
                let s = res.0;
                assert forall|a: int, b: int|
                    0 <= a < s.len() && 0 <= b < s.len() && a != b implies #[trigger] s[a].row_key()
                    != #[trigger] s[b].row_key() by {
                    if a == i0 {
                        assert(s[b] == t[b]);
                    } else if b == i0 {
                        assert(s[a] == t[a]);
                    }
                }
                assert forall|a: int, b: int|
                    0 <= a < s.len() && 0 <= b < s.len() && a != b implies #[trigger] s[a].row_id()
                    != #[trigger] s[b].row_id() by {
                    if a == i0 {
                        assert(s[b] == t[b]);
                    } else if b == i0 {
                        assert(s[a] == t[a]);
                    }
                }
                assert forall|i: int| 0 <= i < t.len() && T::input_id(&input) != Some(
                    #[trigger] t[i].row_id(),
                ) implies contains_row(s, t[i]) by {
                    assert(i != i0);
                    assert(s[i] == t[i]);
                }
            } else {
                assert forall|i: int| 0 <= i < t.len() && T::input_id(&input) != Some(
                    #[trigger] t[i].row_id(),
                ) implies contains_row(res.0, t[i]) by {
                    assert(res.0[i] == t[i]);
                }
            }
        },
    }
}

/// Saving a list of inputs keeps the table's rules, and keeps every row
/// whose id no input names.
pub proof fn lemma_saved_all_keeps<T: LedgerRow>(
    t: Seq<T>,
    next: i64,
    ps: Seq<Project>,
    uid: i64,
    now: i64,
    inputs: Seq<T::Input>,
)
    requires
        table_wf(t, next),
    ensures
        table_wf(
            saved_all(t, next, ps, uid, now, inputs).0,
            saved_all(t, next, ps, uid, now, inputs).1,
        ),
        forall|i: int|
            0 <= i < t.len() && !names_id::<T>(inputs, #[trigger] t[i].row_id()) ==> contains_row(
                saved_all(t, next, ps, uid, now, inputs).0,
                t[i],
            ),
    decreases inputs.len(),
{
    if inputs.len() > 0 {
        let front = inputs.drop_last();
        lemma_saved_all_keeps(t, next, ps, uid, now, front);
        let m = saved_all(t, next, ps, uid, now, front);
        lemma_saved_keeps(m.0, m.1, ps, uid, now, inputs.last());
        let res = saved_all(t, next, ps, uid, now, inputs);
        assert forall|i: int|
            0 <= i < t.len() && !names_id::<T>(inputs, #[trigger] t[i].row_id()) implies contains_row(
            res.0,
            t[i],
        ) by {
            if names_id::<T>(front, t[i].row_id()) {
                let k = choose|k: int|
                    0 <= k < front.len() && T::input_id(&front[k]) == Some(t[i].row_id());
                assert(inputs[k] == front[k]);
            }
            let j = choose|j: int| 0 <= j < m.0.len() && m.0[j] == t[i];
            assert(T::input_id(&inputs.last()) != Some(t[i].row_id())) by {
                if T::input_id(&inputs.last()) == Some(t[i].row_id()) {
                    assert(T::input_id(&inputs[inputs.len() - 1]) == Some(t[i].row_id()));
                }
            }
            assert(m.0[j].row_id() == t[i].row_id());
        }
    }
}

/// Deleting one id keeps the table's rules, leaves no row with that id, and
/// keeps every other row.
pub proof fn lemma_deleted_keeps<T: LedgerRow>(t: Seq<T>, next: i64, id: i64)
    requires
        table_wf(t, next),
    ensures
        table_wf(deleted(t, id), next),
        !has_row(deleted(t, id), id),
        forall|i: int|
            0 <= i < t.len() && #[trigger] t[i].row_id() != id ==> contains_row(deleted(t, id), t[i]),
        forall|j: int| 0 <= j < deleted(t, id).len() ==> contains_row(t, #[trigger] deleted(t, id)[j]),
{
    if has_row(t, id) {
        let i0 = row_index(t, id);
        lemma_remove_wf(t, next, i0);
        let s = t.remove(i0);
        assert forall|a: int| 0 <= a < s.len() implies s[a] == t[if a < i0 {
            a
        } else {
            a + 1
        }] by {}
        if has_row(s, id) {
            let a = choose|a: int| 0 <= a < s.len() && #[trigger] s[a].row_id() == id;
            let b = if a < i0 { a } else { a + 1 };
            assert(t[b].row_id() == t[i0].row_id());
        }
        assert forall|i: int| 0 <= i < t.len() && #[trigger] t[i].row_id() != id implies contains_row(
            s,
            t[i],
        ) by {
            if i < i0 {
                assert(s[i] == t[i]);
            } else {
                assert(i != i0);
                assert(s[i - 1] == t[i]);
            }
        }
        assert forall|j: int| 0 <= j < s.len() implies contains_row(t, #[trigger] s[j]) by {
            let b = if j < i0 { j } else { j + 1 };
            assert(s[j] == t[b]);
        }
    } else {
        assert forall|i: int| 0 <= i < t.len() && #[trigger] t[i].row_id() != id implies contains_row(
            t,
            t[i],
        ) by {}
        assert forall|j: int| 0 <= j < t.len() implies contains_row(t, #[trigger] t[j]) by {}
    }
}

/// Deleting a list of ids keeps the table's rules, leaves no row with any of
/// those ids, and keeps every row whose id is not in the list.
pub proof fn lemma_deleted_all_keeps<T: LedgerRow>(t: Seq<T>, next: i64, ids: Seq<i64>)
    requires
        table_wf(t, next),
    ensures
        table_wf(deleted_all(t, ids), next),
        forall|k: int| 0 <= k < ids.len() ==> !has_row(deleted_all(t, ids), #[trigger] ids[k]),
        forall|i: int|
            0 <= i < t.len() && !ids.contains(#[trigger] t[i].row_id()) ==> contains_row(
                deleted_all(t, ids),
                t[i],
            ),
    decreases ids.len(),
{
    if ids.len() > 0 {
        let front = ids.drop_last();
        lemma_deleted_all_keeps(t, next, front);
        let m = deleted_all(t, front);
        lemma_deleted_keeps(m, next, ids.last());
        let res = deleted_all(t, ids);
        assert forall|k: int| 0 <= k < ids.len() implies !has_row(res, #[trigger] ids[k]) by {
            if k < ids.len() - 1 {
                assert(ids[k] == front[k]);
                if has_row(res, ids[k]) {
                    let j = choose|j: int| 0 <= j < res.len() && #[trigger] res[j].row_id() == ids[k];
                    let j2 = choose|j2: int| 0 <= j2 < m.len() && m[j2] == res[j];
                    assert(m[j2].row_id() == ids[k]);
                }
            }
        }
        assert forall|i: int|
            0 <= i < t.len() && !ids.contains(#[trigger] t[i].row_id()) implies contains_row(
            res,
            t[i],
        ) by {
            if front.contains(t[i].row_id()) {
                let k = choose|k: int| 0 <= k < front.len() && front[k] == t[i].row_id();
                assert(ids[k] == front[k]);
            }
            assert(ids[ids.len() - 1] != t[i].row_id());
            let j = choose|j: int| 0 <= j < m.len() && m[j] == t[i];
            assert(m[j].row_id() != ids.last());
        }
    }
}

} // verus!
