//! The project ledger: saving and deleting time entries, pay entries and
//! allocations, reading a project's snapshot, and the batched ledger update.
use vstd::prelude::*;
use crate::data::{
    Allocation, PayEntry, ProjectTime, SaveAllocation, SavePayEntry, SaveProjectTime,
    SaveTimeEntry, TimeEntry,
};
use crate::membership::members_listed;
use crate::store::{has_member, members_view, Store};
use crate::table::{
    contains_row, delete_row, delete_rows, lemma_deleted_all_keeps, lemma_saved_all_keeps, names_id, deleted, deleted_all, has_project, has_row, key_taken, load_row, rows_of,
    rows_of_project, save_row, save_rows, saved, saved_all, LedgerRow, StoreError,
};

verus! {

/// Whether `after` differs from `before` at most in its ledger tables.
pub open spec fn only_ledger_changed(before: Store, after: Store) -> bool {
    &&& after.projects == before.projects
    &&& after.next_project == before.next_project
    &&& after.members == before.members
    &&& after.users == before.users
}

/// Whether `pt` is the snapshot of project `pid` in store `s`: the project,
/// its listed members, and its time entries, pay entries and allocations in
/// table order.
pub open spec fn is_snapshot(s: Store, pid: i64, pt: ProjectTime) -> bool {
    &&& exists|i: int|
        0 <= i < s.projects@.len() && s.projects@[i].id == pid && pt.project@ == s.projects@[i]@
    &&& pt.members@ == members_listed(s.members@, s.users@, pid)
    &&& pt.timeentries@ == rows_of_project(s.timeentries@, pid)
    &&& pt.payentries@ == rows_of_project(s.payentries@, pid)
    &&& pt.allocations@ == rows_of_project(s.allocations@, pid)
}

/// Whether `r` is what reading the snapshot of project `pid` from `s` gives:
/// the snapshot when the project exists, not found otherwise.
pub open spec fn snapshot_read(s: Store, pid: i64, r: Result<ProjectTime, StoreError>) -> bool {
    match r {
        Ok(pt) => is_snapshot(s, pid, pt),
        Err(e) => e == StoreError::NotFound && !has_project(s.projects@, pid),
    }
}

/// What the batch `spt` does to `before` when it applies: each table gets
/// its saves in order, then its deletes; a save that fails is skipped.
pub open spec fn batch_applied(before: Store, after: Store, uid: i64, now: i64, spt: SaveProjectTime) -> bool {
    let t = saved_all(
        before.timeentries@,
        before.next_time,
        before.projects@,
        uid,
        now,
        spt.savetimeentries@,
    );
    let p = saved_all(
        before.payentries@,
        before.next_pay,
        before.projects@,
        uid,
        now,
        spt.savepayentries@,
    );
    let a = saved_all(
        before.allocations@,
        before.next_allocation,
        before.projects@,
        uid,
        now,
        spt.saveallocations@,
    );
    &&& only_ledger_changed(before, after)
    &&& after.timeentries@ == deleted_all(t.0, spt.deletetimeentries@)
    &&& after.next_time == t.1
    &&& after.payentries@ == deleted_all(p.0, spt.deletepayentries@)
    &&& after.next_pay == p.1
    &&& after.allocations@ == deleted_all(a.0, spt.deleteallocations@)
    &&& after.next_allocation == a.1
}

/// The time entries of user `uid`, in table order.
pub open spec fn entries_of_user(t: Seq<TimeEntry>, uid: i64) -> Seq<TimeEntry>
    decreases t.len(),
{
    if t.len() == 0 {
        t
    } else if t.last().user == uid {
        entries_of_user(t.drop_last(), uid).push(t.last())
    } else {
        entries_of_user(t.drop_last(), uid)
    }
}

impl Store {
    /// Saves a time entry: inserts it, made by `uid` at `now`, when it has no
    /// id, or updates the entry with its id, keeping creator and creation
    /// time. Two entries of one user never share a start time, and the
    /// project must exist. An id that names no entry is not found. Returns the
    /// entry's id.
    pub fn save_time_entry(&mut self, uid: i64, now: i64, e: SaveTimeEntry) -> (r: Result<i64, StoreError>)
        requires
            old(self).wf(),
        ensures
            final(self).wf(),
            only_ledger_changed(*old(self), *final(self)),
            final(self).payentries == old(self).payentries,
            final(self).next_pay == old(self).next_pay,
            final(self).allocations == old(self).allocations,
            final(self).next_allocation == old(self).next_allocation,
            (final(self).timeentries@, final(self).next_time, r) == saved(
                old(self).timeentries@,
                old(self).next_time,
                old(self).projects@,
                uid,
                now,
                e,
            ),
    {
        save_row(&mut self.timeentries, &mut self.next_time, &self.projects, uid, now, e)
    }

    /// Deletes the time entry with id `id`, if there is one. The caller must
    /// already have checked that the user may change the project's ledger.
    pub fn delete_time_entry(&mut self, id: i64)
        requires
            old(self).wf(),
        ensures
            final(self).wf(),
            only_ledger_changed(*old(self), *final(self)),
            final(self).payentries == old(self).payentries,
            final(self).next_pay == old(self).next_pay,
            final(self).allocations == old(self).allocations,
            final(self).next_allocation == old(self).next_allocation,
            final(self).next_time == old(self).next_time,
            final(self).timeentries@ == deleted(old(self).timeentries@, id),
    {
        delete_row(&mut self.timeentries, self.next_time, id)
    }

    /// Saves a pay entry: inserts it, made by `uid` at `now`, when it has no
    /// id, or updates the entry with its id, keeping creator and creation
    /// time. Two entries of one user never share a payment date, and the
    /// project must exist. An id that names no entry is not found. Returns the
    /// entry's id.
    pub fn save_pay_entry(&mut self, uid: i64, now: i64, e: SavePayEntry) -> (r: Result<i64, StoreError>)
        requires
            old(self).wf(),
        ensures
            final(self).wf(),
            only_ledger_changed(*old(self), *final(self)),
            final(self).timeentries == old(self).timeentries,
            final(self).next_time == old(self).next_time,
            final(self).allocations == old(self).allocations,
            final(self).next_allocation == old(self).next_allocation,
            (final(self).payentries@, final(self).next_pay, r) == saved(
                old(self).payentries@,
                old(self).next_pay,
                old(self).projects@,
                uid,
                now,
                e,
            ),
    {
        save_row(&mut self.payentries, &mut self.next_pay, &self.projects, uid, now, e)
    }

    /// Deletes the pay entry with id `id`, if there is one. The caller must
    /// already have checked that the user may change the project's ledger.
    pub fn delete_pay_entry(&mut self, id: i64)
        requires
            old(self).wf(),
        ensures
            final(self).wf(),
            only_ledger_changed(*old(self), *final(self)),
            final(self).timeentries == old(self).timeentries,
            final(self).next_time == old(self).next_time,
            final(self).allocations == old(self).allocations,
            final(self).next_allocation == old(self).next_allocation,
            final(self).next_pay == old(self).next_pay,
            final(self).payentries@ == deleted(old(self).payentries@, id),
    {
        delete_row(&mut self.payentries, self.next_pay, id)
    }

    /// Saves an allocation: inserts it, made by `uid` at `now`, when it has
    /// no id, or updates the allocation with its id, keeping creator and
    /// creation time. Two allocations by one creator never share a date, and
    /// the project must exist. An id that names no allocation is not found.
    /// Returns the allocation's id.
    pub fn save_allocation(&mut self, uid: i64, now: i64, a: SaveAllocation) -> (r: Result<i64, StoreError>)
        requires
            old(self).wf(),
        ensures
            final(self).wf(),
            only_ledger_changed(*old(self), *final(self)),
            final(self).timeentries == old(self).timeentries,
            final(self).next_time == old(self).next_time,
            final(self).payentries == old(self).payentries,
            final(self).next_pay == old(self).next_pay,
            (final(self).allocations@, final(self).next_allocation, r) == saved(
                old(self).allocations@,
                old(self).next_allocation,
                old(self).projects@,
                uid,
                now,
                a,
            ),
    {
        save_row(&mut self.allocations, &mut self.next_allocation, &self.projects, uid, now, a)
    }

    /// Deletes the allocation with id `id`, if there is one. The caller must
    /// already have checked that the user may change the project's ledger.
    pub fn delete_allocation(&mut self, id: i64)
        requires
            old(self).wf(),
        ensures
            final(self).wf(),
            only_ledger_changed(*old(self), *final(self)),
            final(self).timeentries == old(self).timeentries,
            final(self).next_time == old(self).next_time,
            final(self).payentries == old(self).payentries,
            final(self).next_pay == old(self).next_pay,
            final(self).next_allocation == old(self).next_allocation,
            final(self).allocations@ == deleted(old(self).allocations@, id),
    {
        delete_row(&mut self.allocations, self.next_allocation, id)
    }

    /// Adds a stored time entry as it is; one whose id or user and start are
    /// taken, or whose id leaves no next id, is refused and nothing changes.
    pub fn load_time_entry(&mut self, e: TimeEntry) -> (r: Result<(), StoreError>)
        requires
            old(self).wf(),
        ensures
            final(self).wf(),
            only_ledger_changed(*old(self), *final(self)),
            final(self).payentries == old(self).payentries,
            final(self).allocations == old(self).allocations,
            r is Ok ==> final(self).timeentries@ == old(self).timeentries@.push(e),
            r is Err ==> *final(self) == *old(self),
            r is Err <==> (e.id == i64::MAX || has_row(old(self).timeentries@, e.id) || key_taken(
                old(self).timeentries@,
                (e.user, e.startdate),
                -1,
            )),
    {
        load_row(&mut self.timeentries, &mut self.next_time, e)
    }

    /// Adds a stored pay entry as it is; one whose id or user and payment
    /// date are taken, or whose id leaves no next id, is refused and nothing
    /// changes.
    pub fn load_pay_entry(&mut self, e: PayEntry) -> (r: Result<(), StoreError>)
        requires
            old(self).wf(),
        ensures
            final(self).wf(),
            only_ledger_changed(*old(self), *final(self)),
            final(self).timeentries == old(self).timeentries,
            final(self).allocations == old(self).allocations,
            r is Ok ==> final(self).payentries@ == old(self).payentries@.push(e),
            r is Err ==> *final(self) == *old(self),
            r is Err <==> (e.id == i64::MAX || has_row(old(self).payentries@, e.id) || key_taken(
                old(self).payentries@,
                (e.user, e.paymentdate),
                -1,
            )),
    {
        load_row(&mut self.payentries, &mut self.next_pay, e)
    }

    /// Adds a stored allocation as it is; one whose id or creator and date
    /// are taken, or whose id leaves no next id, is refused and nothing
    /// changes.
    pub fn load_allocation(&mut self, a: Allocation) -> (r: Result<(), StoreError>)
        requires
            old(self).wf(),
        ensures
            final(self).wf(),
            only_ledger_changed(*old(self), *final(self)),
            final(self).timeentries == old(self).timeentries,
            final(self).payentries == old(self).payentries,
            r is Ok ==> final(self).allocations@ == old(self).allocations@.push(a),
            r is Err ==> *final(self) == *old(self),
            r is Err <==> (a.id == i64::MAX || has_row(old(self).allocations@, a.id) || key_taken(
                old(self).allocations@,
                (a.creator, a.allocationdate),
                -1,
            )),
    {
        load_row(&mut self.allocations, &mut self.next_allocation, a)
    }

    /// The time entries of project `pid`, in table order.
    pub fn time_entries(&self, pid: i64) -> (r: Vec<TimeEntry>)
        ensures
            r@ == rows_of_project(self.timeentries@, pid),
    {
        rows_of(&self.timeentries, pid)
    }

    /// The pay entries of project `pid`, in table order.
    pub fn pay_entries(&self, pid: i64) -> (r: Vec<PayEntry>)
        ensures
            r@ == rows_of_project(self.payentries@, pid),
    {
        rows_of(&self.payentries, pid)
    }

    /// The allocations of project `pid`, in table order.
    pub fn allocations(&self, pid: i64) -> (r: Vec<Allocation>)
        ensures
            r@ == rows_of_project(self.allocations@, pid),
    {
        rows_of(&self.allocations, pid)
    }

    /// The time entries of user `uid`, over all projects, in table order.
    pub fn user_time(&self, uid: i64) -> (r: Vec<TimeEntry>)
        ensures
            r@ == entries_of_user(self.timeentries@, uid),
    {
        let mut r: Vec<TimeEntry> = Vec::new();
        let mut i: usize = 0;
        while i < self.timeentries.len()
            invariant
                i <= self.timeentries@.len(),
                r@ == entries_of_user(self.timeentries@.subrange(0, i as int), uid),
            decreases self.timeentries@.len() - i,
        {
            proof {
                assert(self.timeentries@.subrange(0, i + 1).drop_last()
                    =~= self.timeentries@.subrange(0, i as int));
            }
            if self.timeentries[i].user == uid {
                r.push(self.timeentries[i].duplicate());
            }
            i = i + 1;
        }
        assert(self.timeentries@.subrange(0, i as int) =~= self.timeentries@);
        r
    }

    /// The snapshot of project `pid`: the project, its members, and its time
    /// entries, pay entries and allocations. Fails when the project does not
    /// exist.
    pub fn read_project_time(&self, pid: i64) -> (r: Result<ProjectTime, StoreError>)
        requires
            self.wf(),
        ensures
            snapshot_read(*self, pid, r),
    {
        let project = match self.read_project(pid) {
            Ok(p) => p,
            Err(e) => return Err(e),
        };
        let members = match self.member_list(pid) {
            Ok(m) => m,
            Err(e) => return Err(e),
        };
        let timeentries = self.time_entries(pid);
        let payentries = self.pay_entries(pid);
        let allocations = self.allocations(pid);
        Ok(ProjectTime { project, members, timeentries, payentries, allocations })
    }

    /// Applies a batch to a project's ledger and returns the project's
    /// snapshot afterwards. When `uid` is a member of the project, in any
    /// role, the time entries are saved then deleted, then the pay entries,
    /// then the allocations; each item stands alone, and one that fails is
    /// skipped without undoing the others. When `uid` is not a member the
    /// batch is ignored and the snapshot is returned unchanged.
    pub fn save_project_time(&mut self, uid: i64, now: i64, spt: SaveProjectTime) -> (r: Result<
        ProjectTime,
        StoreError,
    >)
        requires
            old(self).wf(),
        ensures
            final(self).wf(),
            if has_member(members_view(old(self).members@), spt.project, uid) {
                batch_applied(*old(self), *final(self), uid, now, spt)
            } else {
                *final(self) == *old(self)
            },
            snapshot_read(*final(self), spt.project, r),
    {
        let pid = spt.project;
        if self.is_project_member(uid, pid) {
            let ghost req = spt;
            save_rows(
                &mut self.timeentries,
                &mut self.next_time,
                &self.projects,
                uid,
                now,
                spt.savetimeentries,
            );
            delete_rows(&mut self.timeentries, self.next_time, &spt.deletetimeentries);
            save_rows(
                &mut self.payentries,
                &mut self.next_pay,
                &self.projects,
                uid,
                now,
                spt.savepayentries,
            );
            delete_rows(&mut self.payentries, self.next_pay, &spt.deletepayentries);
            save_rows(
                &mut self.allocations,
                &mut self.next_allocation,
                &self.projects,
                uid,
                now,
                spt.saveallocations,
            );
            delete_rows(&mut self.allocations, self.next_allocation, &spt.deleteallocations);
            assert(batch_applied(*old(self), *self, uid, now, req));
        }
        self.read_project_time(pid)
    }
}

/// Saving inputs `a` and then inputs `b` is saving `a + b`.
proof fn lemma_saved_all_concat<T: LedgerRow>(
    t: Seq<T>,
    next: i64,
    ps: Seq<crate::data::Project>,
    uid: i64,
    now: i64,
    a: Seq<T::Input>,
    b: Seq<T::Input>,
)
    ensures
        saved_all(t, next, ps, uid, now, a + b) == {
            let m = saved_all(t, next, ps, uid, now, a);
            saved_all(m.0, m.1, ps, uid, now, b)
        },
    decreases b.len(),
{
    if b.len() == 0 {
        assert(a + b =~= a);
    } else {
        assert((a + b).drop_last() =~= a + b.drop_last());
        assert((a + b).last() == b.last());
        lemma_saved_all_concat(t, next, ps, uid, now, a, b.drop_last());
    }
}

/// A batch is not atomic: an item whose save fails is skipped, and the items
/// before and after it in the same batch still apply, exactly as if the
/// failing item had not been in the batch.
pub proof fn lemma_batch_skips_failure<T: LedgerRow>(
    t: Seq<T>,
    next: i64,
    ps: Seq<crate::data::Project>,
    uid: i64,
    now: i64,
    a: Seq<T::Input>,
    x: T::Input,
    b: Seq<T::Input>,
)
    requires
        ({
            let m = saved_all(t, next, ps, uid, now, a);
            saved(m.0, m.1, ps, uid, now, x).2 is Err
        }),
    ensures
        saved_all(t, next, ps, uid, now, a.push(x) + b) == saved_all(t, next, ps, uid, now, a + b),
{
    lemma_saved_all_concat(t, next, ps, uid, now, a.push(x), b);
    lemma_saved_all_concat(t, next, ps, uid, now, a, b);
    assert(a.push(x).drop_last() =~= a);
}

/// One time entry per user and start: once an entry is inserted, inserting
/// another of the same user with the same start fails with a constraint
/// error and leaves the table and its next id as they were.
pub proof fn lemma_time_start_unique(
    t: Seq<TimeEntry>,
    next: i64,
    ps: Seq<crate::data::Project>,
    uid: i64,
    now: i64,
    a: SaveTimeEntry,
    b: SaveTimeEntry,
)
    requires
        a.id is None,
        b.id is None,
        a.user == b.user,
        a.startdate == b.startdate,
    ensures
        ({
            let s1 = saved(t, next, ps, uid, now, a);
            let s2 = saved(s1.0, s1.1, ps, uid, now, b);
            s1.2 is Ok ==> s2 == (s1.0, s1.1, Err::<i64, StoreError>(StoreError::Constraint))
        }),
{
    let s1 = saved(t, next, ps, uid, now, a);
    if s1.2 is Ok {
        let row = TimeEntry::inserted(s1.1, uid, now, b);
        let last = s1.0.len() - 1;
        assert(s1.0[last].row_key() == row.row_key());
        assert(crate::table::key_taken(s1.0, row.row_key(), -1));
    }
}

/// A ledger batch followed at once by a read of the same project: the read
/// gives what the batch returned, and both show the project's rows as the
/// batch left them, every applied save and delete and nothing else.
pub proof fn lemma_ledger_round_trip(
    before: Store,
    after: Store,
    uid: i64,
    now: i64,
    spt: SaveProjectTime,
    returned: Result<ProjectTime, StoreError>,
    read: Result<ProjectTime, StoreError>,
)
    requires
        after.wf(),
        batch_applied(before, after, uid, now, spt),
        snapshot_read(after, spt.project, returned),
        snapshot_read(after, spt.project, read),
    ensures
        returned is Ok <==> read is Ok,
        returned is Err ==> returned == read,
        returned is Ok ==> {
            let p = returned->Ok_0;
            let q = read->Ok_0;
            &&& p.project@ == q.project@
            &&& p.members@ == q.members@
            &&& p.timeentries@ == q.timeentries@
            &&& p.payentries@ == q.payentries@
            &&& p.allocations@ == q.allocations@
            &&& q.timeentries@ == rows_of_project(
                deleted_all(
                    saved_all(
                        before.timeentries@,
                        before.next_time,
                        before.projects@,
                        uid,
                        now,
                        spt.savetimeentries@,
                    ).0,
                    spt.deletetimeentries@,
                ),
                spt.project,
            )
            &&& q.payentries@ == rows_of_project(
                deleted_all(
                    saved_all(
                        before.payentries@,
                        before.next_pay,
                        before.projects@,
                        uid,
                        now,
                        spt.savepayentries@,
                    ).0,
                    spt.deletepayentries@,
                ),
                spt.project,
            )
            &&& q.allocations@ == rows_of_project(
                deleted_all(
                    saved_all(
                        before.allocations@,
                        before.next_allocation,
                        before.projects@,
                        uid,
                        now,
                        spt.saveallocations@,
                    ).0,
                    spt.deleteallocations@,
                ),
                spt.project,
            )
        },
{
    let pid = spt.project;
    if returned is Ok && read is Ok {
        let p = returned->Ok_0;
        let q = read->Ok_0;
        let i = choose|i: int|
            0 <= i < after.projects@.len() && after.projects@[i].id == pid && p.project@
                == after.projects@[i]@;
        let j = choose|j: int|
            0 <= j < after.projects@.len() && after.projects@[j].id == pid && q.project@
                == after.projects@[j]@;
        if i != j {
            assert(after.projects@[i].id != after.projects@[j].id);
        }
    } else if returned is Ok {
        let p = returned->Ok_0;
        let i = choose|i: int|
            0 <= i < after.projects@.len() && after.projects@[i].id == pid && p.project@
                == after.projects@[i]@;
        assert(has_project(after.projects@, pid));
    } else if read is Ok {
        let q = read->Ok_0;
        let i = choose|i: int|
            0 <= i < after.projects@.len() && after.projects@[i].id == pid && q.project@
                == after.projects@[i]@;
        assert(has_project(after.projects@, pid));
    }
}

/// In a batch of time entries, an item whose save fails at its turn is
/// skipped: the table ends as if the batch had been given without it, so the
/// items before and after it, and every delete, still apply.
pub proof fn lemma_batch_time_item_skipped(
    before: Store,
    after: Store,
    uid: i64,
    now: i64,
    spt: SaveProjectTime,
    a: Seq<SaveTimeEntry>,
    x: SaveTimeEntry,
    b: Seq<SaveTimeEntry>,
)
    requires
        batch_applied(before, after, uid, now, spt),
        spt.savetimeentries@ == a.push(x) + b,
        ({
            let m = saved_all(before.timeentries@, before.next_time, before.projects@, uid, now, a);
            saved(m.0, m.1, before.projects@, uid, now, x).2 is Err
        }),
    ensures
        ({
            let r = saved_all(
                before.timeentries@,
                before.next_time,
                before.projects@,
                uid,
                now,
                a + b,
            );
            &&& after.timeentries@ == deleted_all(r.0, spt.deletetimeentries@)
            &&& after.next_time == r.1
        }),
{
    lemma_batch_skips_failure(
        before.timeentries@,
        before.next_time,
        before.projects@,
        uid,
        now,
        a,
        x,
        b,
    );
}

/// After a batch, no entry named by one of its delete lists remains, and
/// every entry that no save of the batch names and no delete names is still
/// there, unchanged.
pub proof fn lemma_batch_keeps_untouched(
    before: Store,
    after: Store,
    uid: i64,
    now: i64,
    spt: SaveProjectTime,
)
    requires
        before.wf(),
        batch_applied(before, after, uid, now, spt),
    ensures
        forall|k: int|
            0 <= k < spt.deletetimeentries@.len() ==> !has_row(
                after.timeentries@,
                #[trigger] spt.deletetimeentries@[k],
            ),
        forall|k: int|
            0 <= k < spt.deletepayentries@.len() ==> !has_row(
                after.payentries@,
                #[trigger] spt.deletepayentries@[k],
            ),
        forall|k: int|
            0 <= k < spt.deleteallocations@.len() ==> !has_row(
                after.allocations@,
                #[trigger] spt.deleteallocations@[k],
            ),
        forall|i: int|
            0 <= i < before.timeentries@.len() && !names_id::<TimeEntry>(
                spt.savetimeentries@,
                #[trigger] before.timeentries@[i].id,
            ) && !spt.deletetimeentries@.contains(before.timeentries@[i].id) ==> contains_row(
                after.timeentries@,
                before.timeentries@[i],
            ),
        forall|i: int|
            0 <= i < before.payentries@.len() && !names_id::<PayEntry>(
                spt.savepayentries@,
                #[trigger] before.payentries@[i].id,
            ) && !spt.deletepayentries@.contains(before.payentries@[i].id) ==> contains_row(
                after.payentries@,
                before.payentries@[i],
            ),
        forall|i: int|
            0 <= i < before.allocations@.len() && !names_id::<Allocation>(
                spt.saveallocations@,
                #[trigger] before.allocations@[i].id,
            ) && !spt.deleteallocations@.contains(before.allocations@[i].id) ==> contains_row(
                after.allocations@,
                before.allocations@[i],
            ),
{
    let ps = before.projects@;
    lemma_saved_all_keeps(before.timeentries@, before.next_time, ps, uid, now, spt.savetimeentries@);
    let t = saved_all(before.timeentries@, before.next_time, ps, uid, now, spt.savetimeentries@);
    lemma_deleted_all_keeps(t.0, t.1, spt.deletetimeentries@);
    assert forall|i: int|
        0 <= i < before.timeentries@.len() && !names_id::<TimeEntry>(
            spt.savetimeentries@,
            #[trigger] before.timeentries@[i].id,
        ) && !spt.deletetimeentries@.contains(before.timeentries@[i].id) implies contains_row(
        after.timeentries@,
        before.timeentries@[i],
    ) by {
        let r = before.timeentries@[i];
        assert(r.row_id() == r.id);
        let j = choose|j: int| 0 <= j < t.0.len() && t.0[j] == r;
        assert(t.0[j].row_id() == r.id);
    }
    lemma_saved_all_keeps(before.payentries@, before.next_pay, ps, uid, now, spt.savepayentries@);
    let p = saved_all(before.payentries@, before.next_pay, ps, uid, now, spt.savepayentries@);
    lemma_deleted_all_keeps(p.0, p.1, spt.deletepayentries@);
    assert forall|i: int|
        0 <= i < before.payentries@.len() && !names_id::<PayEntry>(
            spt.savepayentries@,
            #[trigger] before.payentries@[i].id,
        ) && !spt.deletepayentries@.contains(before.payentries@[i].id) implies contains_row(
        after.payentries@,
        before.payentries@[i],
    ) by {
        let r = before.payentries@[i];
        assert(r.row_id() == r.id);
        let j = choose|j: int| 0 <= j < p.0.len() && p.0[j] == r;
        assert(p.0[j].row_id() == r.id);
    }
    lemma_saved_all_keeps(
        before.allocations@,
        before.next_allocation,
        ps,
        uid,
        now,
        spt.saveallocations@,
    );
    let a = saved_all(before.allocations@, before.next_allocation, ps, uid, now, spt.saveallocations@);
    lemma_deleted_all_keeps(a.0, a.1, spt.deleteallocations@);
    assert forall|i: int|
        0 <= i < before.allocations@.len() && !names_id::<Allocation>(
            spt.saveallocations@,
            #[trigger] before.allocations@[i].id,
        ) && !spt.deleteallocations@.contains(before.allocations@[i].id) implies contains_row(
        after.allocations@,
        before.allocations@[i],
    ) by {
        let r = before.allocations@[i];
        assert(r.row_id() == r.id);
        let j = choose|j: int| 0 <= j < a.0.len() && a.0[j] == r;
        assert(a.0[j].row_id() == r.id);
    }
}

} // verus!
