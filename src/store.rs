//! The store: projects, memberships, users and the three ledger tables, with
//! the rules a database of this schema enforces on them.
use vstd::prelude::*;
use crate::data::{
    fields_distinct, fields_unique, rate_fits, role_of_text, role_text, scale_rate, scaled_rate, Allocation, MemberRow, PayEntry, Project, ProjectRecord, Role,
    SaveProject, SaveProjectInvoice, SavedProject, TimeEntry, User,
};
use crate::table::{has_project, project_index, table_wf, StoreError};

verus! {

/// All stored data, table by table, with the id each table hands out next.
pub struct Store {
    pub projects: Vec<Project>,
    pub next_project: i64,
    pub members: Vec<MemberRow>,
    pub users: Vec<User>,
    pub timeentries: Vec<TimeEntry>,
    pub next_time: i64,
    pub payentries: Vec<PayEntry>,
    pub next_pay: i64,
    pub allocations: Vec<Allocation>,
    pub next_allocation: i64,
}

/// A membership as a value: project id, user id and stored role text.
pub type MemberView = (i64, i64, Seq<char>);

/// The memberships as values, in table order.
pub open spec fn members_view(m: Seq<MemberRow>) -> Seq<MemberView> {
    m.map_values(|r: MemberRow| (r.project, r.user, r.role@))
}

/// Whether `v` holds a membership of user `uid` in project `pid`.
pub open spec fn has_member(v: Seq<MemberView>, pid: i64, uid: i64) -> bool {
    exists|i: int| 0 <= i < v.len() && #[trigger] v[i].0 == pid && v[i].1 == uid
}

/// The position of the membership of `uid` in `pid`, when there is one.
pub open spec fn member_index(v: Seq<MemberView>, pid: i64, uid: i64) -> int {
    choose|i: int| 0 <= i < v.len() && #[trigger] v[i].0 == pid && v[i].1 == uid
}

/// The role user `uid` holds in project `pid`: none without a membership or
/// when the stored role text names no role.
pub open spec fn role_in(v: Seq<MemberView>, pid: i64, uid: i64) -> Option<Role> {
    if has_member(v, pid, uid) {
        role_of_text(v[member_index(v, pid, uid)].2)
    } else {
        None
    }
}

/// The memberships after granting `uid` the role stored as `text` in `pid`:
/// an existing membership has its role overwritten, else one is appended.
pub open spec fn granted(v: Seq<MemberView>, pid: i64, uid: i64, text: Seq<char>) -> Seq<
    MemberView,
> {
    if has_member(v, pid, uid) {
        v.update(member_index(v, pid, uid), (pid, uid, text))
    } else {
        v.push((pid, uid, text))
    }
}

/// The memberships after revoking that of `uid` in `pid`.
pub open spec fn revoked(v: Seq<MemberView>, pid: i64, uid: i64) -> Seq<MemberView> {
    if has_member(v, pid, uid) {
        v.remove(member_index(v, pid, uid))
    } else {
        v
    }
}

/// Whether no two memberships share project and user.
pub open spec fn members_unique(v: Seq<MemberView>) -> bool {
    forall|i: int, j: int|
        0 <= i < v.len() && 0 <= j < v.len() && i != j ==> (#[trigger] v[i].0 != #[trigger] v[j].0
            || v[i].1 != v[j].1)
}

/// The project record a save without id creates, with id `id` at time `now`.
pub open spec fn created_project(id: i64, now: i64, sp: SaveProject) -> ProjectRecord {
    ProjectRecord {
        id,
        name: sp.name,
        description: sp.description->Some_0,
        due_days: sp.due_days,
        extra_fields: sp.extra_fields@,
        invoice_id_template: sp.invoice_id_template,
        invoice_seq: sp.invoice_seq,
        payer: sp.payer,
        payee: sp.payee,
        generic_task: sp.generic_task,
        public: sp.public,
        rate: scaled_rate(sp.rate),
        currency: sp.currency,
        createdate: now,
        changeddate: now,
    }
}

/// The project record a save with id leaves: everything from the request
/// but the id, the creation time and the invoice counter, changed at `now`.
/// The counter moves only through an invoice save.
pub open spec fn updated_project(p: ProjectRecord, now: i64, sp: SaveProject) -> ProjectRecord {
    ProjectRecord {
        id: p.id,
        createdate: p.createdate,
        invoice_seq: p.invoice_seq,
        ..created_project(p.id, now, sp)
    }
}

/// Whether a project request can be stored: it has a description, its extra
/// fields have distinct names, and its rate fits in thousandths.
pub open spec fn project_input_ok(sp: SaveProject) -> bool {
    &&& sp.description is Some
    &&& fields_unique(sp.extra_fields@)
    &&& rate_fits(sp.rate)
}

/// Whether an invoice save can apply to project `p`: its extra fields have
/// distinct names and the counter does not go down.
pub open spec fn invoice_ok(p: ProjectRecord, si: SaveProjectInvoice) -> bool {
    &&& fields_unique(si.extra_fields@)
    &&& si.invoice_seq >= p.invoice_seq
}

/// The project record an invoice save leaves: the new counter and fields,
/// changed at `now`.
pub open spec fn invoiced_project(p: ProjectRecord, now: i64, si: SaveProjectInvoice) -> ProjectRecord {
    ProjectRecord {
        invoice_seq: si.invoice_seq,
        extra_fields: si.extra_fields@,
        changeddate: now,
        ..p
    }
}

/// What saving project `sp` for user `uid` at `now` does: `after` is the
/// store that `before` becomes and `r` the result.
pub open spec fn project_saved(
    before: Store,
    after: Store,
    uid: i64,
    now: i64,
    sp: SaveProject,
    r: Result<SavedProject, StoreError>,
) -> bool {
    &&& after.users == before.users
    &&& after.timeentries == before.timeentries
    &&& after.payentries == before.payentries
    &&& after.allocations == before.allocations
    &&& match sp.id {
        None => {
            if !project_input_ok(sp) {
                r == Err::<SavedProject, StoreError>(StoreError::Constraint) && after == before
            } else if before.next_project == i64::MAX {
                r == Err::<SavedProject, StoreError>(StoreError::Exhausted) && after == before
            } else {
                let id = before.next_project;
                &&& r == Ok::<SavedProject, StoreError>(SavedProject { id, changeddate: now })
                &&& after.next_project == id + 1
                &&& after.projects@.len() == before.projects@.len() + 1
                &&& after.projects@.drop_last() == before.projects@
                &&& after.projects@.last()@ == created_project(id, now, sp)
                &&& members_view(after.members@) == members_view(
                    before.members@,
                ).push((id, uid, role_text(Role::Admin)))
                &&& !has_member(members_view(before.members@), id, uid)
                &&& role_in(members_view(after.members@), id, uid) == Some(
                    Role::Admin,
                )
            }
        },
        Some(id) => {
            if !has_project(before.projects@, id) {
                r == Err::<SavedProject, StoreError>(StoreError::NotFound) && after == before
            } else if !project_input_ok(sp) {
                r == Err::<SavedProject, StoreError>(StoreError::Constraint) && after == before
            } else {
                &&& r == Ok::<SavedProject, StoreError>(SavedProject { id, changeddate: now })
                &&& after.members == before.members
                &&& after.next_project == before.next_project
                &&& after.projects@.len() == before.projects@.len()
                &&& forall|i: int|
                    0 <= i < before.projects@.len() ==> if before.projects@[i].id
                        == id {
                        after.projects@[i]@ == updated_project(
                            before.projects@[i]@,
                            now,
                            sp,
                        )
                    } else {
                        after.projects@[i] == before.projects@[i]
                    }
            }
        },
    }
}

/// Creating a project grants its creator exactly one membership in it, with
/// the admin role: the new project has no other membership.
pub proof fn lemma_creator_self_grant(
    before: Store,
    after: Store,
    uid: i64,
    now: i64,
    sp: SaveProject,
    r: Result<SavedProject, StoreError>,
)
    requires
        before.wf(),
        project_saved(before, after, uid, now, sp, r),
        sp.id is None,
        r is Ok,
    ensures
        ({
            let v = members_view(after.members@);
            let id = r->Ok_0.id;
            &&& v[v.len() - 1] == (id, uid, role_text(Role::Admin))
            &&& forall|j: int| 0 <= j < v.len() && #[trigger] v[j].0 == id ==> j == v.len() - 1
        }),
{
    let v = members_view(after.members@);
    let ov = members_view(before.members@);
    let id = r->Ok_0.id;
    Store::lemma_members_below(before, id);
    assert forall|j: int| 0 <= j < v.len() && #[trigger] v[j].0 == id implies j == v.len() - 1 by {
        if j < v.len() - 1 {
            assert(v[j] == ov[j]);
        }
    }
}

/// A project that exists stays when ids keep their places.
proof fn lemma_project_kept(before: Seq<Project>, after: Seq<Project>, pid: i64)
    requires
        has_project(before, pid),
        before.len() <= after.len(),
        forall|i: int| 0 <= i < before.len() ==> after[i].id == before[i].id,
    ensures
        has_project(after, pid),
{
    let j = choose|j: int| 0 <= j < before.len() && before[j].id == pid;
    assert(after[j].id == pid);
}

impl Store {
    /// The store's rules: project ids unique and below the next one, one
    /// membership per project and user, each in an existing project,
    /// user ids unique, and each ledger table's own rules.
    pub open spec fn wf(&self) -> bool {
        &&& 1 <= self.next_project
        &&& forall|i: int|
            0 <= i < self.projects@.len() ==> #[trigger] self.projects@[i].id < self.next_project
        &&& forall|i: int, j: int|
            0 <= i < self.projects@.len() && 0 <= j < self.projects@.len() && i != j
                ==> #[trigger] self.projects@[i].id != #[trigger] self.projects@[j].id
        &&& forall|i: int|
            0 <= i < self.members@.len() ==> has_project(
                self.projects@,
                #[trigger] members_view(self.members@)[i].0,
            )
        &&& members_unique(members_view(self.members@))
        &&& forall|i: int, j: int|
            0 <= i < self.users@.len() && 0 <= j < self.users@.len() && i != j
                ==> #[trigger] self.users@[i].id != #[trigger] self.users@[j].id
        &&& forall|i: int|
            0 <= i < self.projects@.len() ==> fields_unique(
                (#[trigger] self.projects@[i])@.extra_fields,
            )
        &&& table_wf(self.timeentries@, self.next_time)
        &&& table_wf(self.payentries@, self.next_pay)
        &&& table_wf(self.allocations@, self.next_allocation)
    }

    /// Every membership names a project id below `next`.
    pub proof fn lemma_members_below(s: Store, next: i64)
        requires
            s.wf(),
            next == s.next_project,
        ensures
            forall|i: int|
                0 <= i < s.members@.len() ==> #[trigger] members_view(s.members@)[i].0 < next,
    {
        assert forall|i: int| 0 <= i < s.members@.len() implies #[trigger] members_view(
            s.members@,
        )[i].0 < next by {
            let x = members_view(s.members@)[i].0;
            let j = choose|j: int| 0 <= j < s.projects@.len() && s.projects@[j].id == x;
            assert(s.projects@[j].id < next);
        }
    }

    /// An empty store.
    pub fn new() -> (r: Store)
        ensures
            r.wf(),
            r.projects@.len() == 0,
            r.members@.len() == 0,
            r.users@.len() == 0,
            r.timeentries@.len() == 0,
            r.payentries@.len() == 0,
            r.allocations@.len() == 0,
            r.next_project == 1 && r.next_time == 1 && r.next_pay == 1 && r.next_allocation == 1,
    {
        Store {
            projects: Vec::new(),
            next_project: 1,
            members: Vec::new(),
            users: Vec::new(),
            timeentries: Vec::new(),
            next_time: 1,
            payentries: Vec::new(),
            next_pay: 1,
            allocations: Vec::new(),
            next_allocation: 1,
        }
    }

    /// Finds the membership of user `uid` in project `pid`.
    pub(crate) fn find_member(&self, pid: i64, uid: i64) -> (r: Option<usize>)
        requires
            self.wf(),
        ensures
            match r {
                Some(i) => i < self.members@.len() && self.members@[i as int].project == pid
                    && self.members@[i as int].user == uid && has_member(
                    members_view(self.members@),
                    pid,
                    uid,
                ) && member_index(members_view(self.members@), pid, uid) == i,
                None => !has_member(members_view(self.members@), pid, uid),
            },
    {
        let mut i: usize = 0;
        while i < self.members.len()
            invariant
                self.wf(),
                i <= self.members@.len(),
                forall|j: int|
                    0 <= j < i ==> !(#[trigger] self.members@[j].project == pid
                        && self.members@[j].user == uid),
            decreases self.members@.len() - i,
        {
            if self.members[i].project == pid && self.members[i].user == uid {
                proof {
                    let v = members_view(self.members@);
                    assert(v[i as int].0 == pid && v[i as int].1 == uid);
                    assert(has_member(v, pid, uid));
                    let k = member_index(v, pid, uid);
                    assert(v[k].0 == pid && v[k].1 == uid);
                    if k != i {
                        assert(v[k].0 != v[i as int].0 || v[k].1 != v[i as int].1);
                    }
                }
                return Some(i);
            }
            i = i + 1;
        }
        proof {
            let v = members_view(self.members@);
            assert forall|j: int| 0 <= j < v.len() implies !(#[trigger] v[j].0 == pid && v[j].1
                == uid) by {
                assert(v[j] == (self.members@[j].project, self.members@[j].user, self.members@[j].role@));
            }
        }
        None
    }

    /// The role user `uid` holds in project `pid`; none without a membership,
    /// and none when the stored role text names no role.
    pub fn member_role(&self, uid: i64, pid: i64) -> (r: Option<Role>)
        requires
            self.wf(),
        ensures
            r == role_in(members_view(self.members@), pid, uid),
    {
        match self.find_member(pid, uid) {
            Some(i) => match Role::from_str(self.members[i].role.as_str()) {
                Ok(role) => Some(role),
                Err(_) => None,
            },
            None => None,
        }
    }

    /// Whether user `uid` is a member of project `pid`, in any role.
    pub fn is_project_member(&self, uid: i64, pid: i64) -> (r: bool)
        requires
            self.wf(),
        ensures
            r == has_member(members_view(self.members@), pid, uid),
    {
        self.find_member(pid, uid).is_some()
    }

    /// The stored project `id`.
    pub fn read_project(&self, id: i64) -> (r: Result<Project, StoreError>)
        requires
            self.wf(),
        ensures
            match r {
                Ok(p) => exists|i: int|
                    0 <= i < self.projects@.len() && self.projects@[i].id == id && p@
                        == self.projects@[i]@,
                Err(e) => e == StoreError::NotFound && !has_project(self.projects@, id),
            },
    {
        match project_index(&self.projects, id) {
            Some(i) => Ok(self.projects[i].duplicate()),
            None => Err(StoreError::NotFound),
        }
    }

    /// Records an invoice on project `si.id`: sets its invoice counter and
    /// extra fields and its change time to `now`, and returns the project as
    /// stored. Fails, changing nothing, when the project does not exist, when
    /// the counter would go down, or when two extra fields share a name.
    pub fn save_project_invoice(&mut self, now: i64, si: SaveProjectInvoice) -> (r: Result<
        Project,
        StoreError,
    >)
        requires
            old(self).wf(),
        ensures
            final(self).wf(),
            match r {
                Ok(p) => {
                    &&& final(self).members == old(self).members
                    &&& final(self).users == old(self).users
                    &&& final(self).timeentries == old(self).timeentries
                    &&& final(self).payentries == old(self).payentries
                    &&& final(self).allocations == old(self).allocations
                    &&& final(self).next_project == old(self).next_project
                    &&& final(self).projects@.len() == old(self).projects@.len()
                    &&& forall|i: int|
                        0 <= i < old(self).projects@.len() ==> if old(self).projects@[i].id
                            == si.id {
                            &&& final(self).projects@[i]@ == invoiced_project(
                                old(self).projects@[i]@,
                                now,
                                si,
                            )
                            &&& p@ == final(self).projects@[i]@
                        } else {
                            final(self).projects@[i] == old(self).projects@[i]
                        }
                    &&& has_project(old(self).projects@, si.id)
                    &&& forall|i: int|
                        0 <= i < old(self).projects@.len() && old(self).projects@[i].id == si.id
                            ==> invoice_ok(old(self).projects@[i]@, si)
                },
                Err(e) => *final(self) == *old(self) && if !has_project(
                    old(self).projects@,
                    si.id,
                ) {
                    e == StoreError::NotFound
                } else {
                    e == StoreError::Constraint && forall|i: int|
                        0 <= i < old(self).projects@.len() && old(self).projects@[i].id == si.id
                            ==> !invoice_ok(old(self).projects@[i]@, si)
                },
            },
    {
        match project_index(&self.projects, si.id) {
            None => Err(StoreError::NotFound),
            Some(i) => {
                proof {
                    assert forall|a: int|
                        0 <= a < old(self).projects@.len() && old(self).projects@[a].id == si.id
                        implies a == i by {
                        if a != i {
                            assert(old(self).projects@[a].id != old(self).projects@[i as int].id);
                        }
                    }
                }
                if si.invoice_seq < self.projects[i].invoice_seq || !fields_distinct(
                    &si.extra_fields,
                ) {
                    return Err(StoreError::Constraint);
                }
                let ghost req = si;
                let old_p = self.projects[i].duplicate();
                let p = Project {
                    invoice_seq: si.invoice_seq,
                    extra_fields: si.extra_fields,
                    changeddate: now,
                    ..old_p
                };
                assert(p@ == invoiced_project(old(self).projects@[i as int]@, now, req));
                let out = p.duplicate();
                self.projects.set(i, p);
                proof {
                    let ps = self.projects@;
                    assert forall|a: int, b: int|
                        0 <= a < ps.len() && 0 <= b < ps.len() && a != b implies #[trigger] ps[a].id
                        != #[trigger] ps[b].id by {
                        if a == i {
                            assert(ps[b] == old(self).projects@[b]);
                        } else if b == i {
                            assert(ps[a] == old(self).projects@[a]);
                        }
                    }
                    assert forall|k: int| 0 <= k < self.members@.len() implies has_project(
                        self.projects@,
                        #[trigger] members_view(self.members@)[k].0,
                    ) by {
                        lemma_project_kept(old(self).projects@, ps, members_view(self.members@)[k].0);
                    }
                    assert forall|a: int|
                        0 <= a < old(self).projects@.len() && old(self).projects@[a].id == req.id
                        implies a == i by {
                        if a != i {
                            assert(old(self).projects@[a].id != old(self).projects@[i as int].id);
                        }
                    }
                }
                Ok(out)
            },
        }
    }

    /// Adds a stored project as it is; an id already taken, or one that
    /// leaves no next id, is refused and nothing changes.
    pub fn load_project(&mut self, p: Project) -> (r: Result<(), StoreError>)
        requires
            old(self).wf(),
        ensures
            final(self).wf(),
            final(self).members == old(self).members,
            final(self).users == old(self).users,
            final(self).timeentries == old(self).timeentries,
            final(self).payentries == old(self).payentries,
            final(self).allocations == old(self).allocations,
            r is Ok ==> final(self).projects@ == old(self).projects@.push(p),
            r is Err ==> *final(self) == *old(self),
            r is Err <==> (p.id == i64::MAX || has_project(old(self).projects@, p.id)
                || !fields_unique(p@.extra_fields)),
    {
        let id = p.id;
        if id == i64::MAX || project_index(&self.projects, id).is_some() || !fields_distinct(
            &p.extra_fields,
        ) {
            return Err(StoreError::Constraint);
        }
        self.projects.push(p);
        if self.next_project <= id {
            self.next_project = id + 1;
        }
        proof {
            let ps = self.projects@;
            assert(ps.drop_last() =~= old(self).projects@);
            assert forall|a: int, b: int|
                0 <= a < ps.len() && 0 <= b < ps.len() && a != b implies #[trigger] ps[a].id
                != #[trigger] ps[b].id by {
                if a == ps.len() - 1 {
                    assert(ps[b] == old(self).projects@[b]);
                } else if b == ps.len() - 1 {
                    assert(ps[a] == old(self).projects@[a]);
                }
            }
            assert forall|a: int| 0 <= a < ps.len() implies #[trigger] ps[a].id
                < self.next_project by {
                if a < ps.len() - 1 {
                    assert(ps[a] == old(self).projects@[a]);
                }
            }
            assert forall|k: int| 0 <= k < self.members@.len() implies has_project(
                self.projects@,
                #[trigger] members_view(self.members@)[k].0,
            ) by {
                lemma_project_kept(old(self).projects@, ps, members_view(self.members@)[k].0);
            }
        }
        Ok(())
    }

    /// Adds a stored membership as it is; one in a missing project, or a
    /// second one of the same user in the same project, is refused and
    /// nothing changes.
    pub fn load_member(&mut self, m: MemberRow) -> (r: Result<(), StoreError>)
        requires
            old(self).wf(),
        ensures
            final(self).wf(),
            final(self).projects == old(self).projects,
            final(self).users == old(self).users,
            final(self).timeentries == old(self).timeentries,
            final(self).payentries == old(self).payentries,
            final(self).allocations == old(self).allocations,
            r is Ok ==> final(self).members@ == old(self).members@.push(m),
            r is Err ==> *final(self) == *old(self),
            r is Err <==> (!has_project(old(self).projects@, m.project) || has_member(
                members_view(old(self).members@),
                m.project,
                m.user,
            )),
    {
        if project_index(&self.projects, m.project).is_none() || self.find_member(
            m.project,
            m.user,
        ).is_some() {
            return Err(StoreError::Constraint);
        }
        let ghost ov = members_view(self.members@);
        self.members.push(m);
        proof {
            let v = members_view(self.members@);
            assert(v =~= ov.push((m.project, m.user, m.role@)));
            assert forall|a: int, b: int|
                0 <= a < v.len() && 0 <= b < v.len() && a != b implies (#[trigger] v[a].0
                != #[trigger] v[b].0 || v[a].1 != v[b].1) by {
                if a == v.len() - 1 {
                    assert(v[b] == ov[b]);
                } else if b == v.len() - 1 {
                    assert(v[a] == ov[a]);
                } else {
                    assert(v[a] == ov[a] && v[b] == ov[b]);
                }
            }
            assert forall|k: int| 0 <= k < self.members@.len() implies has_project(
                self.projects@,
                #[trigger] members_view(self.members@)[k].0,
            ) by {
                if k < ov.len() {
                    assert(v[k] == ov[k]);
                }
            }
        }
        Ok(())
    }

    /// Adds a user known to the authentication service; an id already known
    /// is refused and nothing changes.
    pub fn add_user(&mut self, user: User) -> (r: Result<(), StoreError>)
        requires
            old(self).wf(),
        ensures
            final(self).wf(),
            final(self).projects == old(self).projects,
            final(self).members == old(self).members,
            final(self).timeentries == old(self).timeentries,
            final(self).payentries == old(self).payentries,
            final(self).allocations == old(self).allocations,
            final(self).next_project == old(self).next_project,
            final(self).next_time == old(self).next_time,
            final(self).next_pay == old(self).next_pay,
            final(self).next_allocation == old(self).next_allocation,
            match r {
                Ok(_) => (forall|i: int|
                    0 <= i < old(self).users@.len() ==> #[trigger] old(self).users@[i].id
                        != user.id) && final(self).users@ == old(self).users@.push(user),
                Err(e) => e == StoreError::Constraint && (exists|i: int|
                    0 <= i < old(self).users@.len() && #[trigger] old(self).users@[i].id
                        == user.id) && *final(self) == *old(self),
            },
    {
        let mut i: usize = 0;
        while i < self.users.len()
            invariant
                self.wf(),
                *self == *old(self),
                i <= self.users@.len(),
                forall|j: int| 0 <= j < i ==> #[trigger] self.users@[j].id != user.id,
            decreases self.users@.len() - i,
        {
            if self.users[i].id == user.id {
                return Err(StoreError::Constraint);
            }
            i = i + 1;
        }
        self.users.push(user);
        proof {
            let us = self.users@;
            assert forall|a: int, b: int|
                0 <= a < us.len() && 0 <= b < us.len() && a != b implies #[trigger] us[a].id
                != #[trigger] us[b].id by {
                if a == us.len() - 1 {
                    assert(us[b] == old(self).users@[b]);
                } else if b == us.len() - 1 {
                    assert(us[a] == old(self).users@[a]);
                }
            }
        }
        Ok(())
    }

    /// Every known user, in table order.
    pub fn user_list(&self) -> (r: Vec<User>)
        ensures
            r@ == self.users@,
    {
        let mut r: Vec<User> = Vec::new();
        let mut i: usize = 0;
        while i < self.users.len()
            invariant
                i <= self.users@.len(),
                r@ == self.users@.subrange(0, i as int),
            decreases self.users@.len() - i,
        {
            r.push(User { id: self.users[i].id, name: self.users[i].name.clone() });
            assert(r@ =~= self.users@.subrange(0, i + 1));
            i = i + 1;
        }
        assert(self.users@.subrange(0, i as int) =~= self.users@);
        r
    }

    /// Saves a project. Without an id it creates the project under a fresh id,
    /// created and changed at `now`, together with one membership granting
    /// the creator `uid` the admin role. With an id it rewrites that project
    /// from the request, keeps its id and creation time, and sets the change
    /// time to `now`. A project without description is refused, as is an id
    /// that names no project.
    pub fn save_project(&mut self, uid: i64, now: i64, sp: SaveProject) -> (r: Result<
        SavedProject,
        StoreError,
    >)
        requires
            old(self).wf(),
        ensures
            final(self).wf(),
            project_saved(*old(self), *final(self), uid, now, sp, r),
    {
        match sp.id {
            None => {
                let rate = match scale_rate(sp.rate) {
                    Some(r) => r,
                    None => return Err(StoreError::Constraint),
                };
                if sp.description.is_none() || !fields_distinct(&sp.extra_fields) {
                    return Err(StoreError::Constraint);
                }
                let id = self.next_project;
                if id == i64::MAX {
                    return Err(StoreError::Exhausted);
                }
                let ghost req = sp;
                let p = Project {
                    id,
                    name: sp.name,
                    description: sp.description.unwrap(),
                    due_days: sp.due_days,
                    extra_fields: sp.extra_fields,
                    invoice_id_template: sp.invoice_id_template,
                    invoice_seq: sp.invoice_seq,
                    payer: sp.payer,
                    payee: sp.payee,
                    generic_task: sp.generic_task,
                    public: sp.public,
                    rate,
                    currency: sp.currency,
                    createdate: now,
                    changeddate: now,
                };
                assert(p@ == created_project(id, now, req));
                self.projects.push(p);
                self.next_project = id + 1;
                let role = Role::Admin.to_string();
                self.members.push(MemberRow { project: id, user: uid, role });
                proof {
                    let ov = members_view(old(self).members@);
                    let v = members_view(self.members@);
                    assert(v =~= ov.push((id, uid, role_text(Role::Admin))));
                    assert(self.projects@.drop_last() =~= old(self).projects@);
                    Store::lemma_members_below(*old(self), id);
                    assert(v[v.len() - 1].0 == id && v[v.len() - 1].1 == uid);
                    assert(has_member(v, id, uid));
                    let k = member_index(v, id, uid);
                    if k != v.len() - 1 {
                        assert(ov[k].0 == id);
                    }
                    crate::data::lemma_role_text_round_trip(Role::Admin);
                    let ps = self.projects@;
                    assert forall|i: int, j: int|
                        0 <= i < ps.len() && 0 <= j < ps.len() && i != j implies #[trigger] ps[i].id
                        != #[trigger] ps[j].id by {
                        if i == ps.len() - 1 {
                            assert(ps[j] == old(self).projects@[j]);
                        } else if j == ps.len() - 1 {
                            assert(ps[i] == old(self).projects@[i]);
                        }
                    }
                    assert forall|i: int, j: int|
                        0 <= i < v.len() && 0 <= j < v.len() && i != j implies (#[trigger] v[i].0
                        != #[trigger] v[j].0 || v[i].1 != v[j].1) by {
                        if i == v.len() - 1 {
                            assert(v[j] == ov[j]);
                        } else if j == v.len() - 1 {
                            assert(v[i] == ov[i]);
                        } else {
                            assert(v[i] == ov[i] && v[j] == ov[j]);
                        }
                    }
                    assert forall|i: int| 0 <= i < self.members@.len() implies has_project(
                        self.projects@,
                        #[trigger] members_view(self.members@)[i].0,
                    ) by {
                        if i == v.len() - 1 {
                            assert(self.projects@[ps.len() - 1].id == id);
                        } else {
                            assert(v[i] == ov[i]);
                            lemma_project_kept(old(self).projects@, ps, ov[i].0);
                        }
                    }
                }
                Ok(SavedProject { id, changeddate: now })
            },
            Some(id) => {
                match project_index(&self.projects, id) {
                    None => Err(StoreError::NotFound),
                    Some(i) => {
                        let rate = match scale_rate(sp.rate) {
                            Some(r) => r,
                            None => return Err(StoreError::Constraint),
                        };
                        if sp.description.is_none() || !fields_distinct(&sp.extra_fields) {
                            return Err(StoreError::Constraint);
                        }
                        let ghost req = sp;
                        let createdate = self.projects[i].createdate;
                        let invoice_seq = self.projects[i].invoice_seq;
                        let p = Project {
                            id,
                            name: sp.name,
                            description: sp.description.unwrap(),
                            due_days: sp.due_days,
                            extra_fields: sp.extra_fields,
                            invoice_id_template: sp.invoice_id_template,
                            invoice_seq,
                            payer: sp.payer,
                            payee: sp.payee,
                            generic_task: sp.generic_task,
                            public: sp.public,
                            rate,
                            currency: sp.currency,
                            createdate,
                            changeddate: now,
                        };
                        assert(p@ == updated_project(old(self).projects@[i as int]@, now, req));
                        self.projects.set(i, p);
                        proof {
                            let ps = self.projects@;
                            assert forall|a: int, b: int|
                                0 <= a < ps.len() && 0 <= b < ps.len() && a != b implies #[trigger] ps[a].id
                                != #[trigger] ps[b].id by {
                                if a == i {
                                    assert(ps[b] == old(self).projects@[b]);
                                } else if b == i {
                                    assert(ps[a] == old(self).projects@[a]);
                                }
                            }
                            assert forall|k: int| 0 <= k < self.members@.len() implies has_project(
                                self.projects@,
                                #[trigger] members_view(self.members@)[k].0,
                            ) by {
                                lemma_project_kept(
                                    old(self).projects@,
                                    ps,
                                    members_view(self.members@)[k].0,
                                );
                            }
                        }
                        Ok(SavedProject { id, changeddate: now })
                    },
                }
            },
        }
    }
}

} // verus!
