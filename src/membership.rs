//! Memberships: granting and revoking roles, listing a project's members,
//! resolving invitations when a user is created, and project edits.
use vstd::prelude::*;
use crate::data::{
    role_of_text, role_text, ProjectEdit, ProjectMember, Role, SaveProjectEdit, SaveProjectMember,
    SavedProject, SavedProjectEdit, User, UserInviteData, UserInviteProject, MemberRow,
};
use crate::store::{
    granted, member_index, members_view, project_saved, revoked, role_in, MemberView, Store,
};
use crate::table::{has_project, StoreError};

verus! {

/// The memberships after each change of `changes` to project `pid`, in turn:
/// a change with the delete flag revokes, any other grants its role.
pub open spec fn member_edits(v: Seq<MemberView>, pid: i64, changes: Seq<SaveProjectMember>) -> Seq<
    MemberView,
>
    decreases changes.len(),
{
    if changes.len() == 0 {
        v
    } else {
        let before = member_edits(v, pid, changes.drop_last());
        let c = changes.last();
        if c.delete {
            revoked(before, pid, c.id)
        } else {
            granted(before, pid, c.id, role_text(c.role))
        }
    }
}

/// The memberships after resolving the invitations `ps` for new user `uid`
/// made by `creator`: each project's role is granted only where the creator
/// is an admin of that project at that point; the others are dropped.
pub open spec fn invites_resolved(
    v: Seq<MemberView>,
    creator: i64,
    uid: i64,
    ps: Seq<UserInviteProject>,
) -> Seq<MemberView>
    decreases ps.len(),
{
    if ps.len() == 0 {
        v
    } else {
        let before = invites_resolved(v, creator, uid, ps.drop_last());
        let p = ps.last();
        if role_in(before, p.id, creator) == Some(Role::Admin) {
            granted(before, p.id, uid, role_text(p.role))
        } else {
            before
        }
    }
}

/// The name of user `uid`, if the user is known.
pub open spec fn user_name(users: Seq<User>, uid: i64) -> Option<String>
    decreases users.len(),
{
    if users.len() == 0 {
        None
    } else if users.last().id == uid {
        Some(users.last().name)
    } else {
        user_name(users.drop_last(), uid)
    }
}

/// The members of project `pid` as listed, in table order: each membership
/// of a known user whose role text names a role; the others are left out.
pub open spec fn members_listed(m: Seq<MemberRow>, users: Seq<User>, pid: i64) -> Seq<ProjectMember>
    decreases m.len(),
{
    if m.len() == 0 {
        Seq::empty()
    } else {
        let before = members_listed(m.drop_last(), users, pid);
        let r = m.last();
        if r.project == pid && user_name(users, r.user) is Some && role_of_text(r.role@) is Some {
            before.push(
                ProjectMember {
                    id: r.user,
                    name: user_name(users, r.user)->Some_0,
                    role: role_of_text(r.role@)->Some_0,
                },
            )
        } else {
            before
        }
    }
}

/// Whether `after` differs from `before` at most in its memberships.
pub open spec fn only_members_changed(before: Store, after: Store) -> bool {
    &&& after.projects == before.projects
    &&& after.next_project == before.next_project
    &&& after.users == before.users
    &&& after.timeentries == before.timeentries
    &&& after.next_time == before.next_time
    &&& after.payentries == before.payentries
    &&& after.next_pay == before.next_pay
    &&& after.allocations == before.allocations
    &&& after.next_allocation == before.next_allocation
}

/// What saving project edit `edit` for user `uid` at `now` does: `after`
/// is the store that `before` becomes and `r` the result. The project is
/// saved as by `project_saved`; the member changes then apply to the saved
/// project; the result is the project and its members as then stored.
pub open spec fn project_edit_saved(
    before: Store,
    after: Store,
    uid: i64,
    now: i64,
    edit: SaveProjectEdit,
    r: Result<SavedProjectEdit, StoreError>,
) -> bool {
    match r {
        Ok(out) => exists|mid: Store|
            {
                &&& #[trigger] project_saved(
                    before,
                    mid,
                    uid,
                    now,
                    edit.project,
                    Ok(SavedProject { id: out.project.id, changeddate: now }),
                )
                &&& only_members_changed(mid, after)
                &&& members_view(after.members@) == member_edits(
                    members_view(mid.members@),
                    out.project.id,
                    edit.members@,
                )
                &&& exists|i: int|
                    0 <= i < after.projects@.len() && after.projects@[i].id
                        == out.project.id && out.project@ == after.projects@[i]@
                &&& out.members@ == members_listed(
                    after.members@,
                    after.users@,
                    out.project.id,
                )
            },
        Err(e) => project_saved(before, after, uid, now, edit.project, Err(e)),
    }
}

impl Store {
    /// Grants user `uid` the role `role` in existing project `pid`,
    /// overwriting any role held before.
    fn grant(&mut self, pid: i64, uid: i64, role: Role)
        requires
            old(self).wf(),
            has_project(old(self).projects@, pid),
        ensures
            final(self).wf(),
            only_members_changed(*old(self), *final(self)),
            members_view(final(self).members@) == granted(
                members_view(old(self).members@),
                pid,
                uid,
                role_text(role),
            ),
    {
        let text = role.to_string();
        let ghost ov = members_view(self.members@);
        let found = self.find_member(pid, uid);
        match found {
            Some(i) => {
                self.members.set(i, MemberRow { project: pid, user: uid, role: text });
                proof {
                    let v = members_view(self.members@);
                    assert(v =~= ov.update(i as int, (pid, uid, role_text(role))));
                    assert forall|a: int, b: int|
                        0 <= a < v.len() && 0 <= b < v.len() && a != b implies (#[trigger] v[a].0
                        != #[trigger] v[b].0 || v[a].1 != v[b].1) by {
                        assert(ov[a].0 != ov[b].0 || ov[a].1 != ov[b].1);
                    }
                    assert forall|k: int| 0 <= k < self.members@.len() implies has_project(
                        self.projects@,
                        #[trigger] members_view(self.members@)[k].0,
                    ) by {
                        if k != i {
                            assert(v[k] == ov[k]);
                        }
                    }
                }
            },
            None => {
                self.members.push(MemberRow { project: pid, user: uid, role: text });
                proof {
                    let v = members_view(self.members@);
                    assert(v =~= ov.push((pid, uid, role_text(role))));
                    assert forall|a: int, b: int|
                        0 <= a < v.len() && 0 <= b < v.len() && a != b implies (#[trigger] v[a].0
                        != #[trigger] v[b].0 || v[a].1 != v[b].1) by {
                        if a == v.len() - 1 {
                            assert(v[b] == ov[b]);
                        } else if b == v.len() - 1 {
                            assert(v[a] == ov[a]);
                        } else {
                            assert(v[a] == ov[a] && v[b] == ov[b]);
                        }
                    }
                    assert forall|k: int| 0 <= k < self.members@.len() implies has_project(
                        self.projects@,
                        #[trigger] members_view(self.members@)[k].0,
                    ) by {
                        if k < ov.len() {
                            assert(v[k] == ov[k]);
                        }
                    }
                }
            },
        }
    }

    /// Revokes the membership of user `uid` in project `pid`, if there is one.
    fn revoke(&mut self, pid: i64, uid: i64)
        requires
            old(self).wf(),
        ensures
            final(self).wf(),
            only_members_changed(*old(self), *final(self)),
            members_view(final(self).members@) == revoked(members_view(old(self).members@), pid, uid),
    {
        let ghost ov = members_view(self.members@);
        match self.find_member(pid, uid) {
            Some(i) => {
                self.members.remove(i);
                proof {
                    let v = members_view(self.members@);
                    assert(v =~= ov.remove(i as int));
                    assert forall|a: int| 0 <= a < v.len() implies v[a] == ov[if a < i {
                        a
                    } else {
                        a + 1
                    }] by {}
                    assert forall|a: int, b: int|
                        0 <= a < v.len() && 0 <= b < v.len() && a != b implies (#[trigger] v[a].0
                        != #[trigger] v[b].0 || v[a].1 != v[b].1) by {
                        assert(v[a] == ov[if a < i { a } else { a + 1 }]);
                        assert(v[b] == ov[if b < i { b } else { b + 1 }]);
                    }
                    assert forall|k: int| 0 <= k < self.members@.len() implies has_project(
                        self.projects@,
                        #[trigger] members_view(self.members@)[k].0,
                    ) by {
                        assert(v[k] == ov[if k < i { k } else { k + 1 }]);
                    }
                }
            },
            None => {},
        }
    }

    /// The name of user `uid`, if the user is known.
    fn find_user_name(&self, uid: i64) -> (r: Option<String>)
        ensures
            r == user_name(self.users@, uid),
    {
        let mut found: Option<String> = None;
        let mut i: usize = 0;
        while i < self.users.len()
            invariant
                i <= self.users@.len(),
                found == user_name(self.users@.subrange(0, i as int), uid),
            decreases self.users@.len() - i,
        {
            proof {
                assert(self.users@.subrange(0, i + 1).drop_last() =~= self.users@.subrange(
                    0,
                    i as int,
                ));
            }
            if self.users[i].id == uid {
                found = Some(self.users[i].name.clone());
            }
            i = i + 1;
        }
        assert(self.users@.subrange(0, i as int) =~= self.users@);
        found
    }

    /// The members of project `pid`, in table order, with their names and
    /// roles; a membership of an unknown user or with a role text that names
    /// no role is left out. Fails when the project does not exist.
    pub fn member_list(&self, pid: i64) -> (r: Result<Vec<ProjectMember>, StoreError>)
        requires
            self.wf(),
        ensures
            match r {
                Ok(v) => has_project(self.projects@, pid) && v@ == members_listed(
                    self.members@,
                    self.users@,
                    pid,
                ),
                Err(e) => e == StoreError::NotFound && !has_project(self.projects@, pid),
            },
    {
        if crate::table::project_index(&self.projects, pid).is_none() {
            return Err(StoreError::NotFound);
        }
        let mut r: Vec<ProjectMember> = Vec::new();
        let mut i: usize = 0;
        while i < self.members.len()
            invariant
                i <= self.members@.len(),
                r@ == members_listed(self.members@.subrange(0, i as int), self.users@, pid),
            decreases self.members@.len() - i,
        {
            proof {
                assert(self.members@.subrange(0, i + 1).drop_last() =~= self.members@.subrange(
                    0,
                    i as int,
                ));
            }
            let m = &self.members[i];
            if m.project == pid {
                match self.find_user_name(m.user) {
                    Some(name) => match Role::from_str(m.role.as_str()) {
                        Ok(role) => {
                            r.push(ProjectMember { id: m.user, name, role });
                        },
                        Err(_) => {},
                    },
                    None => {},
                }
            }
            i = i + 1;
        }
        assert(self.members@.subrange(0, i as int) =~= self.members@);
        Ok(r)
    }

    /// Applies each change of `changes` to the members of existing project
    /// `pid`, in turn.
    fn apply_member_edits(&mut self, pid: i64, changes: &Vec<SaveProjectMember>)
        requires
            old(self).wf(),
            has_project(old(self).projects@, pid),
        ensures
            final(self).wf(),
            only_members_changed(*old(self), *final(self)),
            members_view(final(self).members@) == member_edits(
                members_view(old(self).members@),
                pid,
                changes@,
            ),
    {
        let mut i: usize = 0;
        while i < changes.len()
            invariant
                i <= changes@.len(),
                self.wf(),
                has_project(self.projects@, pid),
                only_members_changed(*old(self), *self),
                members_view(self.members@) == member_edits(
                    members_view(old(self).members@),
                    pid,
                    changes@.subrange(0, i as int),
                ),
            decreases changes@.len() - i,
        {
            let c = changes[i];
            if c.delete {
                self.revoke(pid, c.id);
            } else {
                self.grant(pid, c.id, c.role);
            }
            proof {
                assert(changes@.subrange(0, i + 1).drop_last() =~= changes@.subrange(0, i as int));
            }
            i = i + 1;
        }
        assert(changes@.subrange(0, i as int) =~= changes@);
    }

    /// Saves a project and then changes its members, in the order given.
    /// The save is that of `save_project`; when it fails nothing changes.
    /// Returns the project as stored and its members as listed afterwards.
    pub fn save_project_edit(&mut self, uid: i64, now: i64, edit: SaveProjectEdit) -> (r: Result<
        SavedProjectEdit,
        StoreError,
    >)
        requires
            old(self).wf(),
        ensures
            final(self).wf(),
            project_edit_saved(*old(self), *final(self), uid, now, edit, r),
    {
        let ghost sp = edit.project;
        let saved = match self.save_project(uid, now, edit.project) {
            Ok(s) => s,
            Err(e) => return Err(e),
        };
        let ghost mid = *self;
        proof {
            if sp.id is None {
                assert(self.projects@.last().id == saved.id);
                assert(has_project(self.projects@, saved.id));
            } else {
                let k = choose|k: int|
                    0 <= k < old(self).projects@.len() && old(self).projects@[k].id == saved.id;
                assert(self.projects@[k].id == saved.id);
            }
        }
        self.apply_member_edits(saved.id, &edit.members);
        let project = match self.read_project(saved.id) {
            Ok(p) => p,
            Err(e) => return Err(e),
        };
        let members = match self.member_list(saved.id) {
            Ok(m) => m,
            Err(e) => return Err(e),
        };
        let out = SavedProjectEdit { project, members };
        assert(project_saved(
            *old(self),
            mid,
            uid,
            now,
            sp,
            Ok(SavedProject { id: out.project.id, changeddate: now }),
        ));
        Ok(out)
    }

    /// Project `pid` with its members as listed; fails when the project does
    /// not exist.
    pub fn read_project_edit(&self, pid: i64) -> (r: Result<ProjectEdit, StoreError>)
        requires
            self.wf(),
        ensures
            match r {
                Ok(pe) => {
                    &&& exists|i: int|
                        0 <= i < self.projects@.len() && self.projects@[i].id == pid
                            && pe.project@ == self.projects@[i]@
                    &&& pe.members@ == members_listed(self.members@, self.users@, pid)
                },
                Err(e) => e == StoreError::NotFound && !has_project(self.projects@, pid),
            },
    {
        let project = match self.read_project(pid) {
            Ok(p) => p,
            Err(e) => return Err(e),
        };
        let members = match self.member_list(pid) {
            Ok(m) => m,
            Err(e) => return Err(e),
        };
        Ok(ProjectEdit { project, members })
    }

    /// Resolves the invitations a new user `uid` arrives with: for each
    /// invited project, the role is granted only when the creator `creator`
    /// is an admin of that project; other invitations are dropped. Without
    /// invitation data or without a creator nothing changes.
    pub fn on_new_user(&mut self, invite: Option<UserInviteData>, creator: Option<i64>, uid: i64)
        requires
            old(self).wf(),
        ensures
            final(self).wf(),
            only_members_changed(*old(self), *final(self)),
            match (invite, creator) {
                (Some(d), Some(c)) => members_view(final(self).members@) == invites_resolved(
                    members_view(old(self).members@),
                    c,
                    uid,
                    d.projects@,
                ),
                _ => *final(self) == *old(self),
            },
    {
        let d = match invite {
            Some(d) => d,
            None => return ,
        };
        let c = match creator {
            Some(c) => c,
            None => return ,
        };
        let ps = d.projects;
        let mut i: usize = 0;
        while i < ps.len()
            invariant
                i <= ps@.len(),
                self.wf(),
                only_members_changed(*old(self), *self),
                members_view(self.members@) == invites_resolved(
                    members_view(old(self).members@),
                    c,
                    uid,
                    ps@.subrange(0, i as int),
                ),
            decreases ps@.len() - i,
        {
            let p = ps[i];
            match self.member_role(c, p.id) {
                Some(Role::Admin) => {
                    proof {
                        let v = members_view(self.members@);
                        let k = member_index(v, p.id, c);
                        assert(has_project(self.projects@, v[k].0));
                    }
                    self.grant(p.id, uid, p.role);
                },
                _ => {},
            }
            proof {
                assert(ps@.subrange(0, i + 1).drop_last() =~= ps@.subrange(0, i as int));
            }
            i = i + 1;
        }
        assert(ps@.subrange(0, i as int) =~= ps@);
    }
}

} // verus!
