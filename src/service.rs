//! The operations a logged-in user asks for, each decided by the role rules
//! before the store is touched, and the names under which they are asked.
use vstd::prelude::*;
use crate::auth::{allows, edit_operation, permitted, project_edit_operation, Operation};
use crate::data::{ProjectEdit, ProjectTime, SaveProjectEdit, SaveProjectTime, SavedProjectEdit};
use crate::ledger::{batch_applied, snapshot_read};
use crate::membership::{members_listed, project_edit_saved};
use crate::store::{has_member, members_view, project_saved, role_in, Store};
use crate::table::{has_project, StoreError};
use crate::text::str_equal;

verus! {

/// The result of a gated operation: done, or refused by the role rules.
#[derive(Clone, Debug)]
pub enum Outcome<T> {
    Done(T),
    Denied,
}

/// The role that decides a project edit: none for a new project, else the
/// caller's role in the project.
pub open spec fn edit_role(s: Store, uid: i64, project_id: Option<i64>) -> Option<crate::data::Role> {
    match project_id {
        Some(pid) => role_in(members_view(s.members@), pid, uid),
        None => None,
    }
}

/// Saves a project edit when the rules allow it: anyone may create a
/// project, only an admin of the project may edit it. A refused edit changes
/// nothing.
pub fn handle_save_project_edit(s: &mut Store, uid: i64, now: i64, edit: SaveProjectEdit) -> (r:
    Result<Outcome<SavedProjectEdit>, StoreError>)
    requires
        old(s).wf(),
    ensures
        final(s).wf(),
        permitted(edit_role(*old(s), uid, edit.project.id), edit_operation(edit.project.id)) <==> !(
        r matches Ok(Outcome::Denied)),
        r matches Ok(Outcome::Denied) ==> *final(s) == *old(s),
        r matches Err(e) ==> project_saved(*old(s), *final(s), uid, now, edit.project, Err(e)),
        r matches Ok(Outcome::Done(out)) ==> project_edit_saved(
            *old(s),
            *final(s),
            uid,
            now,
            edit,
            Ok(out),
        ),
{
    let op = project_edit_operation(edit.project.id);
    let role = match edit.project.id {
        Some(pid) => s.member_role(uid, pid),
        None => None,
    };
    if allows(role, op) {
        match s.save_project_edit(uid, now, edit) {
            Ok(out) => Ok(Outcome::Done(out)),
            Err(e) => Err(e),
        }
    } else {
        Ok(Outcome::Denied)
    }
}

/// A project with its members, for a caller who holds any role in it.
pub fn handle_get_project_edit(s: &Store, uid: i64, pid: i64) -> (r: Result<
    Outcome<ProjectEdit>,
    StoreError,
>)
    requires
        s.wf(),
    ensures
        permitted(role_in(members_view(s.members@), pid, uid), Operation::ViewProject) <==> !(
        r matches Ok(Outcome::Denied)),
        r matches Ok(Outcome::Done(pe)) ==> pe.members@ == members_listed(
            s.members@,
            s.users@,
            pid,
        ) && exists|i: int|
            0 <= i < s.projects@.len() && s.projects@[i].id == pid && pe.project@
                == s.projects@[i]@,
        r matches Err(e) ==> e == StoreError::NotFound && !has_project(s.projects@, pid),
{
    if allows(s.member_role(uid, pid), Operation::ViewProject) {
        match s.read_project_edit(pid) {
            Ok(pe) => Ok(Outcome::Done(pe)),
            Err(e) => Err(e),
        }
    } else {
        Ok(Outcome::Denied)
    }
}

/// A project's snapshot, for a caller who holds any role in it.
pub fn handle_get_project_time(s: &Store, uid: i64, pid: i64) -> (r: Result<
    Outcome<ProjectTime>,
    StoreError,
>)
    requires
        s.wf(),
    ensures
        permitted(role_in(members_view(s.members@), pid, uid), Operation::ViewProject) <==> !(
        r matches Ok(Outcome::Denied)),
        r matches Ok(Outcome::Done(pt)) ==> snapshot_read(*s, pid, Ok(pt)),
        r matches Err(e) ==> snapshot_read(*s, pid, Err(e)),
{
    if allows(s.member_role(uid, pid), Operation::ViewProject) {
        match s.read_project_time(pid) {
            Ok(pt) => Ok(Outcome::Done(pt)),
            Err(e) => Err(e),
        }
    } else {
        Ok(Outcome::Denied)
    }
}

/// Applies a ledger batch for a caller who is an admin or a member of the
/// project; an observer or a non-member is refused and nothing changes.
pub fn handle_save_project_time(s: &mut Store, uid: i64, now: i64, spt: SaveProjectTime) -> (r:
    Result<Outcome<ProjectTime>, StoreError>)
    requires
        old(s).wf(),
    ensures
        final(s).wf(),
        permitted(role_in(members_view(old(s).members@), spt.project, uid), Operation::SaveProjectTime)
            <==> !(r matches Ok(Outcome::Denied)),
        r matches Ok(Outcome::Denied) ==> *final(s) == *old(s),
        !(r matches Ok(Outcome::Denied)) ==> batch_applied(*old(s), *final(s), uid, now, spt),
        r matches Ok(Outcome::Done(pt)) ==> snapshot_read(*final(s), spt.project, Ok(pt)),
        r matches Err(e) ==> snapshot_read(*final(s), spt.project, Err(e)),
{
    let role = s.member_role(uid, spt.project);
    if allows(role, Operation::SaveProjectTime) {
        proof {
            let v = members_view(old(s).members@);
            assert(has_member(v, spt.project, uid));
        }
        match s.save_project_time(uid, now, spt) {
            Ok(pt) => Ok(Outcome::Done(pt)),
            Err(e) => Err(e),
        }
    } else {
        Ok(Outcome::Denied)
    }
}

/// A project's snapshot for a caller who need not log in: given only when
/// the project is public.
pub fn handle_public_project_time(s: &Store, pid: i64) -> (r: Result<
    Outcome<ProjectTime>,
    StoreError,
>)
    requires
        s.wf(),
    ensures
        r matches Ok(Outcome::Done(pt)) ==> pt.project.public && snapshot_read(*s, pid, Ok(pt)),
        r matches Ok(Outcome::Denied) ==> exists|i: int|
            0 <= i < s.projects@.len() && s.projects@[i].id == pid && !s.projects@[i].public,
        r matches Err(e) ==> snapshot_read(*s, pid, Err(e)),
{
    match s.read_project_time(pid) {
        Ok(pt) => if pt.project.public {
            Ok(Outcome::Done(pt))
        } else {
            Ok(Outcome::Denied)
        },
        Err(e) => Err(e),
    }
}

/// The operations a logged-in user can name in a request.
#[derive(Clone, Copy, Debug, PartialEq, Eq, Structural)]
pub enum RequestKind {
    GetProjectList,
    SaveProjectEdit,
    GetProjectEdit,
    GetProjectTime,
    SaveProjectTime,
    GetUserTime,
    GetAllUsers,
}

/// The name under which an operation is requested.
pub open spec fn kind_name(k: RequestKind) -> Seq<char> {
    match k {
        RequestKind::GetProjectList => "GetProjectList"@,
        RequestKind::SaveProjectEdit => "SaveProjectEdit"@,
        RequestKind::GetProjectEdit => "GetProjectEdit"@,
        RequestKind::GetProjectTime => "GetProjectTime"@,
        RequestKind::SaveProjectTime => "SaveProjectTime"@,
        RequestKind::GetUserTime => "GetUserTime"@,
        RequestKind::GetAllUsers => "GetAllUsers"@,
    }
}

impl RequestKind {
    /// The name under which this operation is requested.
    pub fn name(&self) -> (r: &'static str)
        ensures
            r@ == kind_name(*self),
    {
        match self {
            RequestKind::GetProjectList => "GetProjectList",
            RequestKind::SaveProjectEdit => "SaveProjectEdit",
            RequestKind::GetProjectEdit => "GetProjectEdit",
            RequestKind::GetProjectTime => "GetProjectTime",
            RequestKind::SaveProjectTime => "SaveProjectTime",
            RequestKind::GetUserTime => "GetUserTime",
            RequestKind::GetAllUsers => "GetAllUsers",
        }
    }
}

/// The operation a request names; an unknown name names none.
pub fn request_kind(what: &str) -> (r: Option<RequestKind>)
    ensures
        match r {
            Some(k) => what@ == kind_name(k),
            None => forall|k: RequestKind| what@ != kind_name(k),
        },
{
    let kinds = [
        RequestKind::GetProjectList,
        RequestKind::SaveProjectEdit,
        RequestKind::GetProjectEdit,
        RequestKind::GetProjectTime,
        RequestKind::SaveProjectTime,
        RequestKind::GetUserTime,
        RequestKind::GetAllUsers,
    ];
    let mut i: usize = 0;
    while i < 7
        invariant
            i <= 7,
            kinds@ == seq![
                RequestKind::GetProjectList,
                RequestKind::SaveProjectEdit,
                RequestKind::GetProjectEdit,
                RequestKind::GetProjectTime,
                RequestKind::SaveProjectTime,
                RequestKind::GetUserTime,
                RequestKind::GetAllUsers,
            ],
            forall|j: int| 0 <= j < i ==> what@ != kind_name(#[trigger] kinds@[j]),
        decreases 7 - i,
    {
        let k = kinds[i];
        if str_equal(what, k.name()) {
            return Some(k);
        }
        i = i + 1;
    }
    assert forall|k: RequestKind| what@ != kind_name(k) by {
        match k {
            RequestKind::GetProjectList => assert(kinds@[0] == k),
            RequestKind::SaveProjectEdit => assert(kinds@[1] == k),
            RequestKind::GetProjectEdit => assert(kinds@[2] == k),
            RequestKind::GetProjectTime => assert(kinds@[3] == k),
            RequestKind::SaveProjectTime => assert(kinds@[4] == k),
            RequestKind::GetUserTime => assert(kinds@[5] == k),
            RequestKind::GetAllUsers => assert(kinds@[6] == k),
        }
    }
    None
}

} // verus!
