//! Which roles may perform which operations on a project.
use vstd::prelude::*;
use crate::data::Role;

verus! {

/// The kinds of operation that the role rules decide on.
#[derive(Clone, Copy, Debug, PartialEq, Eq, Structural)]
pub enum Operation {
    /// Create a new project; the caller holds no role in it yet.
    CreateProject,
    /// Change a project's metadata or its member list.
    EditProject,
    /// Read a project, its members and its ledger.
    ViewProject,
    /// Save a batch of time, pay and allocation entries.
    SaveProjectTime,
    /// Delete time, pay or allocation entries of the project.
    DeleteEntries,
}

/// The rule table: whether a caller with `role` in the project (none when
/// not a member) may perform `op`.
pub open spec fn permitted(role: Option<Role>, op: Operation) -> bool {
    match op {
        Operation::CreateProject => true,
        Operation::EditProject => role == Some(Role::Admin),
        Operation::ViewProject => role is Some,
        Operation::SaveProjectTime | Operation::DeleteEntries => role == Some(Role::Admin) || role
            == Some(Role::Member),
    }
}

/// Decides an operation by the rule table.
pub fn allows(role: Option<Role>, op: Operation) -> (r: bool)
    ensures
        r == permitted(role, op),
{
    match op {
        Operation::CreateProject => true,
        Operation::EditProject => match role {
            Some(Role::Admin) => true,
            _ => false,
        },
        Operation::ViewProject => role.is_some(),
        Operation::SaveProjectTime | Operation::DeleteEntries => match role {
            Some(Role::Admin) | Some(Role::Member) => true,
            _ => false,
        },
    }
}

/// The operation that saving a project edit amounts to: creation when the
/// project has no id yet, an edit otherwise.
pub open spec fn edit_operation(project_id: Option<i64>) -> Operation {
    if project_id is Some {
        Operation::EditProject
    } else {
        Operation::CreateProject
    }
}

/// Picks the operation that saving a project edit amounts to.
pub fn project_edit_operation(project_id: Option<i64>) -> (r: Operation)
    ensures
        r == edit_operation(project_id),
{
    match project_id {
        Some(_) => Operation::EditProject,
        None => Operation::CreateProject,
    }
}

/// Only an admin may edit a project, any member may view it, and admins and
/// members, but not observers, may change its ledger; anyone may create one.
pub proof fn lemma_role_table(op: Operation)
    ensures
        permitted(Some(Role::Admin), op),
        permitted(Some(Role::Member), op) <==> op != Operation::EditProject,
        permitted(Some(Role::Observer), op) <==> (op == Operation::CreateProject || op
            == Operation::ViewProject),
        permitted(None, op) <==> op == Operation::CreateProject,
{
}

} // verus!
