//! The records of the time ledger: projects, members, time entries, pay
//! entries and allocations, and the roles a member may hold.
use vstd::prelude::*;
use crate::text::str_equal;

verus! {

/// The role a user holds in a project.
#[derive(Clone, Copy, Debug, PartialEq, Eq, Structural)]
pub enum Role {
    Member,
    Admin,
    Observer,
}

/// The text under which a role is stored.
pub open spec fn role_text(r: Role) -> Seq<char> {
    match r {
        Role::Member => seq!['M', 'e', 'm', 'b', 'e', 'r'],
        Role::Admin => seq!['A', 'd', 'm', 'i', 'n'],
        Role::Observer => seq!['O', 'b', 's', 'e', 'r', 'v', 'e', 'r'],
    }
}

/// The role whose stored text is `s`, if any.
pub open spec fn role_of_text(s: Seq<char>) -> Option<Role> {
    if s == role_text(Role::Member) {
        Some(Role::Member)
    } else if s == role_text(Role::Admin) {
        Some(Role::Admin)
    } else if s == role_text(Role::Observer) {
        Some(Role::Observer)
    } else {
        None
    }
}

/// Distinct roles are stored under distinct texts.
pub proof fn lemma_role_text_round_trip(r: Role)
    ensures
        role_of_text(role_text(r)) == Some(r),
{
    assert(role_text(Role::Member) != role_text(Role::Admin)) by {
        assert(role_text(Role::Member).len() != role_text(Role::Admin).len());
    }
    assert(role_text(Role::Member) != role_text(Role::Observer)) by {
        assert(role_text(Role::Member).len() != role_text(Role::Observer).len());
    }
    assert(role_text(Role::Admin) != role_text(Role::Observer)) by {
        assert(role_text(Role::Admin).len() != role_text(Role::Observer).len());
    }
}

impl Role {
    /// The stored text of this role.
    pub fn as_str(&self) -> (r: &'static str)
        ensures
            r@ == role_text(*self),
    {
        match self {
            Role::Member => {
                proof {
                    reveal_strlit("Member");
                }
                "Member"
            },
            Role::Admin => {
                proof {
                    reveal_strlit("Admin");
                }
                "Admin"
            },
            Role::Observer => {
                proof {
                    reveal_strlit("Observer");
                }
                "Observer"
            },
        }
    }

    /// The stored text of this role, as an owned string.
    pub fn to_string(&self) -> (r: String)
        ensures
            r@ == role_text(*self),
    {
        String::from_str(self.as_str())
    }

    /// Reads a role from its stored text; any other text is refused.
    pub fn from_str(input: &str) -> (r: Result<Role, ()>)
        ensures
            r is Ok <==> role_of_text(input@) is Some,
            r is Ok ==> role_of_text(input@) == Some(r->Ok_0),
    {
        if str_equal(input, Role::Member.as_str()) {
            Ok(Role::Member)
        } else if str_equal(input, Role::Admin.as_str()) {
            Ok(Role::Admin)
        } else if str_equal(input, Role::Observer.as_str()) {
            Ok(Role::Observer)
        } else {
            Err(())
        }
    }
}

/// Whether a pay entry records an invoice or a payment.
#[derive(Clone, Copy, Debug, PartialEq, Eq, Structural)]
pub enum PayType {
    Invoiced,
    Paid,
}

/// The integer under which a pay type is stored.
pub open spec fn pay_code(t: PayType) -> i64 {
    match t {
        PayType::Invoiced => 0,
        PayType::Paid => 1,
    }
}

/// The pay type of a stored integer: zero is an invoice, anything else a payment.
pub open spec fn pay_type_of_code(c: i64) -> PayType {
    if c == 0 {
        PayType::Invoiced
    } else {
        PayType::Paid
    }
}

impl PayType {
    /// The integer under which this pay type is stored.
    pub fn code(&self) -> (r: i64)
        ensures
            r == pay_code(*self),
    {
        match self {
            PayType::Invoiced => 0,
            PayType::Paid => 1,
        }
    }

    /// Reads a stored pay type; zero is an invoice, anything else a payment.
    pub fn from_code(c: i64) -> (r: PayType)
        ensures
            r == pay_type_of_code(c),
    {
        if c == 0 {
            PayType::Invoiced
        } else {
            PayType::Paid
        }
    }
}

/// A project that an invitation grants, with the role it grants.
#[derive(Clone, Copy, Debug, PartialEq, Eq, Structural)]
pub struct UserInviteProject {
    pub id: i64,
    pub role: Role,
}

/// What an invitation carries to the creation of a new user.
#[derive(Clone, Debug)]
pub struct UserInviteData {
    pub projects: Vec<UserInviteProject>,
}

/// A project as listed for one of its members.
#[derive(Clone, Debug)]
pub struct ListProject {
    pub id: i64,
    pub name: String,
    pub role: Role,
}

/// A request to advance a project's invoice counter and fields.
#[derive(Clone, Debug)]
pub struct SaveProjectInvoice {
    pub id: i64,
    pub invoice_seq: i64,
    pub extra_fields: Vec<(String, String)>,
}

/// A project to create (no id) or to update (with its id).
#[derive(Clone, Debug)]
pub struct SaveProject {
    pub id: Option<i64>,
    pub name: String,
    pub description: Option<String>,
    pub due_days: Option<i32>,
    pub extra_fields: Vec<(String, String)>,
    pub invoice_id_template: String,
    pub invoice_seq: i64,
    pub payer: String,
    pub payee: String,
    pub generic_task: String,
    pub public: bool,
    pub rate: Option<i64>,
    pub currency: Option<String>,
}

/// A span of time.
#[derive(Clone, Copy, Debug, PartialEq, Eq, Structural)]
pub struct UserTime {
    pub startdate: i64,
    pub enddate: i64,
}

/// One change to a project's member list: grant `role` to user `id`, or
/// revoke the membership when `delete` is set.
#[derive(Clone, Copy, Debug, PartialEq, Eq, Structural)]
pub struct SaveProjectMember {
    pub id: i64,
    pub delete: bool,
    pub role: Role,
}

/// A project together with changes to its members.
#[derive(Clone, Debug)]
pub struct SaveProjectEdit {
    pub project: SaveProject,
    pub members: Vec<SaveProjectMember>,
}

/// What a project save hands back: the id and the change time.
#[derive(Clone, Copy, Debug, PartialEq, Eq, Structural)]
pub struct SavedProject {
    pub id: i64,
    pub changeddate: i64,
}

/// A stored project.
#[derive(Clone, Debug)]
pub struct Project {
    pub id: i64,
    pub name: String,
    pub description: String,
    pub due_days: Option<i32>,
    pub extra_fields: Vec<(String, String)>,
    pub invoice_id_template: String,
    pub invoice_seq: i64,
    pub payer: String,
    pub payee: String,
    pub generic_task: String,
    pub public: bool,
    /// The hourly rate in thousandths of a currency unit.
    pub rate: Option<i64>,
    pub currency: Option<String>,
    pub createdate: i64,
    pub changeddate: i64,
}

/// A stored project as a mathematical value.
pub struct ProjectRecord {
    pub id: i64,
    pub name: String,
    pub description: String,
    pub due_days: Option<i32>,
    pub extra_fields: Seq<(String, String)>,
    pub invoice_id_template: String,
    pub invoice_seq: i64,
    pub payer: String,
    pub payee: String,
    pub generic_task: String,
    pub public: bool,
    pub rate: Option<i64>,
    pub currency: Option<String>,
    pub createdate: i64,
    pub changeddate: i64,
}

impl View for Project {
    type V = ProjectRecord;

    open spec fn view(&self) -> ProjectRecord {
        ProjectRecord {
            id: self.id,
            name: self.name,
            description: self.description,
            due_days: self.due_days,
            extra_fields: self.extra_fields@,
            invoice_id_template: self.invoice_id_template,
            invoice_seq: self.invoice_seq,
            payer: self.payer,
            payee: self.payee,
            generic_task: self.generic_task,
            public: self.public,
            rate: self.rate,
            currency: self.currency,
            createdate: self.createdate,
            changeddate: self.changeddate,
        }
    }
}

/// Whether no two extra fields share a name.
pub open spec fn fields_unique(f: Seq<(String, String)>) -> bool {
    forall|i: int, j: int|
        0 <= i < f.len() && 0 <= j < f.len() && i != j ==> (#[trigger] f[i]).0@ != (
        #[trigger] f[j]).0@
}

/// Tells whether no two extra fields share a name.
pub fn fields_distinct(v: &Vec<(String, String)>) -> (r: bool)
    ensures
        r == fields_unique(v@),
{
    let n = v.len();
    let mut i: usize = 0;
    while i < n
        invariant
            n == v@.len(),
            i <= n,
            forall|a: int, b: int| 0 <= a < i && a < b < n ==> (#[trigger] v@[a]).0@ != (
            #[trigger] v@[b]).0@,
        decreases n - i,
    {
        let mut j: usize = i + 1;
        while j < n
            invariant
                n == v@.len(),
                i < n,
                i + 1 <= j <= n,
                forall|a: int, b: int| 0 <= a < i && a < b < n ==> (#[trigger] v@[a]).0@ != (
                #[trigger] v@[b]).0@,
                forall|b: int| i < b < j ==> v@[i as int].0@ != (#[trigger] v@[b]).0@,
            decreases n - j,
        {
            if v[i].0 == v[j].0 {
                return false;
            }
            j = j + 1;
        }
        i = i + 1;
    }
    assert forall|a: int, b: int| 0 <= a < n && 0 <= b < n && a != b implies (
    #[trigger] v@[a]).0@ != (#[trigger] v@[b]).0@ by {
        if b < a {
            assert(v@[b].0@ != v@[a].0@);
        }
    }
    true
}

/// Rates are stored in thousandths of a currency unit.
pub const RATE_SCALE: i64 = 1000;

/// Whether a whole-unit rate fits once scaled to thousandths.
pub open spec fn rate_fits(r: Option<i64>) -> bool {
    match r {
        Some(x) => i64::MIN <= x * RATE_SCALE <= i64::MAX,
        None => true,
    }
}

/// A whole-unit rate in thousandths.
pub open spec fn scaled_rate(r: Option<i64>) -> Option<i64> {
    match r {
        Some(x) => Some((x * RATE_SCALE) as i64),
        None => None,
    }
}

/// Scales a whole-unit rate to thousandths; none when it does not fit.
pub fn scale_rate(r: Option<i64>) -> (s: Option<Option<i64>>)
    ensures
        s is Some <==> rate_fits(r),
        s is Some ==> s->Some_0 == scaled_rate(r),
{
    match r {
        None => Some(None),
        Some(x) => {
            if x > i64::MAX / RATE_SCALE || x < i64::MIN / RATE_SCALE {
                None
            } else {
                Some(Some(x * RATE_SCALE))
            }
        },
    }
}

/// A copy of a list of extra fields.
pub fn copy_fields(v: &Vec<(String, String)>) -> (r: Vec<(String, String)>)
    ensures
        r@ == v@,
{
    let mut r: Vec<(String, String)> = Vec::new();
    let mut i: usize = 0;
    while i < v.len()
        invariant
            i <= v@.len(),
            r@ == v@.subrange(0, i as int),
        decreases v@.len() - i,
    {
        let f = (v[i].0.clone(), v[i].1.clone());
        r.push(f);
        assert(r@ =~= v@.subrange(0, i + 1));
        i = i + 1;
    }
    assert(v@.subrange(0, i as int) =~= v@);
    r
}

impl Project {
    /// A copy of this project.
    pub fn duplicate(&self) -> (r: Project)
        ensures
            r@ == self@,
    {
        Project {
            id: self.id,
            name: self.name.clone(),
            description: self.description.clone(),
            due_days: self.due_days,
            extra_fields: copy_fields(&self.extra_fields),
            invoice_id_template: self.invoice_id_template.clone(),
            invoice_seq: self.invoice_seq,
            payer: self.payer.clone(),
            payee: self.payee.clone(),
            generic_task: self.generic_task.clone(),
            public: self.public,
            rate: self.rate,
            currency: match &self.currency {
                Some(c) => Some(c.clone()),
                None => None,
            },
            createdate: self.createdate,
            changeddate: self.changeddate,
        }
    }
}

/// A member of a project as listed: user id, user name and role.
#[derive(Clone, Debug)]
pub struct ProjectMember {
    pub id: i64,
    pub name: String,
    pub role: Role,
}

/// A user known to the authentication service.
#[derive(Clone, Debug)]
pub struct User {
    pub id: i64,
    pub name: String,
}

/// A stored membership: a user's role in a project, as stored text.
#[derive(Clone, Debug)]
pub struct MemberRow {
    pub project: i64,
    pub user: i64,
    pub role: String,
}

/// A stored time entry.
#[derive(Clone, Debug)]
pub struct TimeEntry {
    pub id: i64,
    pub project: i64,
    pub user: i64,
    pub description: String,
    pub startdate: i64,
    pub enddate: i64,
    pub ignore: bool,
    pub createdate: i64,
    pub changeddate: i64,
    pub creator: i64,
}

/// A time entry to insert (no id) or to update (with its id).
#[derive(Clone, Debug)]
pub struct SaveTimeEntry {
    pub id: Option<i64>,
    pub project: i64,
    pub user: i64,
    pub description: String,
    pub startdate: i64,
    pub enddate: i64,
    pub ignore: bool,
}

/// A stored pay entry.
#[derive(Clone, Debug)]
pub struct PayEntry {
    pub id: i64,
    pub project: i64,
    pub user: i64,
    pub duration: i64,
    pub paytype: PayType,
    pub paymentdate: i64,
    pub description: String,
    pub createdate: i64,
    pub changeddate: i64,
    pub creator: i64,
}

/// A pay entry to insert (no id) or to update (with its id).
#[derive(Clone, Debug)]
pub struct SavePayEntry {
    pub id: Option<i64>,
    pub project: i64,
    pub user: i64,
    pub duration: i64,
    pub paytype: PayType,
    pub paymentdate: i64,
    pub description: String,
}

/// A stored budget allocation.
#[derive(Clone, Debug)]
pub struct Allocation {
    pub id: i64,
    pub project: i64,
    pub duration: i64,
    pub allocationdate: i64,
    pub description: String,
    pub createdate: i64,
    pub changeddate: i64,
    pub creator: i64,
}

/// An allocation to insert (no id) or to update (with its id).
#[derive(Clone, Debug)]
pub struct SaveAllocation {
    pub id: Option<i64>,
    pub project: i64,
    pub duration: i64,
    pub allocationdate: i64,
    pub description: String,
}

/// One batched change to a project's ledger.
#[derive(Clone, Debug)]
pub struct SaveProjectTime {
    pub project: i64,
    pub savetimeentries: Vec<SaveTimeEntry>,
    pub deletetimeentries: Vec<i64>,
    pub savepayentries: Vec<SavePayEntry>,
    pub deletepayentries: Vec<i64>,
    pub saveallocations: Vec<SaveAllocation>,
    pub deleteallocations: Vec<i64>,
}

/// A project with its members.
#[derive(Clone, Debug)]
pub struct ProjectEdit {
    pub project: Project,
    pub members: Vec<ProjectMember>,
}

/// A project with its members, as returned after an edit.
#[derive(Clone, Debug)]
pub struct SavedProjectEdit {
    pub project: Project,
    pub members: Vec<ProjectMember>,
}

/// A project with its members and its whole ledger.
#[derive(Clone, Debug)]
pub struct ProjectTime {
    pub project: Project,
    pub members: Vec<ProjectMember>,
    pub timeentries: Vec<TimeEntry>,
    pub payentries: Vec<PayEntry>,
    pub allocations: Vec<Allocation>,
}

} // verus!
