use timeclonk::auth::{allows, project_edit_operation, Operation};
use timeclonk::data::{PayType, Role};
use timeclonk::invoice::{balance_lines, count_breaks};
use timeclonk::migrate::{
    level_text, parse_i32, plan_migrations, stored_level, steps_after, LATEST_LEVEL,
};
use timeclonk::service::{request_kind, RequestKind};

#[test]
fn role_text_round_trip() {
    for r in [Role::Admin, Role::Member, Role::Observer] {
        assert_eq!(Role::from_str(r.as_str()), Ok(r));
        assert_eq!(Role::from_str(&r.to_string()), Ok(r));
    }
    assert_eq!(Role::Admin.as_str(), "Admin");
    assert_eq!(Role::Member.to_string(), "Member");
    assert_eq!(Role::Observer.as_str(), "Observer");
}

#[test]
fn role_unknown_text_refused() {
    assert_eq!(Role::from_str("admin"), Err(()));
    assert_eq!(Role::from_str(""), Err(()));
    assert_eq!(Role::from_str("Admins"), Err(()));
}

#[test]
fn pay_type_codes() {
    assert_eq!(PayType::Invoiced.code(), 0);
    assert_eq!(PayType::Paid.code(), 1);
    assert_eq!(PayType::from_code(0), PayType::Invoiced);
    assert_eq!(PayType::from_code(1), PayType::Paid);
    assert_eq!(PayType::from_code(7), PayType::Paid);
}

#[test]
fn role_table_every_role() {
    let admin = Some(Role::Admin);
    let member = Some(Role::Member);
    let observer = Some(Role::Observer);
    for role in [admin, member, observer, None] {
        assert!(allows(role, Operation::CreateProject));
    }
    assert!(allows(admin, Operation::EditProject));
    assert!(!allows(member, Operation::EditProject));
    assert!(!allows(observer, Operation::EditProject));
    assert!(!allows(None, Operation::EditProject));
    assert!(allows(admin, Operation::ViewProject));
    assert!(allows(member, Operation::ViewProject));
    assert!(allows(observer, Operation::ViewProject));
    assert!(!allows(None, Operation::ViewProject));
    for op in [Operation::SaveProjectTime, Operation::DeleteEntries] {
        assert!(allows(admin, op));
        assert!(allows(member, op));
        assert!(!allows(observer, op));
        assert!(!allows(None, op));
    }
    assert_eq!(project_edit_operation(None), Operation::CreateProject);
    assert_eq!(project_edit_operation(Some(3)), Operation::EditProject);
}

#[test]
fn parse_levels() {
    assert_eq!(parse_i32("12"), Some(12));
    assert_eq!(parse_i32("0"), Some(0));
    assert_eq!(parse_i32("+7"), Some(7));
    assert_eq!(parse_i32("-3"), Some(-3));
    assert_eq!(parse_i32("2147483647"), Some(2147483647));
    assert_eq!(parse_i32("-2147483648"), Some(-2147483648));
    assert_eq!(parse_i32("2147483648"), None);
    assert_eq!(parse_i32("99999999999999999999"), None);
    assert_eq!(parse_i32(""), None);
    assert_eq!(parse_i32("-"), None);
    assert_eq!(parse_i32("1x"), None);
    assert_eq!(parse_i32(" 1"), None);
}

#[test]
fn unreadable_level_counts_as_zero() {
    assert_eq!(stored_level(None), 0);
    assert_eq!(stored_level(Some("garbage")), 0);
    assert_eq!(stored_level(Some("5")), 5);
}

#[test]
fn level_text_digits() {
    assert_eq!(level_text(0), "0");
    assert_eq!(level_text(7), "7");
    assert_eq!(level_text(12), "12");
    assert_eq!(level_text(4096), "4096");
}

#[test]
fn fresh_file_runs_everything() {
    let plan = plan_migrations(false, None);
    assert!(plan.initial);
    assert_eq!(plan.steps, (1..=LATEST_LEVEL).collect::<Vec<u32>>());
}

#[test]
fn migration_is_idempotent() {
    let first = plan_migrations(false, None);
    let last = *first.steps.last().unwrap();
    let recorded = level_text(last);
    let second = plan_migrations(true, Some(&recorded));
    assert!(!second.initial);
    assert!(second.steps.is_empty());
}

#[test]
fn migration_resumes_after_stored_level() {
    let plan = plan_migrations(true, Some("5"));
    assert!(!plan.initial);
    assert_eq!(plan.steps, vec![6, 7, 8, 9, 10, 11, 12]);
    assert!(plan.steps.iter().all(|s| *s > 5));
    let after_seven = plan_migrations(true, Some(&level_text(7)));
    assert_eq!(after_seven.steps, vec![8, 9, 10, 11, 12]);
}

#[test]
fn steps_after_edges() {
    assert_eq!(steps_after(-4), (1..=12).collect::<Vec<u32>>());
    assert_eq!(steps_after(11), vec![12]);
    assert_eq!(steps_after(12), Vec::<u32>::new());
    assert_eq!(steps_after(40), Vec::<u32>::new());
}

#[test]
fn request_names() {
    assert_eq!(request_kind("GetProjectList"), Some(RequestKind::GetProjectList));
    assert_eq!(request_kind("SaveProjectTime"), Some(RequestKind::SaveProjectTime));
    assert_eq!(request_kind("GetAllUsers"), Some(RequestKind::GetAllUsers));
    assert_eq!(request_kind("GetMembers"), None);
    assert_eq!(request_kind(""), None);
    assert_eq!(RequestKind::GetUserTime.name(), "GetUserTime");
}

#[test]
fn invoice_blocks_balanced() {
    let (payee, payer) = balance_lines("Me\nStreet".to_string(), "You\nRoad\nTown".to_string());
    assert_eq!(payee, "Me\nStreet\n");
    assert_eq!(payer, "You\nRoad\nTown");
    let (payee, payer) = balance_lines("A\nB\nC\nD".to_string(), "X".to_string());
    assert_eq!(payee, "A\nB\nC\nD");
    assert_eq!(payer, "X\n\n\n");
    let (payee, payer) = balance_lines("A".to_string(), "B".to_string());
    assert_eq!((payee.as_str(), payer.as_str()), ("A", "B"));
    assert_eq!(count_breaks("a\nb\n"), 2);
}
