use timeclonk::data::{
    MemberRow, PayType, Role, SaveAllocation, SavePayEntry, SaveProject, SaveProjectEdit,
    SaveProjectInvoice, SaveProjectMember, SaveProjectTime, SaveTimeEntry, User, UserInviteData,
    UserInviteProject,
};
use timeclonk::service::{
    handle_get_project_edit, handle_get_project_time, handle_public_project_time,
    handle_save_project_edit, handle_save_project_time, Outcome,
};
use timeclonk::store::Store;
use timeclonk::table::StoreError;

fn project(id: Option<i64>, name: &str) -> SaveProject {
    SaveProject {
        id,
        name: name.to_string(),
        description: Some("work".to_string()),
        due_days: Some(30),
        extra_fields: vec![("po".to_string(), "17".to_string())],
        invoice_id_template: "INV-{seq}".to_string(),
        invoice_seq: 1,
        payer: "Client".to_string(),
        payee: "Me".to_string(),
        generic_task: "work".to_string(),
        public: false,
        rate: Some(100),
        currency: Some("USD".to_string()),
    }
}

fn time(id: Option<i64>, pid: i64, user: i64, start: i64, end: i64) -> SaveTimeEntry {
    SaveTimeEntry {
        id,
        project: pid,
        user,
        description: "coding".to_string(),
        startdate: start,
        enddate: end,
        ignore: false,
    }
}

fn batch(pid: i64) -> SaveProjectTime {
    SaveProjectTime {
        project: pid,
        savetimeentries: vec![],
        deletetimeentries: vec![],
        savepayentries: vec![],
        deletepayentries: vec![],
        saveallocations: vec![],
        deleteallocations: vec![],
    }
}

fn store_with_users() -> Store {
    let mut s = Store::new();
    s.add_user(User { id: 1, name: "alice".to_string() }).unwrap();
    s.add_user(User { id: 2, name: "bob".to_string() }).unwrap();
    s.add_user(User { id: 3, name: "carol".to_string() }).unwrap();
    s
}

#[test]
fn new_project_grants_creator_admin() {
    let mut s = store_with_users();
    let saved = s.save_project(1, 500, project(None, "Acme")).unwrap();
    assert_eq!(saved.id, 1);
    assert_eq!(saved.changeddate, 500);
    let rows: Vec<&MemberRow> = s.members.iter().filter(|m| m.project == saved.id).collect();
    assert_eq!(rows.len(), 1);
    assert_eq!(rows[0].user, 1);
    assert_eq!(rows[0].role, "Admin");
    assert_eq!(s.member_role(1, saved.id), Some(Role::Admin));
    let p = s.read_project(saved.id).unwrap();
    assert_eq!(p.createdate, 500);
    assert_eq!(p.changeddate, 500);
    assert_eq!(p.description, "work");
    assert_eq!(p.rate, Some(100_000));
}

#[test]
fn project_update_keeps_creation_time() {
    let mut s = store_with_users();
    let id = s.save_project(1, 500, project(None, "Acme")).unwrap().id;
    let mut update = project(Some(id), "Acme Two");
    update.invoice_seq = 40;
    let saved = s.save_project(1, 900, update).unwrap();
    assert_eq!(saved.id, id);
    assert_eq!(saved.changeddate, 900);
    let p = s.read_project(id).unwrap();
    assert_eq!(p.name, "Acme Two");
    assert_eq!(p.createdate, 500);
    assert_eq!(p.changeddate, 900);
    assert_eq!(p.invoice_seq, 1);
    assert_eq!(s.members.len(), 1);
}

#[test]
fn project_errors() {
    let mut s = store_with_users();
    assert_eq!(s.save_project(1, 1, project(Some(42), "X")), Err(StoreError::NotFound));
    let mut p = project(None, "X");
    p.description = None;
    assert_eq!(s.save_project(1, 1, p), Err(StoreError::Constraint));
    let mut p = project(None, "X");
    p.extra_fields = vec![("a".to_string(), "1".to_string()), ("a".to_string(), "2".to_string())];
    assert_eq!(s.save_project(1, 1, p), Err(StoreError::Constraint));
    let mut p = project(None, "X");
    p.rate = Some(i64::MAX / 10);
    assert_eq!(s.save_project(1, 1, p), Err(StoreError::Constraint));
    assert!(s.projects.is_empty());
    assert_eq!(s.read_project(5).map(|p| p.id), Err(StoreError::NotFound));
    s.next_project = i64::MAX;
    assert_eq!(s.save_project(1, 1, project(None, "Y")), Err(StoreError::Exhausted));
}

#[test]
fn invoice_save_sets_counter_and_fields() {
    let mut s = store_with_users();
    let id = s.save_project(1, 10, project(None, "Acme")).unwrap().id;
    let p = s
        .save_project_invoice(
            20,
            SaveProjectInvoice {
                id,
                invoice_seq: 8,
                extra_fields: vec![("ref".to_string(), "x".to_string())],
            },
        )
        .unwrap();
    assert_eq!(p.invoice_seq, 8);
    assert_eq!(p.extra_fields, vec![("ref".to_string(), "x".to_string())]);
    assert_eq!(p.changeddate, 20);
    assert_eq!(p.createdate, 10);
    let lower = s.save_project_invoice(
        40,
        SaveProjectInvoice { id, invoice_seq: 7, extra_fields: vec![] },
    );
    assert_eq!(lower.map(|p| p.id), Err(StoreError::Constraint));
    let dup = s.save_project_invoice(
        40,
        SaveProjectInvoice {
            id,
            invoice_seq: 9,
            extra_fields: vec![("k".to_string(), "1".to_string()), ("k".to_string(), "2".to_string())],
        },
    );
    assert_eq!(dup.map(|p| p.id), Err(StoreError::Constraint));
    assert_eq!(s.read_project(id).unwrap().invoice_seq, 8);
    let missing = s.save_project_invoice(
        30,
        SaveProjectInvoice { id: 99, invoice_seq: 1, extra_fields: vec![] },
    );
    assert_eq!(missing.map(|p| p.id), Err(StoreError::NotFound));
}

#[test]
fn duplicate_start_time_refused() {
    let mut s = store_with_users();
    let pid = s.save_project(1, 1, project(None, "Acme")).unwrap().id;
    assert_eq!(s.save_time_entry(1, 5, time(None, pid, 1, 1000, 2000)), Ok(1));
    assert_eq!(
        s.save_time_entry(1, 6, time(None, pid, 1, 1000, 3000)),
        Err(StoreError::Constraint)
    );
    assert_eq!(s.timeentries.len(), 1);
    assert_eq!(s.timeentries[0].enddate, 2000);
    assert_eq!(s.save_time_entry(1, 7, time(None, pid, 2, 1000, 3000)), Ok(2));
}

#[test]
fn time_entry_update_and_delete() {
    let mut s = store_with_users();
    let pid = s.save_project(1, 1, project(None, "Acme")).unwrap().id;
    let id = s.save_time_entry(1, 5, time(None, pid, 2, 1000, 2000)).unwrap();
    assert_eq!(s.save_time_entry(3, 9, time(Some(id), pid, 2, 1500, 2500)), Ok(id));
    let e = &s.timeentries[0];
    assert_eq!((e.startdate, e.enddate, e.createdate, e.changeddate, e.creator), (1500, 2500, 5, 9, 1));
    assert_eq!(s.save_time_entry(1, 9, time(Some(77), pid, 2, 1, 2)), Err(StoreError::NotFound));
    assert_eq!(s.timeentries.len(), 1);
    assert_eq!(s.save_time_entry(1, 9, time(None, 99, 2, 1, 2)), Err(StoreError::Constraint));
    s.delete_time_entry(id);
    assert!(s.timeentries.is_empty());
    s.delete_time_entry(id);
    assert!(s.timeentries.is_empty());
}

#[test]
fn pay_and_allocation_rows() {
    let mut s = store_with_users();
    let pid = s.save_project(1, 1, project(None, "Acme")).unwrap().id;
    let pay = SavePayEntry {
        id: None,
        project: pid,
        user: 2,
        duration: 60,
        paytype: PayType::Paid,
        paymentdate: 100,
        description: "paid".to_string(),
    };
    assert_eq!(s.save_pay_entry(1, 3, pay.clone()), Ok(1));
    assert_eq!(s.save_pay_entry(1, 3, pay), Err(StoreError::Constraint));
    let alloc = SaveAllocation {
        id: None,
        project: pid,
        duration: 600,
        allocationdate: 50,
        description: "budget".to_string(),
    };
    assert_eq!(s.save_allocation(1, 4, alloc.clone()), Ok(1));
    assert_eq!(s.save_allocation(1, 4, alloc.clone()), Err(StoreError::Constraint));
    assert_eq!(s.save_allocation(2, 4, alloc), Ok(2));
    assert_eq!(s.pay_entries(pid).len(), 1);
    assert_eq!(s.allocations(pid).len(), 2);
    s.delete_pay_entry(1);
    s.delete_allocation(2);
    assert!(s.pay_entries(pid).is_empty());
    assert_eq!(s.allocations(pid).len(), 1);
}

#[test]
fn batch_skips_failing_item() {
    let mut s = store_with_users();
    let pid = s.save_project(1, 1, project(None, "Acme")).unwrap().id;
    s.save_time_entry(1, 2, time(None, pid, 1, 1000, 1100)).unwrap();
    let mut b = batch(pid);
    b.savetimeentries = vec![
        time(None, pid, 1, 2000, 2100),
        time(None, pid, 1, 1000, 1200),
        time(None, pid, 1, 3000, 3100),
    ];
    let pt = s.save_project_time(1, 5, b).unwrap();
    let starts: Vec<i64> = pt.timeentries.iter().map(|e| e.startdate).collect();
    assert_eq!(starts, vec![1000, 2000, 3000]);
    assert_eq!(pt.timeentries[0].enddate, 1100);
}

#[test]
fn ledger_round_trip() {
    let mut s = store_with_users();
    let pid = s.save_project(1, 1, project(None, "Acme")).unwrap().id;
    let keep = s.save_time_entry(1, 2, time(None, pid, 1, 10, 20)).unwrap();
    let gone = s.save_time_entry(1, 2, time(None, pid, 1, 30, 40)).unwrap();
    let mut b = batch(pid);
    b.savetimeentries = vec![time(None, pid, 1, 50, 60), time(Some(keep), pid, 1, 11, 21)];
    b.deletetimeentries = vec![gone];
    b.savepayentries = vec![SavePayEntry {
        id: None,
        project: pid,
        user: 1,
        duration: 5,
        paytype: PayType::Invoiced,
        paymentdate: 70,
        description: "inv".to_string(),
    }];
    b.saveallocations = vec![SaveAllocation {
        id: None,
        project: pid,
        duration: 100,
        allocationdate: 80,
        description: "grant".to_string(),
    }];
    let returned = s.save_project_time(1, 9, b).unwrap();
    let read = s.read_project_time(pid).unwrap();
    let starts: Vec<i64> = read.timeentries.iter().map(|e| e.startdate).collect();
    assert_eq!(starts, vec![11, 50]);
    assert_eq!(read.timeentries[0].id, keep);
    assert_eq!(read.payentries.len(), 1);
    assert_eq!(read.allocations.len(), 1);
    assert_eq!(returned.timeentries.len(), read.timeentries.len());
    assert_eq!(returned.project.id, read.project.id);
    assert_eq!(read.members.len(), 1);
    assert_eq!(read.members[0].name, "alice");
}

#[test]
fn non_member_batch_ignored() {
    let mut s = store_with_users();
    let pid = s.save_project(1, 1, project(None, "Acme")).unwrap().id;
    let mut b = batch(pid);
    b.savetimeentries = vec![time(None, pid, 3, 50, 60)];
    let pt = s.save_project_time(3, 9, b).unwrap();
    assert!(pt.timeentries.is_empty());
    assert!(s.timeentries.is_empty());
    assert!(s.read_project_time(42).is_err());
}

#[test]
fn project_list_recent_first() {
    let mut s = store_with_users();
    let a = s.save_project(1, 1, project(None, "A")).unwrap().id;
    let b = s.save_project(1, 1, project(None, "B")).unwrap().id;
    let c = s.save_project(1, 1, project(None, "C")).unwrap().id;
    let d = s.save_project(1, 1, project(None, "D")).unwrap().id;
    s.save_time_entry(1, 2, time(None, b, 1, 100, 110)).unwrap();
    s.save_time_entry(1, 2, time(None, d, 1, 300, 310)).unwrap();
    s.save_time_entry(1, 2, time(None, b, 1, 200, 210)).unwrap();
    s.save_time_entry(1, 2, time(None, c, 2, 900, 910)).unwrap();
    let e = s.save_project(1, 1, project(None, "E")).unwrap().id;
    s.save_time_entry(1, 2, time(None, e, 3, 300, 320)).unwrap();
    let ids: Vec<i64> = s.project_list(1).iter().map(|p| p.id).collect();
    assert_eq!(ids, vec![c, d, e, b, a]);
    assert!(s.project_list(2).is_empty());
}

#[test]
fn project_list_unknown_role_shows_observer() {
    let mut s = store_with_users();
    let a = s.save_project(1, 1, project(None, "A")).unwrap().id;
    s.members[0].role = "Boss".to_string();
    let l = s.project_list(1);
    assert_eq!(l.len(), 1);
    assert_eq!(l[0].id, a);
    assert_eq!(l[0].role, Role::Observer);
    assert_eq!(s.member_role(1, a), None);
    assert!(s.is_project_member(1, a));
    assert!(s.member_list(a).unwrap().is_empty());
}

#[test]
fn invites_need_admin_creator() {
    let mut s = store_with_users();
    let a = s.save_project(1, 1, project(None, "A")).unwrap().id;
    let b = s.save_project(2, 1, project(None, "B")).unwrap().id;
    s.add_user(User { id: 4, name: "dave".to_string() }).unwrap();
    let invite = UserInviteData {
        projects: vec![
            UserInviteProject { id: a, role: Role::Member },
            UserInviteProject { id: b, role: Role::Observer },
        ],
    };
    s.on_new_user(Some(invite.clone()), Some(1), 4);
    assert_eq!(s.member_role(4, a), Some(Role::Member));
    assert_eq!(s.member_role(4, b), None);
    s.on_new_user(Some(invite), None, 4);
    assert_eq!(s.member_role(4, b), None);
    assert_eq!(s.add_user(User { id: 4, name: "again".to_string() }), Err(StoreError::Constraint));
}

#[test]
fn acme_scenario() {
    let mut s = store_with_users();
    let alice = 1;
    let bob = 2;
    let edit = SaveProjectEdit { project: project(None, "Acme"), members: vec![] };
    let out = match handle_save_project_edit(&mut s, alice, 1, edit) {
        Ok(Outcome::Done(o)) => o,
        _ => panic!("create refused"),
    };
    assert_eq!(out.project.id, 1);
    let listed = s.project_list(alice);
    assert_eq!(listed.len(), 1);
    assert_eq!((listed[0].id, listed[0].name.as_str(), listed[0].role), (1, "Acme", Role::Admin));

    let edit = SaveProjectEdit {
        project: project(Some(1), "Acme"),
        members: vec![SaveProjectMember { id: bob, delete: false, role: Role::Member }],
    };
    assert!(matches!(handle_save_project_edit(&mut s, alice, 2, edit), Ok(Outcome::Done(_))));
    let members = s.member_list(1).unwrap();
    let pairs: Vec<(i64, Role)> = members.iter().map(|m| (m.id, m.role)).collect();
    assert_eq!(pairs, vec![(alice, Role::Admin), (bob, Role::Member)]);

    let edit = SaveProjectEdit { project: project(Some(1), "Bob's"), members: vec![] };
    assert!(matches!(handle_save_project_edit(&mut s, bob, 3, edit), Ok(Outcome::Denied)));
    assert_eq!(s.read_project(1).unwrap().name, "Acme");

    let mut b = batch(1);
    b.savetimeentries = vec![time(None, 1, bob, 1000, 2000)];
    let pt = match handle_save_project_time(&mut s, bob, 4, b) {
        Ok(Outcome::Done(pt)) => pt,
        _ => panic!("member refused"),
    };
    assert_eq!(pt.timeentries.len(), 1);
    assert_eq!(pt.timeentries[0].user, bob);
}

#[test]
fn observer_and_outsider_gating() {
    let mut s = store_with_users();
    let pid = s.save_project(1, 1, project(None, "Acme")).unwrap().id;
    let edit = SaveProjectEdit {
        project: project(Some(pid), "Acme"),
        members: vec![SaveProjectMember { id: 3, delete: false, role: Role::Observer }],
    };
    assert!(matches!(handle_save_project_edit(&mut s, 1, 2, edit), Ok(Outcome::Done(_))));
    let mut b = batch(pid);
    b.savetimeentries = vec![time(None, pid, 3, 1, 2)];
    assert!(matches!(handle_save_project_time(&mut s, 3, 3, b.clone()), Ok(Outcome::Denied)));
    assert!(s.timeentries.is_empty());
    assert!(matches!(handle_save_project_time(&mut s, 2, 3, b), Ok(Outcome::Denied)));
    assert!(matches!(handle_get_project_time(&s, 3, pid), Ok(Outcome::Done(_))));
    assert!(matches!(handle_get_project_time(&s, 2, pid), Ok(Outcome::Denied)));
    assert!(matches!(handle_get_project_edit(&s, 3, pid), Ok(Outcome::Done(_))));
    assert!(matches!(handle_get_project_edit(&s, 2, pid), Ok(Outcome::Denied)));
    assert!(matches!(handle_public_project_time(&s, pid), Ok(Outcome::Denied)));
    let mut p = project(Some(pid), "Acme");
    p.public = true;
    s.save_project(1, 4, p).unwrap();
    assert!(matches!(handle_public_project_time(&s, pid), Ok(Outcome::Done(_))));
    let edit = SaveProjectEdit {
        project: project(Some(pid), "Acme"),
        members: vec![SaveProjectMember { id: 3, delete: true, role: Role::Observer }],
    };
    assert!(matches!(handle_save_project_edit(&mut s, 1, 5, edit), Ok(Outcome::Done(_))));
    assert_eq!(s.member_role(3, pid), None);
}

#[test]
fn user_time_and_loaders() {
    let mut s = store_with_users();
    let a = s.save_project(1, 1, project(None, "A")).unwrap().id;
    let b = s.save_project(1, 1, project(None, "B")).unwrap().id;
    s.save_time_entry(1, 2, time(None, a, 2, 10, 20)).unwrap();
    s.save_time_entry(1, 2, time(None, b, 2, 30, 40)).unwrap();
    s.save_time_entry(1, 2, time(None, b, 1, 30, 40)).unwrap();
    assert_eq!(s.user_time(2).len(), 2);
    assert_eq!(s.user_list().len(), 3);

    let mut t = Store::new();
    let p = s.read_project(b).unwrap();
    assert!(t.load_project(p.clone()).is_ok());
    assert_eq!(t.load_project(p), Err(StoreError::Constraint));
    let e = s.timeentries[1].clone();
    assert!(t.load_time_entry(e.clone()).is_ok());
    assert_eq!(t.load_time_entry(e), Err(StoreError::Constraint));
    assert_eq!(t.next_time, 3);
    assert_eq!(t.next_project, b + 1);
    let m = MemberRow { project: b, user: 1, role: "Admin".to_string() };
    assert!(t.load_member(m.clone()).is_ok());
    assert_eq!(t.load_member(m), Err(StoreError::Constraint));
    let orphan = MemberRow { project: 77, user: 1, role: "Admin".to_string() };
    assert_eq!(t.load_member(orphan), Err(StoreError::Constraint));
}

#[test]
fn batch_deletes_named_and_keeps_others() {
    let mut s = store_with_users();
    let pid = s.save_project(1, 1, project(None, "Acme")).unwrap().id;
    let edit = SaveProjectEdit {
        project: project(Some(pid), "Acme"),
        members: vec![
            SaveProjectMember { id: 2, delete: false, role: Role::Member },
            SaveProjectMember { id: 3, delete: false, role: Role::Observer },
        ],
    };
    assert!(matches!(handle_save_project_edit(&mut s, 1, 2, edit), Ok(Outcome::Done(_))));
    let x = s.save_time_entry(1, 3, time(None, pid, 1, 10, 20)).unwrap();
    let y = s.save_time_entry(1, 3, time(None, pid, 1, 30, 40)).unwrap();
    let z = s.save_time_entry(1, 3, time(None, pid, 2, 30, 45)).unwrap();
    let kept = s.timeentries[2].clone();

    let mut b = batch(pid);
    b.deletetimeentries = vec![y];
    assert!(matches!(handle_save_project_time(&mut s, 3, 4, b.clone()), Ok(Outcome::Denied)));
    assert_eq!(s.timeentries.len(), 3);

    b.savetimeentries = vec![
        time(Some(x), pid, 1, 11, 21),
        time(None, pid, 2, 30, 50),
        time(None, pid, 2, 60, 70),
    ];
    b.saveallocations = vec![SaveAllocation {
        id: None,
        project: pid,
        duration: 10,
        allocationdate: 5,
        description: "grant".to_string(),
    }];
    let pt = match handle_save_project_time(&mut s, 2, 5, b) {
        Ok(Outcome::Done(pt)) => pt,
        _ => panic!("member refused"),
    };
    let ids: Vec<i64> = pt.timeentries.iter().map(|e| e.id).collect();
    assert!(!ids.contains(&y));
    assert!(ids.contains(&x));
    assert!(ids.contains(&z));
    let z_now = pt.timeentries.iter().find(|e| e.id == z).unwrap();
    assert_eq!((z_now.startdate, z_now.enddate, z_now.changeddate), (kept.startdate, kept.enddate, kept.changeddate));
    assert_eq!(pt.timeentries.len(), 3);
    assert!(pt.timeentries.iter().any(|e| e.startdate == 60));
    assert_eq!(pt.allocations.len(), 1);
}
