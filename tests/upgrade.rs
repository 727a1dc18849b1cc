use timeclonk::data::PayType;
use timeclonk::table::StoreError;
use timeclonk::upgrade::{split_payments, LegacyPayment};

fn legacy(id: i64, user: i64, date: i64) -> LegacyPayment {
    LegacyPayment {
        id,
        project: 1,
        user,
        description: format!("pay {}", id),
        duration: 30,
        paymentdate: date,
        createdate: 5,
        changeddate: 6,
        creator: 1,
    }
}

#[test]
fn payments_split_into_paid_and_invoiced() {
    let old = vec![legacy(3, 1, 100), legacy(7, 2, 100)];
    let rows = split_payments(&old).unwrap();
    assert_eq!(rows.len(), 4);
    let summary: Vec<(i64, PayType, i64, i64)> =
        rows.iter().map(|r| (r.id, r.paytype, r.user, r.paymentdate)).collect();
    assert_eq!(
        summary,
        vec![
            (3, PayType::Paid, 1, 100),
            (7, PayType::Paid, 2, 100),
            (8, PayType::Invoiced, 1, 99),
            (9, PayType::Invoiced, 2, 99),
        ]
    );
    assert_eq!(rows[2].description, "pay 3");
    assert_eq!(rows[2].duration, 30);
}

#[test]
fn payment_split_collision_refused() {
    let old = vec![legacy(1, 1, 100), legacy(2, 1, 99)];
    assert_eq!(split_payments(&old).map(|r| r.len()), Err(StoreError::Constraint));
    assert_eq!(split_payments(&Vec::new()).map(|r| r.len()), Ok(0));
    let top = vec![legacy(i64::MAX - 1, 1, 100)];
    assert_eq!(split_payments(&top).map(|r| r.len()), Err(StoreError::Exhausted));
}
