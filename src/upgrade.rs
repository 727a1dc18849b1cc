//! The row transformation of the schema step that gave pay entries a type:
//! every earlier payment becomes a paid entry under its own id, and an
//! invoiced entry of the same amount one millisecond earlier under a fresh id.
use vstd::prelude::*;
use crate::data::{PayEntry, PayType};
use crate::table::{load_row, table_wf, LedgerRow, StoreError};

verus! {

/// A payment as stored before pay entries had a type.
#[derive(Clone, Debug)]
pub struct LegacyPayment {
    pub id: i64,
    pub project: i64,
    pub user: i64,
    pub description: String,
    pub duration: i64,
    pub paymentdate: i64,
    pub createdate: i64,
    pub changeddate: i64,
    pub creator: i64,
}

/// The paid entry a legacy payment becomes.
pub open spec fn paid_entry(p: LegacyPayment) -> PayEntry {
    PayEntry {
        id: p.id,
        project: p.project,
        user: p.user,
        duration: p.duration,
        paytype: PayType::Paid,
        paymentdate: p.paymentdate,
        description: p.description,
        createdate: p.createdate,
        changeddate: p.changeddate,
        creator: p.creator,
    }
}

/// The invoiced entry derived from a legacy payment, under id `id`.
pub open spec fn invoice_entry(p: LegacyPayment, id: i64) -> PayEntry {
    PayEntry {
        id,
        paytype: PayType::Invoiced,
        paymentdate: (p.paymentdate - 1) as i64,
        ..paid_entry(p)
    }
}

/// The largest id among `old`, or zero.
pub open spec fn max_id(old: Seq<LegacyPayment>) -> int
    decreases old.len(),
{
    if old.len() == 0 {
        0
    } else {
        let m = max_id(old.drop_last());
        if old.last().id > m {
            old.last().id as int
        } else {
            m
        }
    }
}

/// The entries the step writes: first every payment as paid, in order, then
/// every payment's invoice, in order, numbered on from the largest id.
pub open spec fn split_entries(old: Seq<LegacyPayment>) -> Seq<PayEntry> {
    old.map_values(|p: LegacyPayment| paid_entry(p)) + Seq::new(
        old.len(),
        |i: int| invoice_entry(old[i], (max_id(old) + 1 + i) as i64),
    )
}

/// Whether the entries keep the pay table's rules: distinct ids, no two of
/// one user on one payment date, and no id at the top of the range.
pub open spec fn entries_valid(e: Seq<PayEntry>) -> bool {
    &&& forall|i: int| 0 <= i < e.len() ==> #[trigger] e[i].id != i64::MAX
    &&& forall|i: int, j: int|
        0 <= i < e.len() && 0 <= j < e.len() && i != j ==> #[trigger] e[i].row_id()
            != #[trigger] e[j].row_id()
    &&& forall|i: int, j: int|
        0 <= i < e.len() && 0 <= j < e.len() && i != j ==> #[trigger] e[i].row_key()
            != #[trigger] e[j].row_key()
}

/// The invoice ids fit below the top of the range.
pub open spec fn ids_fit(old: Seq<LegacyPayment>) -> bool {
    max_id(old) + old.len() < i64::MAX
}

/// The largest id among `old`, or zero.
fn largest_id(old: &Vec<LegacyPayment>) -> (r: i64)
    ensures
        r == max_id(old@),
        r >= 0,
{
    let mut m: i64 = 0;
    let mut i: usize = 0;
    while i < old.len()
        invariant
            i <= old@.len(),
            m == max_id(old@.subrange(0, i as int)),
            m >= 0,
        decreases old@.len() - i,
    {
        proof {
            assert(old@.subrange(0, i + 1).drop_last() =~= old@.subrange(0, i as int));
        }
        if old[i].id > m {
            m = old[i].id;
        }
        i = i + 1;
    }
    assert(old@.subrange(0, i as int) =~= old@);
    m
}

/// The entries that replace the legacy payments: each payment as a paid
/// entry under its own id, then, for each payment in order, an invoiced
/// entry one millisecond earlier under the next id after the largest.
/// Fails when the invoice ids would run past the top of the range, or when
/// the entries would break the pay table's rules.
pub fn split_payments(old: &Vec<LegacyPayment>) -> (r: Result<Vec<PayEntry>, StoreError>)
    requires
        forall|i: int| 0 <= i < old@.len() ==> #[trigger] old@[i].paymentdate > i64::MIN,
    ensures
        match r {
            Ok(e) => ids_fit(old@) && entries_valid(split_entries(old@)) && e@ == split_entries(
                old@,
            ),
            Err(err) => if !ids_fit(old@) {
                err == StoreError::Exhausted
            } else {
                err == StoreError::Constraint && !entries_valid(split_entries(old@))
            },
        },
{
    let n = old.len();
    let m = largest_id(old);
    if n as u64 >= (i64::MAX - m) as u64 {
        return Err(StoreError::Exhausted);
    }
    let n2: u64 = 2 * (n as u64);
    let ghost all = split_entries(old@);
    let mut rows: Vec<PayEntry> = Vec::new();
    let mut next: i64 = 1;
    let mut i: u64 = 0;
    while i < n2
        invariant
            n == old@.len(),
            n2 == 2 * n,
            m == max_id(old@),
            m + n < i64::MAX,
            m >= 0,
            all == split_entries(old@),
            all.len() == 2 * n,
            i <= 2 * n,
            rows@ == all.subrange(0, i as int),
            table_wf(rows@, next),
            forall|k: int| 0 <= k < old@.len() ==> #[trigger] old@[k].paymentdate > i64::MIN,
        decreases n2 - i,
    {
        let row = if i < n as u64 {
            let p = &old[i as usize];
            PayEntry {
                id: p.id,
                project: p.project,
                user: p.user,
                duration: p.duration,
                paytype: PayType::Paid,
                paymentdate: p.paymentdate,
                description: p.description.clone(),
                createdate: p.createdate,
                changeddate: p.changeddate,
                creator: p.creator,
            }
        } else {
            let k = (i - n as u64) as usize;
            let p = &old[k];
            PayEntry {
                id: m + 1 + k as i64,
                project: p.project,
                user: p.user,
                duration: p.duration,
                paytype: PayType::Invoiced,
                paymentdate: p.paymentdate - 1,
                description: p.description.clone(),
                createdate: p.createdate,
                changeddate: p.changeddate,
                creator: p.creator,
            }
        };
        assert(row == all[i as int]);
        let ghost before = rows@;
        match load_row(&mut rows, &mut next, row) {
            Ok(()) => {},
            Err(_) => {
                proof {
                    if row.id == i64::MAX {
                        assert(all[i as int].id == i64::MAX);
                    } else if crate::table::has_row(before, row.id) {
                        let j = choose|j: int| 0 <= j < before.len() && #[trigger] before[j].row_id() == row.id;
                        assert(all[j] == before[j]);
                        assert(all[j].row_id() == all[i as int].row_id());
                    } else {
                        let j = choose|j: int|
                            0 <= j < before.len() && j != -1 && #[trigger] before[j].row_key()
                                == row.row_key();
                        assert(all[j] == before[j]);
                        assert(all[j].row_key() == all[i as int].row_key());
                    }
                }
                return Err(StoreError::Constraint);
            },
        }
        assert(rows@ =~= all.subrange(0, i + 1));
        i = i + 1;
    }
    assert(all.subrange(0, i as int) =~= all);
    proof {
        assert forall|k: int| 0 <= k < all.len() implies #[trigger] all[k].id != i64::MAX by {
            assert(all[k].row_id() < next);
        }
    }
    Ok(rows)
}

} // verus!
