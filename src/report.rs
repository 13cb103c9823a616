use vstd::prelude::*;
use crate::ledger::{CashShift, Ledger, LedgerError, ShiftStatus};
use crate::movement::{copy_text, inflow_total, outflow_total, recent_first, CashMovement};
use crate::outside::{fresh_id, now_rfc3339};
use crate::sale::SaleTransaction;

verus! {

/// Totals of a shift's movement log beside the shift's own balances.
pub struct CashSummary {
    pub total_cash_in: i128,
    pub total_cash_out: i128,
    pub net_movement: i128,
    pub initial_cash: i64,
    pub expected_cash: i64,
    pub actual_cash: Option<i64>,
    pub difference: Option<i64>,
}

/// The structured payload of a shift report.
pub struct ShiftReportData {
    pub shift_info: CashShift,
    pub cash_summary: CashSummary,
    pub movements: Vec<CashMovement>,
    pub transactions: Vec<SaleTransaction>,
}

/// A reconciliation report for one shift.
pub struct ShiftReport {
    pub id: String,
    pub shift_id: String,
    pub report_type: String,
    pub data: ShiftReportData,
    pub pdf_path: Option<String>,
    pub generated_at: String,
    pub generated_by: String,
}

/// Two sales agree field by field, their lines included.
pub open spec fn same_sale(a: SaleTransaction, b: SaleTransaction) -> bool {
    &&& a.id == b.id
    &&& a.items@ == b.items@
    &&& a.total == b.total
    &&& a.timestamp == b.timestamp
    &&& a.payment_method == b.payment_method
}

/// Two report payloads agree: same shift snapshot, same summary, same
/// movements and the same linked sales, in the same order.
pub open spec fn same_payload(a: ShiftReportData, b: ShiftReportData) -> bool {
    &&& a.shift_info == b.shift_info
    &&& a.cash_summary == b.cash_summary
    &&& a.movements@ == b.movements@
    &&& a.transactions@.len() == b.transactions@.len()
    &&& forall|k: int|
        0 <= k < a.transactions@.len() ==> same_sale(
            #[trigger] a.transactions@[k],
            b.transactions@[k],
        )
}

/// Two reports agree in every field, their payloads compared as above.
pub open spec fn same_report(a: ShiftReport, b: ShiftReport) -> bool {
    &&& a.id == b.id
    &&& a.shift_id == b.shift_id
    &&& a.report_type == b.report_type
    &&& same_payload(a.data, b.data)
    &&& a.pdf_path == b.pdf_path
    &&& a.generated_at == b.generated_at
    &&& a.generated_by == b.generated_by
}

/// Position of the first stored sale with the given id.
pub open spec fn first_sale(txs: Seq<SaleTransaction>, id: Seq<char>) -> Option<int> {
    if exists|j: int|
        0 <= j < txs.len() && txs[j].id@ == id && forall|k: int| 0 <= k < j ==> txs[k].id@ != id {
        Some(
            choose|j: int|
                0 <= j < txs.len() && txs[j].id@ == id && forall|k: int|
                    0 <= k < j ==> txs[k].id@ != id,
        )
    } else {
        None
    }
}

/// Position of the first stored report with the given id.
pub open spec fn first_report(reports: Seq<ShiftReport>, id: Seq<char>) -> Option<int> {
    if exists|j: int|
        0 <= j < reports.len() && reports[j].id@ == id && forall|k: int|
            0 <= k < j ==> reports[k].id@ != id {
        Some(
            choose|j: int|
                0 <= j < reports.len() && reports[j].id@ == id && forall|k: int|
                    0 <= k < j ==> reports[k].id@ != id,
        )
    } else {
        None
    }
}

/// The stored sale that a movement refers to, if it names one that exists.
pub open spec fn linked_sale(m: CashMovement, txs: Seq<SaleTransaction>) -> Option<SaleTransaction> {
    match m.transaction_id {
        Some(t) => if t@.len() > 0 {
            match first_sale(txs, t@) {
                Some(j) => Some(txs[j]),
                None => None,
            }
        } else {
            None
        },
        None => None,
    }
}

/// The sales that the movements refer to, in movement order; references to
/// sales that are not stored are dropped.
pub open spec fn linked_transactions(ms: Seq<CashMovement>, txs: Seq<SaleTransaction>) -> Seq<
    SaleTransaction,
>
    decreases ms.len(),
{
    if ms.len() == 0 {
        Seq::empty()
    } else {
        let rest = linked_transactions(ms.drop_last(), txs);
        match linked_sale(ms.last(), txs) {
            Some(t) => rest.push(t),
            None => rest,
        }
    }
}

/// The cash summary of a shift over the movement log.
pub open spec fn summary_of(shift: CashShift, log: Seq<CashMovement>) -> CashSummary {
    let tin = inflow_total(log, shift.id@);
    let tout = outflow_total(log, shift.id@);
    CashSummary {
        total_cash_in: tin as i128,
        total_cash_out: tout as i128,
        net_movement: (tin - tout) as i128,
        initial_cash: shift.initial_cash,
        expected_cash: shift.expected_cash,
        actual_cash: shift.actual_cash,
        difference: shift.difference,
    }
}

pub proof fn lemma_flow_bounds(log: Seq<CashMovement>, sid: Seq<char>)
    requires
        forall|k: int| 0 <= k < log.len() ==> #[trigger] log[k].amount >= 0,
    ensures
        0 <= inflow_total(log, sid) <= log.len() * i64::MAX,
        0 <= outflow_total(log, sid) <= log.len() * i64::MAX,
    decreases log.len(),
{
    if log.len() > 0 {
        assert forall|k: int| 0 <= k < log.drop_last().len() implies #[trigger] log.drop_last()[k].amount
            >= 0 by {
            assert(log.drop_last()[k] == log[k]);
        }
        assert(log.last() == log[log.len() - 1]);
        lemma_flow_bounds(log.drop_last(), sid);
    }
}

impl ShiftReport {
    /// A copy of this report that agrees with it in every field.
    pub fn snapshot(&self) -> (r: ShiftReport)
        ensures
            same_report(r, *self),
    {
        let mut transactions: Vec<SaleTransaction> = Vec::new();
        let src = &self.data.transactions;
        let mut k: usize = 0;
        while k < src.len()
            invariant
                k <= src@.len(),
                transactions@.len() == k,
                forall|q: int| 0 <= q < k ==> same_sale(#[trigger] transactions@[q], src@[q]),
            decreases src@.len() - k,
        {
            transactions.push(src[k].snapshot());
            k = k + 1;
        }
        let mut movements: Vec<CashMovement> = Vec::new();
        let ms = &self.data.movements;
        k = 0;
        while k < ms.len()
            invariant
                k <= ms@.len(),
                movements@ == ms@.take(k as int),
            decreases ms@.len() - k,
        {
            movements.push(ms[k].snapshot());
            assert(ms@.take(k + 1) =~= ms@.take(k as int).push(ms@[k as int]));
            k = k + 1;
        }
        assert(ms@.take(k as int) =~= ms@);
        let c = &self.data.cash_summary;
        ShiftReport {
            id: self.id.clone(),
            shift_id: self.shift_id.clone(),
            report_type: self.report_type.clone(),
            data: ShiftReportData {
                shift_info: self.data.shift_info.snapshot(),
                cash_summary: CashSummary {
                    total_cash_in: c.total_cash_in,
                    total_cash_out: c.total_cash_out,
                    net_movement: c.net_movement,
                    initial_cash: c.initial_cash,
                    expected_cash: c.expected_cash,
                    actual_cash: c.actual_cash,
                    difference: c.difference,
                },
                movements,
                transactions,
            },
            pdf_path: copy_text(&self.pdf_path),
            generated_at: self.generated_at.clone(),
            generated_by: self.generated_by.clone(),
        }
    }
}

impl Ledger {
    /// Report ids are keys.
    pub open spec fn report_ids_unique(self) -> bool {
        forall|i: int, j: int|
            0 <= i < self.reports@.len() && 0 <= j < self.reports@.len() && i != j
                ==> self.reports@[i].id@ != self.reports@[j].id@
    }

    pub open spec fn has_report(self, id: Seq<char>) -> bool {
        exists|i: int| 0 <= i < self.reports@.len() && #[trigger] self.reports@[i].id@ == id
    }

    /// Position of the first stored sale with the given id.
    pub fn find_sale(&self, id: &str) -> (r: Option<usize>)
        ensures
            match r {
                Some(j) => first_sale(self.transactions@, id@) == Some(j as int),
                None => first_sale(self.transactions@, id@) is None,
            },
    {
        let key = id.to_owned();
        let mut j: usize = 0;
        while j < self.transactions.len()
            invariant
                j <= self.transactions@.len(),
                key@ == id@,
                forall|k: int| 0 <= k < j ==> self.transactions@[k].id@ != id@,
            decreases self.transactions@.len() - j,
        {
            if self.transactions[j].id == key {
                return Some(j);
            }
            j = j + 1;
        }
        None
    }

    /// Builds the reconciliation report of a shift: a snapshot of the shift,
    /// its cash summary, its movements most recent first, and the sales
    /// those movements refer to. Nothing is stored.
    pub fn generate_report(&self, shift_id: &str, user_id: &str) -> (r: Result<ShiftReport, LedgerError>)
        requires
            self.wf(),
        ensures
            r is Err <==> !self.shift_exists(shift_id@),
            r is Err ==> r == Err::<ShiftReport, LedgerError>(LedgerError::NotFound),
            r matches Ok(rep) ==> {
                let shift = self.shift_of(shift_id@);
                let ms = recent_first(self.movements@, shift_id@);
                let linked = linked_transactions(ms, self.transactions@);
                &&& rep.shift_id@ == shift_id@
                &&& rep.report_type@ == "daily"@
                &&& rep.pdf_path is None
                &&& rep.generated_by@ == user_id@
                &&& rep.data.shift_info == shift
                &&& rep.data.cash_summary == summary_of(shift, self.movements@)
                &&& rep.data.movements@ == ms
                &&& rep.data.transactions@.len() == linked.len()
                &&& forall|k: int|
                    0 <= k < linked.len() ==> same_sale(#[trigger] rep.data.transactions@[k], linked[k])
            },
    {
        let i = match self.find_shift(shift_id) {
            Some(i) => i,
            None => {
                return Err(LedgerError::NotFound);
            },
        };
        proof {
            self.lemma_shift_index(shift_id@, i as int);
        }
        let key = shift_id.to_owned();
        let mut ms: Vec<CashMovement> = Vec::new();
        let mut total_in: i128 = 0;
        let mut total_out: i128 = 0;
        let mut k: usize = 0;
        while k < self.movements.len()
            invariant
                self.wf(),
                k <= self.movements@.len(),
                key@ == shift_id@,
                ms@ == recent_first(self.movements@.take(k as int), shift_id@),
                total_in == inflow_total(self.movements@.take(k as int), shift_id@),
                total_out == outflow_total(self.movements@.take(k as int), shift_id@),
            decreases self.movements@.len() - k,
        {
            let ghost prefix = self.movements@.take(k + 1);
            assert(prefix.drop_last() =~= self.movements@.take(k as int));
            proof {
                assert forall|q: int| 0 <= q < prefix.len() implies #[trigger] prefix[q].amount >= 0 by {
                    assert(prefix[q] == self.movements@[q]);
                }
                lemma_flow_bounds(prefix, shift_id@);
                assert(prefix.len() * i64::MAX <= 18446744073709551615 * i64::MAX) by (nonlinear_arith)
                    requires
                        prefix.len() <= 18446744073709551615,
                ;
            }
            let m = &self.movements[k];
            if m.shift_id == key {
                if m.movement_type.is_inflow_exec() {
                    total_in = total_in + m.amount as i128;
                } else {
                    total_out = total_out + m.amount as i128;
                }
                ms.insert(0, m.snapshot());
                assert(ms@ =~= seq![prefix.last()] + recent_first(prefix.drop_last(), shift_id@));
            }
            k = k + 1;
        }
        assert(self.movements@.take(k as int) =~= self.movements@);
        proof {
            lemma_flow_bounds(self.movements@, shift_id@);
            assert(self.movements@.len() * i64::MAX <= 18446744073709551615 * i64::MAX) by (nonlinear_arith)
                requires
                    self.movements@.len() <= 18446744073709551615,
            ;
        }
        let ghost linked_all = linked_transactions(ms@, self.transactions@);
        let mut sales: Vec<SaleTransaction> = Vec::new();
        let mut j: usize = 0;
        while j < ms.len()
            invariant
                j <= ms@.len(),
                sales@.len() == linked_transactions(ms@.take(j as int), self.transactions@).len(),
                forall|q: int|
                    0 <= q < sales@.len() ==> same_sale(
                        #[trigger] sales@[q],
                        linked_transactions(ms@.take(j as int), self.transactions@)[q],
                    ),
            decreases ms@.len() - j,
        {
            let ghost before = linked_transactions(ms@.take(j as int), self.transactions@);
            assert(ms@.take(j + 1).drop_last() =~= ms@.take(j as int));
            assert(ms@.take(j + 1).last() == ms@[j as int]);
            match &ms[j].transaction_id {
                Some(t) => {
                    if !t.as_str().is_empty() {
                        match self.find_sale(t.as_str()) {
                            Some(x) => {
                                sales.push(self.transactions[x].snapshot());
                            },
                            None => {},
                        }
                    }
                },
                None => {},
            }
            j = j + 1;
        }
        assert(ms@.take(j as int) =~= ms@);
        let shift = self.shifts[i].snapshot();
        let summary = CashSummary {
            total_cash_in: total_in,
            total_cash_out: total_out,
            net_movement: total_in - total_out,
            initial_cash: shift.initial_cash,
            expected_cash: shift.expected_cash,
            actual_cash: shift.actual_cash,
            difference: shift.difference,
        };
        Ok(
            ShiftReport {
                id: fresh_id(),
                shift_id: key,
                report_type: "daily".to_owned(),
                data: ShiftReportData { shift_info: shift, cash_summary: summary, movements: ms, transactions: sales },
                pdf_path: None,
                generated_at: now_rfc3339(),
                generated_by: user_id.to_owned(),
            },
        )
    }

    /// Stores a report. A report id that is already stored is refused.
    pub fn save_report(&mut self, report: ShiftReport) -> (r: Result<String, LedgerError>)
        requires
            old(self).wf(),
        ensures
            final(self).wf(),
            r is Err <==> old(self).has_report(report.id@),
            r is Err ==> r == Err::<String, LedgerError>(LedgerError::InvalidInput) && *final(self)
                == *old(self),
            r matches Ok(id) ==> {
                &&& id@ == report.id@
                &&& final(self).reports@ == old(self).reports@.push(report)
                &&& final(self).products == old(self).products
                &&& final(self).transactions == old(self).transactions
                &&& final(self).users == old(self).users
                &&& final(self).shifts == old(self).shifts
                &&& final(self).movements == old(self).movements
            },
    {
        let mut j: usize = 0;
        while j < self.reports.len()
            invariant
                *self == *old(self),
                old(self).wf(),
                j <= self.reports@.len(),
                forall|k: int| 0 <= k < j ==> self.reports@[k].id@ != report.id@,
            decreases self.reports@.len() - j,
        {
            if self.reports[j].id == report.id {
                return Err(LedgerError::InvalidInput);
            }
            j = j + 1;
        }
        let id = report.id.clone();
        let ghost before = *self;
        self.reports.push(report);
        proof {
            Ledger::lemma_wf_same_shifts_and_log(before, *self);
        }
        Ok(id)
    }

    /// The stored report with the given id.
    pub fn get_report(&self, id: &str) -> (r: Option<ShiftReport>)
        ensures
            match r {
                Some(rep) => first_report(self.reports@, id@) is Some && same_report(
                    rep,
                    self.reports@[first_report(self.reports@, id@)->Some_0],
                ),
                None => first_report(self.reports@, id@) is None,
            },
    {
        let key = id.to_owned();
        let mut j: usize = 0;
        while j < self.reports.len()
            invariant
                j <= self.reports@.len(),
                key@ == id@,
                forall|k: int| 0 <= k < j ==> self.reports@[k].id@ != id@,
            decreases self.reports@.len() - j,
        {
            if self.reports[j].id == key {
                return Some(self.reports[j].snapshot());
            }
            j = j + 1;
        }
        None
    }

    /// Every stored report, most recently stored first.
    pub fn list_reports(&self) -> (r: Vec<ShiftReport>)
        ensures
            r@.len() == self.reports@.len(),
            forall|k: int|
                0 <= k < r@.len() ==> same_report(
                    #[trigger] r@[k],
                    self.reports@[self.reports@.len() - 1 - k],
                ),
    {
        let n = self.reports.len();
        let mut out: Vec<ShiftReport> = Vec::new();
        let mut k: usize = 0;
        while k < n
            invariant
                n == self.reports@.len(),
                k <= n,
                out@.len() == k,
                forall|q: int| 0 <= q < k ==> same_report(#[trigger] out@[q], self.reports@[n - 1 - q]),
            decreases n - k,
        {
            out.push(self.reports[n - 1 - k].snapshot());
            k = k + 1;
        }
        out
    }

    /// Closes a shift, then builds and stores its report. The close stands
    /// even when the report cannot be stored; that outcome is handed back
    /// beside the shift id.
    pub fn close_shift_with_report(
        &mut self,
        shift_id: &str,
        actual_cash: i64,
        user_id: &str,
        notes: Option<String>,
    ) -> (r: Result<(String, Result<String, LedgerError>), LedgerError>)
        requires
            old(self).wf(),
        ensures
            final(self).wf(),
            actual_cash < 0 ==> r == Err::<(String, Result<String, LedgerError>), LedgerError>(
                LedgerError::InvalidInput,
            ),
            actual_cash >= 0 && !old(self).shift_exists(shift_id@) ==> r == Err::<
                (String, Result<String, LedgerError>),
                LedgerError,
            >(LedgerError::NotFound),
            actual_cash >= 0 && old(self).shift_exists(shift_id@) && old(self).shift_of(
                shift_id@,
            ).status == ShiftStatus::Closed ==> r == Err::<
                (String, Result<String, LedgerError>),
                LedgerError,
            >(LedgerError::ShiftClosed),
            actual_cash >= 0 && old(self).shift_exists(shift_id@) && old(self).shift_of(
                shift_id@,
            ).status == ShiftStatus::Open ==> {
                let d = actual_cash - old(self).shift_of(shift_id@).expected_cash;
                &&& (i64::MIN <= d <= i64::MAX) ==> r is Ok
                &&& !(i64::MIN <= d <= i64::MAX) ==> r == Err::<
                    (String, Result<String, LedgerError>),
                    LedgerError,
                >(LedgerError::InvalidInput)
            },
            r is Err ==> *final(self) == *old(self),
            r matches Ok(v) ==> {
                let before = old(self).shift_of(shift_id@);
                let after = final(self).shift_of(shift_id@);
                &&& v.0@ == shift_id@
                &&& final(self).shift_exists(shift_id@)
                &&& final(self).shift_index(shift_id@) == old(self).shift_index(shift_id@)
                &&& final(self).shifts@.len() == old(self).shifts@.len()
                &&& forall|j: int|
                    0 <= j < old(self).shifts@.len() && j != old(self).shift_index(
                        shift_id@,
                    )->Some_0 ==> final(self).shifts@[j] == old(self).shifts@[j]
                &&& after.id == before.id
                &&& after.user_id == before.user_id
                &&& after.start_time == before.start_time
                &&& after.initial_cash == before.initial_cash
                &&& after.expected_cash == before.expected_cash
                &&& after.status == ShiftStatus::Closed
                &&& after.end_time is Some
                &&& after.actual_cash == Some(actual_cash)
                &&& after.difference == Some((actual_cash - before.expected_cash) as i64)
                &&& after.notes == notes
                &&& final(self).movements == old(self).movements
                &&& final(self).products == old(self).products
                &&& final(self).transactions == old(self).transactions
                &&& final(self).users == old(self).users
                &&& v.1 is Ok ==> {
                    &&& final(self).reports@.drop_last() == old(self).reports@
                    &&& final(self).reports@.len() == old(self).reports@.len() + 1
                    &&& v.1->Ok_0@ == final(self).reports@.last().id@
                    &&& final(self).reports@.last().shift_id@ == shift_id@
                    &&& final(self).reports@.last().generated_by@ == user_id@
                    &&& final(self).reports@.last().report_type@ == "daily"@
                    &&& final(self).reports@.last().data.shift_info == after
                    &&& final(self).reports@.last().data.cash_summary == summary_of(
                        after,
                        final(self).movements@,
                    )
                }
                &&& v.1 is Err ==> v.1 == Err::<String, LedgerError>(LedgerError::InvalidInput)
                    && final(self).reports == old(self).reports
            },
    {
        let closed = self.close_shift(shift_id, actual_cash, user_id, notes);
        let id = match closed {
            Ok(id) => id,
            Err(e) => {
                return Err(e);
            },
        };
        proof {
            let i = old(self).shift_index(shift_id@)->Some_0;
            self.lemma_shift_index(shift_id@, i);
        }
        let saved = match self.generate_report(shift_id, user_id) {
            Ok(report) => self.save_report(report),
            Err(e) => Err(e),
        };
        proof {
            let i = old(self).shift_index(shift_id@)->Some_0;
            self.lemma_shift_index(shift_id@, i);
        }
        Ok((id, saved))
    }
}

} // verus!
