use vstd::prelude::*;
use crate::ledger::{Ledger, ShiftStatus};
use crate::movement::{effect_sum, lemma_effect_sum_remove, lemma_effect_sum_splits};
use crate::report::{first_report, summary_of, ShiftReport};
use crate::sale::{
    lemma_prefix_valid, lemma_sale_total_grows, lemma_sale_total_nonneg, line_total, lines_valid,
    sale_total, settled_line, TransactionItem,
};

verus! {

/// Whatever movements were posted, a shift's expected cash is the replay of
/// its movement log from zero, opening float included; equally, it is the
/// opening float plus the replay of the movements posted after it.
pub proof fn lemma_expected_cash_replays(l: Ledger, i: int)
    requires
        l.wf(),
        0 <= i < l.shifts@.len(),
    ensures
        l.shifts@[i].expected_cash == effect_sum(l.movements@, l.shifts@[i].id@),
        l.is_opening(i, l.opening_index(i)),
        l.shifts@[i].expected_cash == l.shifts@[i].initial_cash + effect_sum(
            l.movements@.remove(l.opening_index(i)),
            l.shifts@[i].id@,
        ),
{
    assert(l.has_opening(i));
    let k = l.opening_index(i);
    lemma_effect_sum_remove(l.movements@, l.shifts@[i].id@, k);
}

/// A user never holds two open shifts at once.
pub proof fn lemma_one_open_shift_per_user(l: Ledger, i: int, j: int)
    requires
        l.wf(),
        0 <= i < l.shifts@.len(),
        0 <= j < l.shifts@.len(),
        l.shifts@[i].status == ShiftStatus::Open,
        l.shifts@[j].status == ShiftStatus::Open,
        l.shifts@[i].user_id@ == l.shifts@[j].user_id@,
    ensures
        i == j,
{
}

/// The net movement in a shift's cash summary is its expected cash; when the
/// opening float is zero it is also the expected cash less the opening float.
pub proof fn lemma_net_movement_matches_expected(l: Ledger, i: int)
    requires
        l.wf(),
        0 <= i < l.shifts@.len(),
    ensures
        summary_of(l.shifts@[i], l.movements@).net_movement == l.shifts@[i].expected_cash,
        l.shifts@[i].initial_cash == 0 ==> summary_of(l.shifts@[i], l.movements@).net_movement
            == l.shifts@[i].expected_cash - l.shifts@[i].initial_cash,
{
    lemma_effect_sum_splits(l.movements@, l.shifts@[i].id@);
}

/// A report stored under an id that no stored report has is the one found
/// again under that id.
pub proof fn lemma_saved_report_reloads(reports: Seq<ShiftReport>, report: ShiftReport)
    requires
        forall|k: int| 0 <= k < reports.len() ==> reports[k].id@ != report.id@,
    ensures
        first_report(reports.push(report), report.id@) == Some(reports.len() as int),
        reports.push(report)[reports.len() as int] == report,
{
    let all = reports.push(report);
    let n = reports.len() as int;
    assert(all[n].id@ == report.id@);
    assert(forall|k: int| 0 <= k < n ==> all[k] == reports[k]);
    let j = choose|j: int|
        0 <= j < all.len() && all[j].id@ == report.id@ && forall|k: int|
            0 <= k < j ==> all[k].id@ != report.id@;
    assert(j == n);
}

/// The sum of the stored subtotals of the lines.
pub open spec fn subtotal_sum(lines: Seq<TransactionItem>) -> int
    decreases lines.len(),
{
    if lines.len() == 0 {
        0
    } else {
        subtotal_sum(lines.drop_last()) + lines.last().subtotal
    }
}

/// A settled sale's total is the sum of the subtotals stored on its lines.
pub proof fn lemma_settled_total_is_sum_of_lines(items: Seq<TransactionItem>, lines: Seq<TransactionItem>)
    requires
        lines_valid(items),
        sale_total(items) <= i64::MAX,
        lines.len() == items.len(),
        forall|i: int| 0 <= i < items.len() ==> lines[i] == settled_line(items[i]),
    ensures
        subtotal_sum(lines) == sale_total(items),
{
    lemma_settled_prefix(items, lines, items.len() as int);
    assert(items.take(items.len() as int) =~= items);
    assert(lines.take(lines.len() as int) =~= lines);
}

proof fn lemma_settled_prefix(items: Seq<TransactionItem>, lines: Seq<TransactionItem>, k: int)
    requires
        lines_valid(items),
        sale_total(items) <= i64::MAX,
        lines.len() == items.len(),
        forall|i: int| 0 <= i < items.len() ==> lines[i] == settled_line(items[i]),
        0 <= k <= items.len(),
    ensures
        subtotal_sum(lines.take(k)) == sale_total(items.take(k)),
    decreases k,
{
    if k > 0 {
        lemma_settled_prefix(items, lines, k - 1);
        assert(lines.take(k).drop_last() =~= lines.take(k - 1));
        assert(items.take(k).drop_last() =~= items.take(k - 1));
        assert(items.take(k).last() == items[k - 1]);
        assert(lines.take(k).last() == lines[k - 1]);
        lemma_sale_total_grows(items, k);
        lemma_prefix_valid(items, k - 1);
        lemma_sale_total_nonneg(items.take(k - 1));
        let q = items[k - 1].quantity as int;
        let pr = items[k - 1].price as int;
        assert(q * pr >= 0) by (nonlinear_arith)
            requires
                q > 0,
                pr >= 0,
        ;
        assert(0 <= line_total(items[k - 1]) <= i64::MAX);
    }
}

} // verus!
