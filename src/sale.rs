use vstd::prelude::*;
use crate::ledger::{Ledger, LedgerError};
use crate::outside::{fresh_id, now_rfc3339};
use crate::report::same_sale;

verus! {

/// A catalog entry. Prices are in cents; stock may go negative after a sale.
pub struct Product {
    pub id: String,
    pub name: String,
    pub barcode: String,
    pub price: i64,
    pub stock: i64,
    pub category: String,
}

impl Product {
    /// An identical copy of this product.
    pub fn snapshot(&self) -> (r: Product)
        ensures
            r == *self,
    {
        Product {
            id: self.id.clone(),
            name: self.name.clone(),
            barcode: self.barcode.clone(),
            price: self.price,
            stock: self.stock,
            category: self.category.clone(),
        }
    }
}

/// One line of a sale: product reference, name and unit price as sold, and
/// the line subtotal.
pub struct TransactionItem {
    pub product_id: String,
    pub name: String,
    pub quantity: i64,
    pub price: i64,
    pub subtotal: i64,
}

impl TransactionItem {
    pub fn snapshot(&self) -> (r: TransactionItem)
        ensures
            r == *self,
    {
        TransactionItem {
            product_id: self.product_id.clone(),
            name: self.name.clone(),
            quantity: self.quantity,
            price: self.price,
            subtotal: self.subtotal,
        }
    }
}

/// A settled sale. Never edited once stored.
pub struct SaleTransaction {
    pub id: String,
    pub items: Vec<TransactionItem>,
    pub total: i64,
    pub timestamp: String,
    pub payment_method: String,
}

impl SaleTransaction {
    pub fn snapshot(&self) -> (r: SaleTransaction)
        ensures
            r.id == self.id,
            r.items@ == self.items@,
            r.total == self.total,
            r.timestamp == self.timestamp,
            r.payment_method == self.payment_method,
    {
        let mut items: Vec<TransactionItem> = Vec::new();
        let mut i: usize = 0;
        while i < self.items.len()
            invariant
                i <= self.items@.len(),
                items@ == self.items@.take(i as int),
            decreases self.items@.len() - i,
        {
            items.push(self.items[i].snapshot());
            assert(self.items@.take(i + 1) =~= self.items@.take(i as int).push(self.items@[i as int]));
            i = i + 1;
        }
        assert(self.items@.take(i as int) =~= self.items@);
        SaleTransaction {
            id: self.id.clone(),
            items,
            total: self.total,
            timestamp: self.timestamp.clone(),
            payment_method: self.payment_method.clone(),
        }
    }
}

/// What a line is worth: quantity times unit price.
pub open spec fn line_total(it: TransactionItem) -> int {
    it.quantity * it.price
}

/// The sum of the line totals, in order.
pub open spec fn sale_total(items: Seq<TransactionItem>) -> int
    decreases items.len(),
{
    if items.len() == 0 {
        0
    } else {
        sale_total(items.drop_last()) + line_total(items.last())
    }
}

/// How many units of product `pid` the lines take.
pub open spec fn quantity_sold(items: Seq<TransactionItem>, pid: Seq<char>) -> int
    decreases items.len(),
{
    if items.len() == 0 {
        0
    } else {
        quantity_sold(items.drop_last(), pid) + if items.last().product_id@ == pid {
            items.last().quantity as int
        } else {
            0
        }
    }
}

/// Every line sells a positive quantity at a non-negative price.
pub open spec fn lines_valid(items: Seq<TransactionItem>) -> bool {
    forall|i: int| 0 <= i < items.len() ==> #[trigger] items[i].quantity > 0 && items[i].price >= 0
}

/// The line names a product of the catalog.
pub open spec fn line_known(products: Seq<Product>, it: TransactionItem) -> bool {
    exists|j: int| 0 <= j < products.len() && #[trigger] products[j].id@ == it.product_id@
}

/// Every line names a product of the catalog.
pub open spec fn lines_known(products: Seq<Product>, items: Seq<TransactionItem>) -> bool {
    forall|i: int| 0 <= i < items.len() ==> #[trigger] line_known(products, items[i])
}

/// The stock that each product keeps after the lines are taken from it.
pub open spec fn stock_after(p: Product, items: Seq<TransactionItem>) -> int {
    p.stock - quantity_sold(items, p.id@)
}

/// Every product's remaining stock is still an `i64`.
pub open spec fn stock_fits(products: Seq<Product>, items: Seq<TransactionItem>) -> bool {
    forall|j: int| 0 <= j < products.len() ==> #[trigger] stock_after(products[j], items) >= i64::MIN
}

/// The line as stored: the caller's subtotal is replaced by the computed one.
pub open spec fn settled_line(it: TransactionItem) -> TransactionItem {
    TransactionItem { subtotal: line_total(it) as i64, ..it }
}

pub proof fn lemma_sale_total_grows(items: Seq<TransactionItem>, k: int)
    requires
        lines_valid(items),
        0 <= k <= items.len(),
    ensures
        sale_total(items.take(k)) <= sale_total(items),
    decreases items.len() - k,
{
    if k < items.len() {
        let next = items.take(k + 1);
        assert(next.drop_last() =~= items.take(k));
        let q = items[k].quantity as int;
        let pr = items[k].price as int;
        assert(q > 0 && pr >= 0);
        assert(q * pr >= 0) by (nonlinear_arith)
            requires
                q > 0,
                pr >= 0,
        ;
        lemma_sale_total_grows(items, k + 1);
    } else {
        assert(items.take(k) =~= items);
    }
}

pub proof fn lemma_quantity_sold_grows(items: Seq<TransactionItem>, pid: Seq<char>, k: int)
    requires
        lines_valid(items),
        0 <= k <= items.len(),
    ensures
        quantity_sold(items.take(k), pid) <= quantity_sold(items, pid),
    decreases items.len() - k,
{
    if k < items.len() {
        assert(items.take(k + 1).drop_last() =~= items.take(k));
        assert(items[k].quantity > 0);
        lemma_quantity_sold_grows(items, pid, k + 1);
    } else {
        assert(items.take(k) =~= items);
    }
}

impl Ledger {
    /// Every stored sale with its lines, most recently stored first.
    pub fn list_transactions(&self) -> (r: Vec<SaleTransaction>)
        ensures
            r@.len() == self.transactions@.len(),
            forall|k: int|
                0 <= k < r@.len() ==> same_sale(
                    #[trigger] r@[k],
                    self.transactions@[self.transactions@.len() - 1 - k],
                ),
    {
        let n = self.transactions.len();
        let mut out: Vec<SaleTransaction> = Vec::new();
        let mut k: usize = 0;
        while k < n
            invariant
                n == self.transactions@.len(),
                k <= n,
                out@.len() == k,
                forall|q: int|
                    0 <= q < k ==> same_sale(#[trigger] out@[q], self.transactions@[n - 1 - q]),
            decreases n - k,
        {
            out.push(self.transactions[n - 1 - k].snapshot());
            k = k + 1;
        }
        out
    }

    /// Position of the first product with the given id.
    pub fn find_product(&self, id: &str) -> (r: Option<usize>)
        ensures
            match r {
                Some(j) => j < self.products@.len() && self.products@[j as int].id@ == id@
                    && forall|k: int| 0 <= k < j ==> self.products@[k].id@ != id@,
                None => forall|k: int| 0 <= k < self.products@.len() ==> self.products@[k].id@ != id@,
            },
    {
        let key = id.to_owned();
        let mut j: usize = 0;
        while j < self.products.len()
            invariant
                j <= self.products@.len(),
                key@ == id@,
                forall|k: int| 0 <= k < j ==> self.products@[k].id@ != id@,
            decreases self.products@.len() - j,
        {
            if self.products[j].id == key {
                return Some(j);
            }
            j = j + 1;
        }
        None
    }

    pub open spec fn has_sale(self, id: Seq<char>) -> bool {
        exists|k: int| 0 <= k < self.transactions@.len() && #[trigger] self.transactions@[k].id@ == id
    }

    /// `after` is this store with sale `t` of `items` stored under an id that
    /// no stored sale has, and each line's quantity taken off its product.
    pub open spec fn settled(
        self,
        after: Ledger,
        items: Seq<TransactionItem>,
        payment_method: Seq<char>,
        t: SaleTransaction,
    ) -> bool {
        &&& t.total == sale_total(items)
        &&& t.items@.len() == items.len()
        &&& forall|i: int| 0 <= i < items.len() ==> t.items@[i] == settled_line(items[i])
        &&& t.payment_method@ == payment_method
        &&& after.transactions@.len() == self.transactions@.len() + 1
        &&& after.transactions@.drop_last() == self.transactions@
        &&& after.transactions@.last().id == t.id
        &&& after.transactions@.last().items@ == t.items@
        &&& after.transactions@.last().total == t.total
        &&& after.transactions@.last().timestamp == t.timestamp
        &&& after.transactions@.last().payment_method == t.payment_method
        &&& after.products@.len() == self.products@.len()
        &&& forall|j: int|
            0 <= j < self.products@.len() ==> #[trigger] after.products@[j]
                == (Product {
                stock: stock_after(self.products@[j], items) as i64,
                ..self.products@[j]
            })
        &&& after.shifts == self.shifts
        &&& after.movements == self.movements
        &&& after.users == self.users
        &&& after.reports == self.reports
        &&& !self.has_sale(t.id@)
    }

    /// Whether a sale with this id is stored.
    pub fn sale_id_used(&self, id: &str) -> (r: bool)
        ensures
            r == self.has_sale(id@),
    {
        let key = id.to_owned();
        let mut k: usize = 0;
        while k < self.transactions.len()
            invariant
                k <= self.transactions@.len(),
                key@ == id@,
                forall|q: int| 0 <= q < k ==> self.transactions@[q].id@ != id@,
            decreases self.transactions@.len() - k,
        {
            if self.transactions[k].id == key {
                return true;
            }
            k = k + 1;
        }
        false
    }

    /// Settles a sale: recomputes every subtotal and the total from quantity
    /// and unit price, stores the transaction under a fresh id drawn at
    /// random, and takes each line's quantity off its product's stock. Stock
    /// may go below zero. Nothing is stored unless all of it succeeds.
    pub fn settle_sale(&mut self, items: Vec<TransactionItem>, payment_method: &str) -> (r: Result<
        SaleTransaction,
        LedgerError,
    >)
        requires
            old(self).wf(),
        ensures
            final(self).wf(),
            !lines_valid(items@) ==> r == Err::<SaleTransaction, LedgerError>(LedgerError::InvalidInput),
            lines_valid(items@) && !lines_known(old(self).products@, items@) ==> r == Err::<
                SaleTransaction,
                LedgerError,
            >(LedgerError::NotFound),
            lines_valid(items@) && lines_known(old(self).products@, items@) ==> {
                let fits = sale_total(items@) <= i64::MAX && stock_fits(old(self).products@, items@);
                &&& fits ==> r is Ok || r == Err::<SaleTransaction, LedgerError>(LedgerError::StorageFailure)
                &&& !fits ==> r == Err::<SaleTransaction, LedgerError>(LedgerError::InvalidInput)
            },
            r is Err ==> *final(self) == *old(self),
            r matches Ok(t) ==> old(self).settled(*final(self), items@, payment_method@, t),
    {
        let sale_id = fresh_id();
        let timestamp = now_rfc3339();
        self.settle_sale_with_id(items, payment_method, sale_id, timestamp)
    }

    /// Settles a sale under the given id and time. An id that is already
    /// stored is a storage failure.
    pub fn settle_sale_with_id(
        &mut self,
        items: Vec<TransactionItem>,
        payment_method: &str,
        sale_id: String,
        timestamp: String,
    ) -> (r: Result<SaleTransaction, LedgerError>)
        requires
            old(self).wf(),
        ensures
            final(self).wf(),
            !lines_valid(items@) ==> r == Err::<SaleTransaction, LedgerError>(LedgerError::InvalidInput),
            lines_valid(items@) && !lines_known(old(self).products@, items@) ==> r == Err::<
                SaleTransaction,
                LedgerError,
            >(LedgerError::NotFound),
            lines_valid(items@) && lines_known(old(self).products@, items@) ==> {
                let fits = sale_total(items@) <= i64::MAX && stock_fits(old(self).products@, items@);
                &&& fits && !old(self).has_sale(sale_id@) ==> r is Ok
                &&& fits && old(self).has_sale(sale_id@) ==> r == Err::<SaleTransaction, LedgerError>(
                    LedgerError::StorageFailure,
                )
                &&& !fits ==> r == Err::<SaleTransaction, LedgerError>(LedgerError::InvalidInput)
            },
            r is Err ==> *final(self) == *old(self),
            r matches Ok(t) ==> t.id == sale_id && t.timestamp == timestamp && old(self).settled(*final(self), items@, payment_method@, t),
    {
        let n = items.len();
        let mut i: usize = 0;
        while i < n
            invariant
                n == items@.len(),
                i <= n,
                *self == *old(self),
                old(self).wf(),
                forall|k: int| 0 <= k < i ==> #[trigger] items@[k].quantity > 0 && items@[k].price >= 0,
            decreases n - i,
        {
            if items[i].quantity <= 0 || items[i].price < 0 {
                return Err(LedgerError::InvalidInput);
            }
            i = i + 1;
        }
        i = 0;
        while i < n
            invariant
                n == items@.len(),
                i <= n,
                lines_valid(items@),
                *self == *old(self),
                old(self).wf(),
                forall|k: int| 0 <= k < i ==> #[trigger] line_known(old(self).products@, items@[k]),
            decreases n - i,
        {
            match self.find_product(items[i].product_id.as_str()) {
                Some(_) => {
                    assert(line_known(old(self).products@, items@[i as int]));
                },
                None => {
                    assert(!line_known(old(self).products@, items@[i as int]));
                    return Err(LedgerError::NotFound);
                },
            }
            i = i + 1;
        }
        assert(lines_known(old(self).products@, items@));
        let mut total: i64 = 0;
        i = 0;
        while i < n
            invariant
                n == items@.len(),
                i <= n,
                lines_valid(items@),
                lines_known(old(self).products@, items@),
                *self == *old(self),
                old(self).wf(),
                total == sale_total(items@.take(i as int)),
            decreases n - i,
        {
            let ghost next = items@.take(i + 1);
            assert(next.drop_last() =~= items@.take(i as int));
            assert(next.last() == items@[i as int]);
            assert(sale_total(next) == sale_total(items@.take(i as int)) + line_total(items@[i as int]));
            let line = match items[i].quantity.checked_mul(items[i].price) {
                Some(v) => v,
                None => {
                    proof {
                        let q = items@[i as int].quantity as int;
                        let pr = items@[i as int].price as int;
                        assert(q * pr >= 0) by (nonlinear_arith)
                            requires
                                q > 0,
                                pr >= 0,
                        ;
                        lemma_sale_total_grows(items@, i + 1);
                        lemma_prefix_valid(items@, i as int);
                        lemma_sale_total_nonneg(items@.take(i as int));
                    }
                    return Err(LedgerError::InvalidInput);
                },
            };
            total = match total.checked_add(line) {
                Some(v) => v,
                None => {
                    proof {
                        lemma_sale_total_grows(items@, i + 1);
                        assert(sale_total(items@) > i64::MAX);
                    }
                    return Err(LedgerError::InvalidInput);
                },
            };
            i = i + 1;
        }
        assert(items@.take(n as int) =~= items@);
        let np = self.products.len();
        let mut new_stocks: Vec<i64> = Vec::new();
        let mut j: usize = 0;
        while j < np
            invariant
                n == items@.len(),
                np == self.products@.len(),
                j <= np,
                lines_valid(items@),
                lines_known(old(self).products@, items@),
                *self == *old(self),
                old(self).wf(),
                new_stocks@.len() == j,
                forall|k: int|
                    0 <= k < j ==> new_stocks@[k] == stock_after(self.products@[k], items@),
            decreases np - j,
        {
            let mut stock = self.products[j].stock;
            let mut k: usize = 0;
            while k < n
                invariant
                    n == items@.len(),
                    j < np,
                    np == self.products@.len(),
                    k <= n,
                    lines_valid(items@),
                    lines_known(old(self).products@, items@),
                    *self == *old(self),
                old(self).wf(),
                    stock == self.products@[j as int].stock - quantity_sold(
                        items@.take(k as int),
                        self.products@[j as int].id@,
                    ),
                decreases n - k,
            {
                assert(items@.take(k + 1).drop_last() =~= items@.take(k as int));
                if items[k].product_id == self.products[j].id {
                    stock = match stock.checked_sub(items[k].quantity) {
                        Some(v) => v,
                        None => {
                            proof {
                                lemma_quantity_sold_grows(items@, self.products@[j as int].id@, k + 1);
                                assert(stock_after(self.products@[j as int], items@) < i64::MIN);
                            }
                            return Err(LedgerError::InvalidInput);
                        },
                    };
                }
                k = k + 1;
            }
            assert(items@.take(n as int) =~= items@);
            new_stocks.push(stock);
            j = j + 1;
        }
        assert forall|k: int| 0 <= k < np implies #[trigger] stock_after(old(self).products@[k], items@)
            >= i64::MIN by {
            assert(new_stocks@[k] == stock_after(self.products@[k], items@));
        }
        let mut lines: Vec<TransactionItem> = Vec::new();
        i = 0;
        while i < n
            invariant
                n == items@.len(),
                i <= n,
                lines_valid(items@),
                sale_total(items@) <= i64::MAX,
                lines_known(old(self).products@, items@),
                *self == *old(self),
                old(self).wf(),
                lines@.len() == i,
                forall|k: int| 0 <= k < i ==> lines@[k] == settled_line(items@[k]),
            decreases n - i,
        {
            proof {
                lemma_sale_total_grows(items@, i + 1);
                lemma_sale_total_grows(items@, i as int);
                assert(items@.take(i + 1).drop_last() =~= items@.take(i as int));
                let q = items@[i as int].quantity as int;
                let pr = items@[i as int].price as int;
                assert(q * pr >= 0) by (nonlinear_arith)
                    requires
                        q > 0,
                        pr >= 0,
                ;
                assert(sale_total(items@.take(i as int)) >= 0) by {
                    lemma_sale_total_nonneg(items@.take(i as int));
                }
            }
            let it = &items[i];
            lines.push(
                TransactionItem {
                    product_id: it.product_id.clone(),
                    name: it.name.clone(),
                    quantity: it.quantity,
                    price: it.price,
                    subtotal: it.quantity * it.price,
                },
            );
            i = i + 1;
        }
        if self.sale_id_used(sale_id.as_str()) {
            return Err(LedgerError::StorageFailure);
        }
        let sale = SaleTransaction {
            id: sale_id,
            items: lines,
            total,
            timestamp,
            payment_method: payment_method.to_owned(),
        };
        let result = sale.snapshot();
        let ghost sale_spec = sale;
        self.transactions.push(sale);
        let ghost old_products = self.products@;
        j = 0;
        while j < np
            invariant
                np == self.products@.len(),
                np == old_products.len(),
                old_products == old(self).products@,
                self.shifts == old(self).shifts,
                old(self).wf(),
                self.movements == old(self).movements,
                self.users == old(self).users,
                self.reports == old(self).reports,
                self.transactions@ == old(self).transactions@.push(sale_spec),
                !old(self).has_sale(sale_spec.id@),
                lines_known(old(self).products@, items@),
                j <= np,
                new_stocks@.len() == np,
                forall|k: int|
                    0 <= k < np ==> new_stocks@[k] == stock_after(old_products[k], items@),
                forall|k: int|
                    0 <= k < j ==> #[trigger] self.products@[k] == (Product {
                        stock: stock_after(old_products[k], items@) as i64,
                        ..old_products[k]
                    }),
                forall|k: int| j <= k < np ==> #[trigger] self.products@[k] == old_products[k],
            decreases np - j,
        {
            let mut p = self.products[j].snapshot();
            p.stock = new_stocks[j];
            self.products.set(j, p);
            j = j + 1;
        }
        proof {
            Ledger::lemma_wf_same_shifts_and_log(*old(self), *self);
        }
        assert(self.transactions@.drop_last() == old(self).transactions@);
        Ok(result)
    }
}

pub proof fn lemma_prefix_valid(items: Seq<TransactionItem>, k: int)
    requires
        lines_valid(items),
        0 <= k <= items.len(),
    ensures
        lines_valid(items.take(k)),
{
    assert forall|i: int| 0 <= i < items.take(k).len() implies #[trigger] items.take(k)[i].quantity > 0
        && items.take(k)[i].price >= 0 by {
        assert(items.take(k)[i] == items[i]);
    }
}

pub proof fn lemma_sale_total_nonneg(items: Seq<TransactionItem>)
    requires
        lines_valid(items),
    ensures
        sale_total(items) >= 0,
    decreases items.len(),
{
    if items.len() > 0 {
        let q = items.last().quantity as int;
        let pr = items.last().price as int;
        assert(items.last().quantity > 0);
        assert(q * pr >= 0) by (nonlinear_arith)
            requires
                q > 0,
                pr >= 0,
        ;
        assert forall|i: int| 0 <= i < items.drop_last().len() implies #[trigger] items.drop_last()[i].quantity > 0
            && items.drop_last()[i].price >= 0 by {
            assert(items.drop_last()[i] == items[i]);
        }
        lemma_sale_total_nonneg(items.drop_last());
    }
}

} // verus!
