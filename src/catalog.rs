use vstd::prelude::*;
use crate::ledger::{Ledger, LedgerError};
use crate::outside::fresh_id;
use crate::sale::Product;

verus! {

/// Whether some product other than `id` carries `barcode`.
pub open spec fn barcode_taken(products: Seq<Product>, barcode: Seq<char>, id: Seq<char>) -> bool {
    exists|k: int| 0 <= k < products.len() && products[k].barcode@ == barcode && products[k].id@ != id
}

/// Whether some product carries `barcode`.
pub open spec fn barcode_used(products: Seq<Product>, barcode: Seq<char>) -> bool {
    exists|k: int| 0 <= k < products.len() && products[k].barcode@ == barcode
}

pub open spec fn has_product(products: Seq<Product>, id: Seq<char>) -> bool {
    exists|k: int| 0 <= k < products.len() && products[k].id@ == id
}

/// The catalog with every product of id `id` taken out, order kept.
pub open spec fn without_product(products: Seq<Product>, id: Seq<char>) -> Seq<Product>
    decreases products.len(),
{
    if products.len() == 0 {
        Seq::empty()
    } else if products.last().id@ == id {
        without_product(products.drop_last(), id)
    } else {
        without_product(products.drop_last(), id).push(products.last())
    }
}

/// Whether some stored sale has a line for product `id`.
pub open spec fn product_sold(l: Ledger, id: Seq<char>) -> bool {
    exists|t: int, i: int|
        0 <= t < l.transactions@.len() && 0 <= i < l.transactions@[t].items@.len()
            && #[trigger] l.transactions@[t].items@[i].product_id@ == id
}

fn barcode_in_use(store: &Ledger, barcode: &str, id: &str) -> (r: bool)
    ensures
        r == barcode_taken(store.products@, barcode@, id@),
{
    let code = barcode.to_owned();
    let key = id.to_owned();
    let mut k: usize = 0;
    while k < store.products.len()
        invariant
            k <= store.products@.len(),
            code@ == barcode@,
            key@ == id@,
            forall|q: int|
                0 <= q < k ==> !(store.products@[q].barcode@ == barcode@ && store.products@[q].id@
                    != id@),
        decreases store.products@.len() - k,
    {
        if store.products[k].barcode == code && !(store.products[k].id == key) {
            return true;
        }
        k = k + 1;
    }
    false
}

fn barcode_present(store: &Ledger, barcode: &str) -> (r: bool)
    ensures
        r == barcode_used(store.products@, barcode@),
{
    let code = barcode.to_owned();
    let mut k: usize = 0;
    while k < store.products.len()
        invariant
            k <= store.products@.len(),
            code@ == barcode@,
            forall|q: int| 0 <= q < k ==> store.products@[q].barcode@ != barcode@,
        decreases store.products@.len() - k,
    {
        if store.products[k].barcode == code {
            return true;
        }
        k = k + 1;
    }
    false
}

/// `after` is `before` with one new product appended, under an id that no
/// product of `before` has; nothing else changes.
pub open spec fn product_added(
    before: Ledger,
    after: Ledger,
    id: Seq<char>,
    name: Seq<char>,
    barcode: Seq<char>,
    price: i64,
    stock: i64,
    category: Seq<char>,
) -> bool {
    &&& !has_product(before.products@, id)
    &&& after.products@.len() == before.products@.len() + 1
    &&& after.products@.drop_last() == before.products@
    &&& after.products@.last().id@ == id
    &&& after.products@.last().name@ == name
    &&& after.products@.last().barcode@ == barcode
    &&& after.products@.last().price == price
    &&& after.products@.last().stock == stock
    &&& after.products@.last().category@ == category
    &&& after.transactions == before.transactions
    &&& after.users == before.users
    &&& after.shifts == before.shifts
    &&& after.movements == before.movements
    &&& after.reports == before.reports
}

/// Adds a product under a fresh id drawn at random. Negative prices and
/// barcodes already in the catalog are refused.
pub fn add_product(store: &mut Ledger, name: &str, barcode: &str, price: i64, stock: i64, category: &str) -> (r:
    Result<String, LedgerError>)
    requires
        old(store).wf(),
    ensures
        final(store).wf(),
        price < 0 || barcode_used(old(store).products@, barcode@) ==> r == Err::<
            String,
            LedgerError,
        >(LedgerError::InvalidInput),
        !(price < 0 || barcode_used(old(store).products@, barcode@)) ==> r is Ok || r == Err::<
            String,
            LedgerError,
        >(LedgerError::StorageFailure),
        r is Err ==> *final(store) == *old(store),
        r matches Ok(id) ==> product_added(
            *old(store),
            *final(store),
            id@,
            name@,
            barcode@,
            price,
            stock,
            category@,
        ),
{
    let id = fresh_id();
    add_product_with_id(store, id, name, barcode, price, stock, category)
}

/// Adds a product under the given id. Negative prices and barcodes already
/// in the catalog are refused; an id already in the catalog is a storage
/// failure.
pub fn add_product_with_id(
    store: &mut Ledger,
    id: String,
    name: &str,
    barcode: &str,
    price: i64,
    stock: i64,
    category: &str,
) -> (r: Result<String, LedgerError>)
    requires
        old(store).wf(),
    ensures
        final(store).wf(),
        price < 0 || barcode_used(old(store).products@, barcode@) ==> r == Err::<
            String,
            LedgerError,
        >(LedgerError::InvalidInput),
        !(price < 0 || barcode_used(old(store).products@, barcode@)) && has_product(
            old(store).products@,
            id@,
        ) ==> r == Err::<String, LedgerError>(LedgerError::StorageFailure),
        !(price < 0 || barcode_used(old(store).products@, barcode@)) && !has_product(
            old(store).products@,
            id@,
        ) ==> r is Ok,
        r is Err ==> *final(store) == *old(store),
        r matches Ok(got) ==> got == id && product_added(
            *old(store),
            *final(store),
            id@,
            name@,
            barcode@,
            price,
            stock,
            category@,
        ),
{
    if price < 0 || barcode_present(store, barcode) {
        return Err(LedgerError::InvalidInput);
    }
    if store.find_product(id.as_str()).is_some() {
        return Err(LedgerError::StorageFailure);
    }
    let ghost before = *store;
    store.products.push(
        Product {
            id: id.clone(),
            name: name.to_owned(),
            barcode: barcode.to_owned(),
            price,
            stock,
            category: category.to_owned(),
        },
    );
    proof {
        Ledger::lemma_wf_same_shifts_and_log(before, *store);
        assert(store.products@.drop_last() =~= before.products@);
    }
    Ok(id)
}

/// Rewrites every field but the id of the product with id `id`.
pub fn update_product(
    store: &mut Ledger,
    id: &str,
    name: &str,
    barcode: &str,
    price: i64,
    stock: i64,
    category: &str,
) -> (r: Result<(), LedgerError>)
    requires
        old(store).wf(),
    ensures
        final(store).wf(),
        price < 0 || barcode_taken(old(store).products@, barcode@, id@) ==> r == Err::<(), LedgerError>(
            LedgerError::InvalidInput,
        ),
        !(price < 0 || barcode_taken(old(store).products@, barcode@, id@)) && !has_product(
            old(store).products@,
            id@,
        ) ==> r == Err::<(), LedgerError>(LedgerError::NotFound),
        !(price < 0 || barcode_taken(old(store).products@, barcode@, id@)) && has_product(
            old(store).products@,
            id@,
        ) ==> r is Ok,
        r is Err ==> *final(store) == *old(store),
        r is Ok ==> {
            &&& final(store).products@.len() == old(store).products@.len()
            &&& forall|k: int|
                0 <= k < old(store).products@.len() ==> {
                    let p = #[trigger] final(store).products@[k];
                    let q = old(store).products@[k];
                    if q.id@ == id@ {
                        p.id == q.id && p.name@ == name@ && p.barcode@ == barcode@ && p.price
                            == price && p.stock == stock && p.category@ == category@
                    } else {
                        p == q
                    }
                }
            &&& final(store).transactions == old(store).transactions
            &&& final(store).shifts == old(store).shifts
            &&& final(store).movements == old(store).movements
        },
{
    if price < 0 || barcode_in_use(store, barcode, id) {
        return Err(LedgerError::InvalidInput);
    }
    if store.find_product(id).is_none() {
        return Err(LedgerError::NotFound);
    }
    let key = id.to_owned();
    let ghost before = *store;
    let n = store.products.len();
    let mut k: usize = 0;
    while k < n
        invariant
            n == store.products@.len(),
            n == before.products@.len(),
            k <= n,
            key@ == id@,
            before.wf(),
            store.shifts == before.shifts,
            store.movements == before.movements,
            store.transactions == before.transactions,
            forall|q: int| k <= q < n ==> #[trigger] store.products@[q] == before.products@[q],
            forall|q: int|
                0 <= q < k ==> {
                    let p = #[trigger] store.products@[q];
                    let o = before.products@[q];
                    if o.id@ == id@ {
                        p.id == o.id && p.name@ == name@ && p.barcode@ == barcode@ && p.price
                            == price && p.stock == stock && p.category@ == category@
                    } else {
                        p == o
                    }
                },
        decreases n - k,
    {
        if store.products[k].id == key {
            let p = Product {
                id: store.products[k].id.clone(),
                name: name.to_owned(),
                barcode: barcode.to_owned(),
                price,
                stock,
                category: category.to_owned(),
            };
            store.products.set(k, p);
        }
        k = k + 1;
    }
    proof {
        Ledger::lemma_wf_same_shifts_and_log(before, *store);
    }
    Ok(())
}

/// Sets the stock of the product with id `product_id`.
pub fn update_product_stock(store: &mut Ledger, product_id: &str, new_stock: i64) -> (r: Result<
    (),
    LedgerError,
>)
    requires
        old(store).wf(),
    ensures
        final(store).wf(),
        r is Err <==> !has_product(old(store).products@, product_id@),
        r is Err ==> r == Err::<(), LedgerError>(LedgerError::NotFound) && *final(store) == *old(
            store,
        ),
        r is Ok ==> {
            &&& final(store).products@.len() == old(store).products@.len()
            &&& forall|k: int|
                0 <= k < old(store).products@.len() ==> #[trigger] final(store).products@[k] == if old(
                    store,
                ).products@[k].id@ == product_id@ {
                    Product { stock: new_stock, ..old(store).products@[k] }
                } else {
                    old(store).products@[k]
                }
            &&& final(store).transactions == old(store).transactions
            &&& final(store).shifts == old(store).shifts
            &&& final(store).movements == old(store).movements
        },
{
    if store.find_product(product_id).is_none() {
        return Err(LedgerError::NotFound);
    }
    let key = product_id.to_owned();
    let ghost before = *store;
    let n = store.products.len();
    let mut k: usize = 0;
    while k < n
        invariant
            n == store.products@.len(),
            n == before.products@.len(),
            k <= n,
            key@ == product_id@,
            before.wf(),
            store.shifts == before.shifts,
            store.movements == before.movements,
            store.transactions == before.transactions,
            forall|q: int| k <= q < n ==> #[trigger] store.products@[q] == before.products@[q],
            forall|q: int|
                0 <= q < k ==> #[trigger] store.products@[q] == if before.products@[q].id@
                    == product_id@ {
                    Product { stock: new_stock, ..before.products@[q] }
                } else {
                    before.products@[q]
                },
        decreases n - k,
    {
        if store.products[k].id == key {
            let mut p = store.products[k].snapshot();
            p.stock = new_stock;
            store.products.set(k, p);
        }
        k = k + 1;
    }
    proof {
        Ledger::lemma_wf_same_shifts_and_log(before, *store);
    }
    Ok(())
}

/// Removes the product with id `id`. A product that a stored sale refers to
/// is kept and the call refused.
pub fn delete_product(store: &mut Ledger, id: &str) -> (r: Result<(), LedgerError>)
    requires
        old(store).wf(),
    ensures
        final(store).wf(),
        !has_product(old(store).products@, id@) ==> r == Err::<(), LedgerError>(LedgerError::NotFound),
        has_product(old(store).products@, id@) && product_sold(*old(store), id@) ==> r == Err::<
            (),
            LedgerError,
        >(LedgerError::InvalidInput),
        has_product(old(store).products@, id@) && !product_sold(*old(store), id@) ==> r is Ok,
        r is Err ==> *final(store) == *old(store),
        r is Ok ==> {
            &&& final(store).products@ == without_product(old(store).products@, id@)
            &&& final(store).transactions == old(store).transactions
            &&& final(store).shifts == old(store).shifts
            &&& final(store).movements == old(store).movements
        },
{
    if store.find_product(id).is_none() {
        return Err(LedgerError::NotFound);
    }
    let key = id.to_owned();
    let mut t: usize = 0;
    while t < store.transactions.len()
        invariant
            t <= store.transactions@.len(),
            key@ == id@,
            *store == *old(store),
            old(store).wf(),
            has_product(old(store).products@, id@),
            forall|a: int, i: int|
                0 <= a < t && 0 <= i < store.transactions@[a].items@.len()
                    ==> #[trigger] store.transactions@[a].items@[i].product_id@ != id@,
        decreases store.transactions@.len() - t,
    {
        let items = &store.transactions[t].items;
        let mut i: usize = 0;
        while i < items.len()
            invariant
                t < store.transactions@.len(),
                *items == store.transactions@[t as int].items,
                i <= items@.len(),
                key@ == id@,
                *store == *old(store),
                old(store).wf(),
                has_product(old(store).products@, id@),
                forall|a: int, q: int|
                    0 <= a < t && 0 <= q < store.transactions@[a].items@.len()
                        ==> #[trigger] store.transactions@[a].items@[q].product_id@ != id@,
                forall|q: int| 0 <= q < i ==> #[trigger] items@[q].product_id@ != id@,
            decreases items@.len() - i,
        {
            if items[i].product_id == key {
                return Err(LedgerError::InvalidInput);
            }
            i = i + 1;
        }
        t = t + 1;
    }
    let ghost before = *store;
    let mut kept: Vec<Product> = Vec::new();
    let n = store.products.len();
    let mut k: usize = 0;
    while k < n
        invariant
            n == store.products@.len(),
            *store == before,
            k <= n,
            key@ == id@,
            kept@ == without_product(store.products@.take(k as int), id@),
        decreases n - k,
    {
        assert(store.products@.take(k + 1).drop_last() =~= store.products@.take(k as int));
        if !(store.products[k].id == key) {
            kept.push(store.products[k].snapshot());
        }
        k = k + 1;
    }
    assert(store.products@.take(n as int) =~= store.products@);
    store.products = kept;
    proof {
        Ledger::lemma_wf_same_shifts_and_log(before, *store);
    }
    Ok(())
}

/// The first product with id `id`.
pub fn get_product_by_id(store: &Ledger, id: &str) -> (r: Option<Product>)
    ensures
        r is None <==> !has_product(store.products@, id@),
        r matches Some(p) ==> exists|k: int|
            0 <= k < store.products@.len() && store.products@[k] == p && p.id@ == id@ && forall|
                q: int,
            |
                0 <= q < k ==> store.products@[q].id@ != id@,
{
    match store.find_product(id) {
        Some(k) => Some(store.products[k].snapshot()),
        None => None,
    }
}

/// The first product with the given barcode.
pub fn get_product_by_barcode(store: &Ledger, barcode: &str) -> (r: Option<Product>)
    ensures
        r is None <==> !exists|k: int|
            0 <= k < store.products@.len() && store.products@[k].barcode@ == barcode@,
        r matches Some(p) ==> exists|k: int|
            0 <= k < store.products@.len() && store.products@[k] == p && p.barcode@ == barcode@
                && forall|q: int| 0 <= q < k ==> store.products@[q].barcode@ != barcode@,
{
    let code = barcode.to_owned();
    let mut k: usize = 0;
    while k < store.products.len()
        invariant
            k <= store.products@.len(),
            code@ == barcode@,
            forall|q: int| 0 <= q < k ==> store.products@[q].barcode@ != barcode@,
        decreases store.products@.len() - k,
    {
        if store.products[k].barcode == code {
            return Some(store.products[k].snapshot());
        }
        k = k + 1;
    }
    None
}

/// The whole catalog, in insertion order.
pub fn get_products(store: &Ledger) -> (r: Vec<Product>)
    ensures
        r@ == store.products@,
{
    let mut out: Vec<Product> = Vec::new();
    let mut k: usize = 0;
    while k < store.products.len()
        invariant
            k <= store.products@.len(),
            out@ == store.products@.take(k as int),
        decreases store.products@.len() - k,
    {
        out.push(store.products[k].snapshot());
        assert(store.products@.take(k + 1) =~= store.products@.take(k as int).push(store.products@[k as int]));
        k = k + 1;
    }
    assert(store.products@.take(k as int) =~= store.products@);
    out
}

/// Barcode of the k-th sample product.
pub open spec fn sample_barcode(k: int) -> Seq<char> {
    if k == 0 {
        "1234567890123"@
    } else if k == 1 {
        "2345678901234"@
    } else if k == 2 {
        "3456789012345"@
    } else if k == 3 {
        "4567890123456"@
    } else {
        "5678901234567"@
    }
}

/// Price in cents of the k-th sample product.
pub open spec fn sample_price(k: int) -> i64 {
    if k == 0 {
        1099
    } else if k == 1 {
        599
    } else if k == 2 {
        1599
    } else if k == 3 {
        899
    } else {
        1299
    }
}

/// Opening stock of the k-th sample product.
pub open spec fn sample_stock(k: int) -> i64 {
    if k == 0 {
        50
    } else if k == 1 {
        100
    } else if k == 2 {
        25
    } else if k == 3 {
        75
    } else {
        30
    }
}

fn add_samples(store: &mut Ledger) -> (r: Result<(), LedgerError>)
    requires
        old(store).wf(),
        old(store).products@.len() == 0,
    ensures
        final(store).wf(),
        r is Ok ==> {
            &&& final(store).products@.len() == 5
            &&& forall|k: int|
                0 <= k < 5 ==> {
                    &&& (#[trigger] final(store).products@[k]).barcode@ == sample_barcode(k)
                    &&& final(store).products@[k].price == sample_price(k)
                    &&& final(store).products@[k].stock == sample_stock(k)
                }
        },
        final(store).transactions == old(store).transactions,
        final(store).users == old(store).users,
        final(store).shifts == old(store).shifts,
        final(store).movements == old(store).movements,
        final(store).reports == old(store).reports,
{
    add_product(store, "Sample Product 1", "1234567890123", 1099, 50, "Electronics")?;
    add_product(store, "Sample Product 2", "2345678901234", 599, 100, "Food")?;
    add_product(store, "Sample Product 3", "3456789012345", 1599, 25, "Clothing")?;
    add_product(store, "Sample Product 4", "4567890123456", 899, 75, "Books")?;
    add_product(store, "Sample Product 5", "5678901234567", 1299, 30, "Electronics")?;
    Ok(())
}

/// Fills an empty catalog with five sample products; a catalog that holds
/// anything is left as it is. When a sample cannot be added the catalog is
/// left empty.
pub fn initialize_database_with_sample_data(store: &mut Ledger) -> (r: Result<(), LedgerError>)
    requires
        old(store).wf(),
    ensures
        final(store).wf(),
        old(store).products@.len() > 0 ==> r is Ok && *final(store) == *old(store),
        r is Ok && old(store).products@.len() == 0 ==> {
            &&& final(store).products@.len() == 5
            &&& forall|k: int|
                0 <= k < 5 ==> {
                    &&& (#[trigger] final(store).products@[k]).barcode@ == sample_barcode(k)
                    &&& final(store).products@[k].price == sample_price(k)
                    &&& final(store).products@[k].stock == sample_stock(k)
                }
        },
        r is Err ==> final(store).products@.len() == 0,
        final(store).transactions == old(store).transactions,
        final(store).users == old(store).users,
        final(store).shifts == old(store).shifts,
        final(store).movements == old(store).movements,
        final(store).reports == old(store).reports,
{
    if store.products.len() > 0 {
        return Ok(());
    }
    let r = add_samples(store);
    if r.is_err() {
        let ghost before = *store;
        store.products.clear();
        proof {
            Ledger::lemma_wf_same_shifts_and_log(before, *store);
        }
    }
    r
}

/// The products whose stock is below zero, in catalog order.
pub open spec fn short_products(products: Seq<Product>) -> Seq<Product>
    decreases products.len(),
{
    if products.len() == 0 {
        Seq::empty()
    } else if products.last().stock < 0 {
        short_products(products.drop_last()).push(products.last())
    } else {
        short_products(products.drop_last())
    }
}

/// The products that sales have taken below zero stock: the signal for a
/// manual stock count.
pub fn products_below_zero(store: &Ledger) -> (r: Vec<Product>)
    ensures
        r@ == short_products(store.products@),
{
    let mut out: Vec<Product> = Vec::new();
    let n = store.products.len();
    let mut k: usize = 0;
    while k < n
        invariant
            n == store.products@.len(),
            k <= n,
            out@ == short_products(store.products@.take(k as int)),
        decreases n - k,
    {
        assert(store.products@.take(k + 1).drop_last() =~= store.products@.take(k as int));
        if store.products[k].stock < 0 {
            out.push(store.products[k].snapshot());
        }
        k = k + 1;
    }
    assert(store.products@.take(n as int) =~= store.products@);
    out
}

} // verus!
