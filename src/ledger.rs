use vstd::prelude::*;
use crate::auth::User;
use crate::movement::{
    copy_text, effect_sum, lemma_effect_sum_absent, lemma_effect_sum_push, recent_first,
    CashMovement, MovementType, movement_type_from,
};
use crate::outside::{fresh_id, now_rfc3339};
use crate::report::ShiftReport;
use crate::sale::{Product, SaleTransaction};

verus! {

/// Why a ledger operation was refused. A refused operation changes nothing.
#[derive(Clone, Copy, Debug, PartialEq, Eq, Structural)]
pub enum LedgerError {
    /// The shift, user or product referred to is not stored.
    NotFound,
    /// The user already has an open shift.
    AlreadyOpen,
    /// The shift is closed and takes no more movements or closes.
    ShiftClosed,
    /// A negative amount, price or quantity, an unknown movement type, a
    /// duplicate key, or a sum that does not fit the money type.
    InvalidInput,
    /// A freshly drawn id collided with a stored one, or hashing failed.
    StorageFailure,
}

/// Shifts go from open to closed, and never back.
#[derive(Clone, Copy, Debug, PartialEq, Eq, Structural)]
pub enum ShiftStatus {
    Open,
    Closed,
}

/// A period in which one cashier answers for one register's drawer.
pub struct CashShift {
    pub id: String,
    pub user_id: String,
    pub cash_register_id: String,
    pub start_time: String,
    pub end_time: Option<String>,
    pub initial_cash: i64,
    pub expected_cash: i64,
    pub actual_cash: Option<i64>,
    pub difference: Option<i64>,
    pub status: ShiftStatus,
    pub notes: Option<String>,
}

impl CashShift {
    pub fn snapshot(&self) -> (r: CashShift)
        ensures
            r == *self,
    {
        CashShift {
            id: self.id.clone(),
            user_id: self.user_id.clone(),
            cash_register_id: self.cash_register_id.clone(),
            start_time: self.start_time.clone(),
            end_time: copy_text(&self.end_time),
            initial_cash: self.initial_cash,
            expected_cash: self.expected_cash,
            actual_cash: self.actual_cash,
            difference: self.difference,
            status: self.status,
            notes: copy_text(&self.notes),
        }
    }
}

/// The record store: catalog, sales, users, shifts, the movement log and
/// saved reports.
pub struct Ledger {
    pub products: Vec<Product>,
    pub transactions: Vec<SaleTransaction>,
    pub users: Vec<User>,
    pub shifts: Vec<CashShift>,
    pub movements: Vec<CashMovement>,
    pub reports: Vec<ShiftReport>,
}

impl Ledger {
    /// Shift ids are keys.
    pub open spec fn shift_ids_unique(self) -> bool {
        forall|i: int, j: int|
            0 <= i < self.shifts@.len() && 0 <= j < self.shifts@.len() && i != j
                ==> self.shifts@[i].id@ != self.shifts@[j].id@
    }

    /// No user holds two open shifts.
    pub open spec fn one_open_shift_per_user(self) -> bool {
        forall|i: int, j: int|
            0 <= i < self.shifts@.len() && 0 <= j < self.shifts@.len() && i != j
                && self.shifts@[i].status == ShiftStatus::Open
                && self.shifts@[j].status == ShiftStatus::Open
                ==> self.shifts@[i].user_id@ != self.shifts@[j].user_id@
    }

    /// Every movement belongs to a stored shift.
    pub open spec fn movements_belong(self) -> bool {
        forall|k: int|
            0 <= k < self.movements@.len() ==> #[trigger] self.has_shift(
                self.movements@[k].shift_id@,
            )
    }

    pub open spec fn has_shift(self, id: Seq<char>) -> bool {
        exists|i: int| 0 <= i < self.shifts@.len() && #[trigger] self.shifts@[i].id@ == id
    }

    /// Each shift's expected cash is the fold of its movement log.
    pub open spec fn balances_replay(self) -> bool {
        forall|i: int|
            0 <= i < self.shifts@.len() ==> #[trigger] self.shifts@[i].expected_cash
                == effect_sum(self.movements@, self.shifts@[i].id@)
    }

    /// Movement amounts are never negative.
    pub open spec fn amounts_nonnegative(self) -> bool {
        forall|k: int| 0 <= k < self.movements@.len() ==> #[trigger] self.movements@[k].amount >= 0
    }

    /// Movement `k` is the opening float of shift `i`: the first movement
    /// logged for the shift, a cash-in of its initial cash.
    pub open spec fn is_opening(self, i: int, k: int) -> bool {
        &&& 0 <= k < self.movements@.len()
        &&& self.movements@[k].shift_id@ == self.shifts@[i].id@
        &&& self.movements@[k].movement_type == MovementType::CashIn
        &&& self.movements@[k].amount == self.shifts@[i].initial_cash
        &&& forall|q: int| 0 <= q < k ==> self.movements@[q].shift_id@ != self.shifts@[i].id@
    }

    pub open spec fn has_opening(self, i: int) -> bool {
        exists|k: int| #[trigger] self.is_opening(i, k)
    }

    /// Position in the log of the opening float of shift `i`.
    pub open spec fn opening_index(self, i: int) -> int {
        choose|k: int| #[trigger] self.is_opening(i, k)
    }

    /// Every shift's log starts with its opening float.
    pub open spec fn openings_logged(self) -> bool {
        forall|i: int| 0 <= i < self.shifts@.len() ==> #[trigger] self.has_opening(i)
    }

    pub open spec fn wf(self) -> bool {
        &&& self.shift_ids_unique()
        &&& self.one_open_shift_per_user()
        &&& self.movements_belong()
        &&& self.balances_replay()
        &&& self.amounts_nonnegative()
        &&& self.openings_logged()
    }

    pub open spec fn shift_index(self, id: Seq<char>) -> Option<int> {
        if exists|i: int| 0 <= i < self.shifts@.len() && self.shifts@[i].id@ == id {
            Some(choose|i: int| 0 <= i < self.shifts@.len() && self.shifts@[i].id@ == id)
        } else {
            None
        }
    }

    pub open spec fn has_open_shift(self, user_id: Seq<char>) -> bool {
        exists|i: int|
            0 <= i < self.shifts@.len() && self.shifts@[i].user_id@ == user_id
                && self.shifts@[i].status == ShiftStatus::Open
    }

    pub open spec fn has_user(self, user_id: Seq<char>) -> bool {
        exists|i: int| 0 <= i < self.users@.len() && self.users@[i].id@ == user_id
    }

    /// An empty store.
    pub fn new() -> (r: Ledger)
        ensures
            r.wf(),
            r.products@.len() == 0,
            r.transactions@.len() == 0,
            r.users@.len() == 0,
            r.shifts@.len() == 0,
            r.movements@.len() == 0,
            r.reports@.len() == 0,
    {
        Ledger {
            products: Vec::new(),
            transactions: Vec::new(),
            users: Vec::new(),
            shifts: Vec::new(),
            movements: Vec::new(),
            reports: Vec::new(),
        }
    }

    /// Position of the shift with the given id.
    pub fn find_shift(&self, id: &str) -> (r: Option<usize>)
        ensures
            match r {
                Some(i) => i < self.shifts@.len() && self.shifts@[i as int].id@ == id@,
                None => forall|i: int| 0 <= i < self.shifts@.len() ==> self.shifts@[i].id@ != id@,
            },
    {
        let key = id.to_owned();
        let mut i: usize = 0;
        while i < self.shifts.len()
            invariant
                i <= self.shifts@.len(),
                key@ == id@,
                forall|j: int| 0 <= j < i ==> self.shifts@[j].id@ != id@,
            decreases self.shifts@.len() - i,
        {
            if self.shifts[i].id == key {
                return Some(i);
            }
            i = i + 1;
        }
        None
    }

    /// Position of the open shift of the given user.
    pub fn find_open_shift(&self, user_id: &str) -> (r: Option<usize>)
        ensures
            match r {
                Some(i) => i < self.shifts@.len() && self.shifts@[i as int].user_id@ == user_id@
                    && self.shifts@[i as int].status == ShiftStatus::Open,
                None => !self.has_open_shift(user_id@),
            },
    {
        let key = user_id.to_owned();
        let mut i: usize = 0;
        while i < self.shifts.len()
            invariant
                i <= self.shifts@.len(),
                key@ == user_id@,
                forall|j: int|
                    0 <= j < i ==> !(self.shifts@[j].user_id@ == user_id@
                        && self.shifts@[j].status == ShiftStatus::Open),
            decreases self.shifts@.len() - i,
        {
            if self.shifts[i].user_id == key && self.shifts[i].status == ShiftStatus::Open {
                return Some(i);
            }
            i = i + 1;
        }
        None
    }

    /// Whether a user with this id is stored.
    pub fn user_exists(&self, user_id: &str) -> (r: bool)
        ensures
            r == self.has_user(user_id@),
    {
        let key = user_id.to_owned();
        let mut i: usize = 0;
        while i < self.users.len()
            invariant
                i <= self.users@.len(),
                key@ == user_id@,
                forall|j: int| 0 <= j < i ==> self.users@[j].id@ != user_id@,
            decreases self.users@.len() - i,
        {
            if self.users[i].id == key {
                return true;
            }
            i = i + 1;
        }
        false
    }

    /// The open shift of a user, if there is one.
    pub fn get_open_shift(&self, user_id: &str) -> (r: Option<CashShift>)
        requires
            self.wf(),
        ensures
            r is None <==> !self.has_open_shift(user_id@),
            r matches Some(s) ==> exists|i: int|
                0 <= i < self.shifts@.len() && self.shifts@[i] == s && s.user_id@ == user_id@
                    && s.status == ShiftStatus::Open,
    {
        match self.find_open_shift(user_id) {
            Some(i) => Some(self.shifts[i].snapshot()),
            None => None,
        }
    }

    /// The stored shift with the given id (meaningful only when one exists).
    pub open spec fn shift_of(self, id: Seq<char>) -> CashShift {
        self.shifts@[self.shift_index(id)->Some_0]
    }

    pub open spec fn unchanged_except_shifts_and_log(self, other: Ledger) -> bool {
        &&& self.products == other.products
        &&& self.transactions == other.transactions
        &&& self.users == other.users
        &&& self.reports == other.reports
    }

    pub proof fn lemma_shift_index(self, id: Seq<char>, i: int)
        requires
            self.shift_ids_unique(),
            0 <= i < self.shifts@.len(),
            self.shifts@[i].id@ == id,
        ensures
            self.shift_index(id) == Some(i),
    {
    }

    pub open spec fn has_movement(self, id: Seq<char>) -> bool {
        exists|k: int| 0 <= k < self.movements@.len() && #[trigger] self.movements@[k].id@ == id
    }

    /// `after` is this store with one new open shift `id` for `user_id` on
    /// `register_id`, logged with its opening float as its first movement.
    pub open spec fn opened(
        self,
        after: Ledger,
        id: Seq<char>,
        user_id: Seq<char>,
        register_id: Seq<char>,
        initial_cash: i64,
    ) -> bool {
        &&& after.unchanged_except_shifts_and_log(self)
        &&& after.shifts@.len() == self.shifts@.len() + 1
        &&& after.shifts@.drop_last() == self.shifts@
        &&& after.shifts@.last().id@ == id
        &&& after.shifts@.last().user_id@ == user_id
        &&& after.shifts@.last().cash_register_id@ == register_id
        &&& after.shifts@.last().end_time is None
        &&& after.shifts@.last().initial_cash == initial_cash
        &&& after.shifts@.last().expected_cash == initial_cash
        &&& after.shifts@.last().actual_cash is None
        &&& after.shifts@.last().difference is None
        &&& after.shifts@.last().status == ShiftStatus::Open
        &&& after.shifts@.last().notes is None
        &&& after.movements@.len() == self.movements@.len() + 1
        &&& after.movements@.drop_last() == self.movements@
        &&& after.movements@.last().shift_id@ == id
        &&& after.movements@.last().movement_type == MovementType::CashIn
        &&& after.movements@.last().amount == initial_cash
        &&& after.movements@.last().transaction_id is None
        &&& after.movements@.last().reason matches Some(t) && t@ == "Opening cash"@
        &&& after.movements@.last().user_id@ == user_id
        &&& after.movements@.last().timestamp == after.shifts@.last().start_time
        &&& after.has_open_shift(user_id)
    }

    /// Whether a movement with this id is stored.
    pub fn movement_id_used(&self, id: &str) -> (r: bool)
        ensures
            r == self.has_movement(id@),
    {
        let key = id.to_owned();
        let mut k: usize = 0;
        while k < self.movements.len()
            invariant
                k <= self.movements@.len(),
                key@ == id@,
                forall|q: int| 0 <= q < k ==> self.movements@[q].id@ != id@,
            decreases self.movements@.len() - k,
        {
            if self.movements[k].id == key {
                return true;
            }
            k = k + 1;
        }
        false
    }

    /// Opens a shift for `user_id` on `register_id` with a declared opening
    /// float, under fresh ids drawn at random and the current time.
    pub fn open_shift(&mut self, user_id: &str, register_id: &str, initial_cash: i64) -> (r: Result<
        String,
        LedgerError,
    >)
        requires
            old(self).wf(),
        ensures
            final(self).wf(),
            initial_cash < 0 ==> r == Err::<String, LedgerError>(LedgerError::InvalidInput),
            initial_cash >= 0 && !old(self).has_user(user_id@) ==> r == Err::<String, LedgerError>(
                LedgerError::NotFound,
            ),
            initial_cash >= 0 && old(self).has_user(user_id@) && old(self).has_open_shift(user_id@)
                ==> r == Err::<String, LedgerError>(LedgerError::AlreadyOpen),
            initial_cash >= 0 && old(self).has_user(user_id@) && !old(self).has_open_shift(user_id@)
                ==> r is Ok || r == Err::<String, LedgerError>(LedgerError::StorageFailure),
            r is Err ==> *final(self) == *old(self),
            r matches Ok(id) ==> old(self).opened(*final(self), id@, user_id@, register_id@, initial_cash),
    {
        let shift_id = fresh_id();
        let movement_id = fresh_id();
        let start_time = now_rfc3339();
        self.open_shift_with_ids(user_id, register_id, initial_cash, shift_id, movement_id, start_time)
    }

    /// Opens a shift under the given ids and start time, and logs the opening
    /// float as the shift's first cash-in movement. An id that is already
    /// stored is a storage failure.
    pub fn open_shift_with_ids(
        &mut self,
        user_id: &str,
        register_id: &str,
        initial_cash: i64,
        shift_id: String,
        movement_id: String,
        start_time: String,
    ) -> (r: Result<String, LedgerError>)
        requires
            old(self).wf(),
        ensures
            final(self).wf(),
            initial_cash < 0 ==> r == Err::<String, LedgerError>(LedgerError::InvalidInput),
            initial_cash >= 0 && !old(self).has_user(user_id@) ==> r == Err::<String, LedgerError>(
                LedgerError::NotFound,
            ),
            initial_cash >= 0 && old(self).has_user(user_id@) && old(self).has_open_shift(user_id@)
                ==> r == Err::<String, LedgerError>(LedgerError::AlreadyOpen),
            initial_cash >= 0 && old(self).has_user(user_id@) && !old(self).has_open_shift(user_id@)
                ==> {
                let clash = old(self).has_shift(shift_id@) || old(self).has_movement(movement_id@);
                &&& !clash ==> r is Ok
                &&& clash ==> r == Err::<String, LedgerError>(LedgerError::StorageFailure)
            },
            r is Err ==> *final(self) == *old(self),
            r matches Ok(id) ==> {
                &&& id == shift_id
                &&& old(self).opened(*final(self), id@, user_id@, register_id@, initial_cash)
                &&& final(self).shifts@.last().id == shift_id
                &&& final(self).shifts@.last().start_time == start_time
                &&& final(self).movements@.last().id == movement_id
            },
    {
        if initial_cash < 0 {
            return Err(LedgerError::InvalidInput);
        }
        if !self.user_exists(user_id) {
            return Err(LedgerError::NotFound);
        }
        if self.find_open_shift(user_id).is_some() {
            return Err(LedgerError::AlreadyOpen);
        }
        if self.find_shift(shift_id.as_str()).is_some() || self.movement_id_used(movement_id.as_str()) {
            return Err(LedgerError::StorageFailure);
        }
        let shift = CashShift {
            id: shift_id.clone(),
            user_id: user_id.to_owned(),
            cash_register_id: register_id.to_owned(),
            start_time: start_time.clone(),
            end_time: None,
            initial_cash,
            expected_cash: initial_cash,
            actual_cash: None,
            difference: None,
            status: ShiftStatus::Open,
            notes: None,
        };
        let opening = CashMovement {
            id: movement_id,
            shift_id: shift_id.clone(),
            transaction_id: None,
            movement_type: MovementType::CashIn,
            amount: initial_cash,
            reason: Some("Opening cash".to_owned()),
            timestamp: start_time,
            user_id: user_id.to_owned(),
        };
        let ghost old_log = self.movements@;
        let ghost old_shifts = self.shifts@;
        proof {
            assert forall|k: int| 0 <= k < old_log.len() implies old_log[k].shift_id@ != shift_id@ by {
                assert(self.has_shift(old_log[k].shift_id@));
            }
            lemma_effect_sum_absent(old_log, shift_id@);
            lemma_effect_sum_push(old_log, opening, shift_id@);
            assert forall|i: int| 0 <= i < old_shifts.len() implies effect_sum(
                old_log.push(opening),
                #[trigger] old_shifts[i].id@,
            ) == effect_sum(old_log, old_shifts[i].id@) by {
                lemma_effect_sum_push(old_log, opening, old_shifts[i].id@);
            }
        }
        self.shifts.push(shift);
        self.movements.push(opening);
        proof {
            let n = old_shifts.len() as int;
            assert(self.shifts@[n].id@ == shift_id@);
            assert forall|k: int| 0 <= k < self.movements@.len() implies #[trigger] self.has_shift(
                self.movements@[k].shift_id@,
            ) by {
                if k < old_log.len() {
                    assert(old_log[k] == self.movements@[k]);
                    assert(old(self).has_shift(old_log[k].shift_id@));
                    let i = choose|i: int|
                        0 <= i < old_shifts.len() && #[trigger] old_shifts[i].id@
                            == old_log[k].shift_id@;
                    assert(self.shifts@[i] == old_shifts[i]);
                } else {
                    assert(self.shifts@[n].id@ == self.movements@[k].shift_id@);
                }
            }
            assert(self.shifts@.drop_last() =~= old_shifts);
            assert(self.movements@.drop_last() =~= old_log);
            assert(self.shifts@[n].user_id@ == user_id@);
            assert forall|i: int| 0 <= i < self.shifts@.len() implies #[trigger] self.has_opening(i) by {
                if i < n {
                    assert(old(self).has_opening(i));
                    let k = choose|k: int| #[trigger] old(self).is_opening(i, k);
                    assert(self.movements@[k] == old_log[k]);
                    assert(self.shifts@[i] == old_shifts[i]);
                    assert forall|q: int| 0 <= q < k implies self.movements@[q].shift_id@
                        != self.shifts@[i].id@ by {
                        assert(self.movements@[q] == old_log[q]);
                    }
                    assert(self.is_opening(i, k));
                } else {
                    let k = old_log.len() as int;
                    assert forall|q: int| 0 <= q < k implies self.movements@[q].shift_id@
                        != self.shifts@[i].id@ by {
                        assert(self.movements@[q] == old_log[q]);
                    }
                    assert(self.is_opening(i, k));
                }
            }
        }
        Ok(shift_id)
    }

    pub open spec fn shift_exists(self, id: Seq<char>) -> bool {
        self.shift_index(id) is Some
    }

    /// `after` is this store with movement `mid` appended to the open shift
    /// `shift_id`, whose expected cash moved by the movement's signed effect.
    pub open spec fn posted(
        self,
        after: Ledger,
        shift_id: Seq<char>,
        movement_type: Seq<char>,
        amount: i64,
        reason: Option<String>,
        transaction_id: Option<String>,
        user_id: Seq<char>,
        mid: Seq<char>,
    ) -> bool {
        let i = self.shift_index(shift_id)->Some_0;
        let kind = movement_type_from(movement_type)->Some_0;
        let before = self.shifts@[i];
        &&& after.unchanged_except_shifts_and_log(self)
        &&& after.shifts@ == self.shifts@.update(
            i,
            CashShift {
                expected_cash: (before.expected_cash + kind.effect(amount as int)) as i64,
                ..before
            },
        )
        &&& after.movements@.len() == self.movements@.len() + 1
        &&& after.movements@.drop_last() == self.movements@
        &&& after.movements@.last().id@ == mid
        &&& after.movements@.last().shift_id@ == shift_id
        &&& after.movements@.last().movement_type == kind
        &&& after.movements@.last().amount == amount
        &&& after.movements@.last().reason == reason
        &&& after.movements@.last().transaction_id == transaction_id
        &&& after.movements@.last().user_id@ == user_id
        &&& !self.has_movement(mid)
    }

    /// Records a cash movement against an open shift and moves the shift's
    /// expected cash by its signed effect, both or neither. The movement gets
    /// a fresh id drawn at random and the current time.
    pub fn post_movement(
        &mut self,
        shift_id: &str,
        movement_type: &str,
        amount: i64,
        reason: Option<String>,
        transaction_id: Option<String>,
        user_id: &str,
    ) -> (r: Result<String, LedgerError>)
        requires
            old(self).wf(),
        ensures
            final(self).wf(),
            amount < 0 || movement_type_from(movement_type@) is None ==> r == Err::<
                String,
                LedgerError,
            >(LedgerError::InvalidInput),
            amount >= 0 && movement_type_from(movement_type@) is Some && !old(self).shift_exists(
                shift_id@,
            ) ==> r == Err::<String, LedgerError>(LedgerError::NotFound),
            amount >= 0 && movement_type_from(movement_type@) is Some && old(self).shift_exists(
                shift_id@,
            ) && old(self).shift_of(shift_id@).status == ShiftStatus::Closed ==> r == Err::<
                String,
                LedgerError,
            >(LedgerError::ShiftClosed),
            amount >= 0 && movement_type_from(movement_type@) is Some && old(self).shift_exists(
                shift_id@,
            ) && old(self).shift_of(shift_id@).status == ShiftStatus::Open ==> {
                let next = old(self).shift_of(shift_id@).expected_cash
                    + movement_type_from(movement_type@)->Some_0.effect(amount as int);
                &&& (i64::MIN <= next <= i64::MAX) ==> r is Ok || r == Err::<String, LedgerError>(
                    LedgerError::StorageFailure,
                )
                &&& !(i64::MIN <= next <= i64::MAX) ==> r == Err::<String, LedgerError>(
                    LedgerError::InvalidInput,
                )
            },
            r is Err ==> *final(self) == *old(self),
            r matches Ok(id) ==> old(self).posted(*final(self), shift_id@, movement_type@, amount, reason, transaction_id, user_id@, id@),
    {
        let movement_id = fresh_id();
        let timestamp = now_rfc3339();
        self.post_movement_with_id(shift_id, movement_type, amount, reason, transaction_id, user_id, movement_id, timestamp)
    }

    /// Records a cash movement under the given id and time. An id that is
    /// already logged is a storage failure.
    pub fn post_movement_with_id(
        &mut self,
        shift_id: &str,
        movement_type: &str,
        amount: i64,
        reason: Option<String>,
        transaction_id: Option<String>,
        user_id: &str,
        movement_id: String,
        timestamp: String,
    ) -> (r: Result<String, LedgerError>)
        requires
            old(self).wf(),
        ensures
            final(self).wf(),
            amount < 0 || movement_type_from(movement_type@) is None ==> r == Err::<
                String,
                LedgerError,
            >(LedgerError::InvalidInput),
            amount >= 0 && movement_type_from(movement_type@) is Some && !old(self).shift_exists(
                shift_id@,
            ) ==> r == Err::<String, LedgerError>(LedgerError::NotFound),
            amount >= 0 && movement_type_from(movement_type@) is Some && old(self).shift_exists(
                shift_id@,
            ) && old(self).shift_of(shift_id@).status == ShiftStatus::Closed ==> r == Err::<
                String,
                LedgerError,
            >(LedgerError::ShiftClosed),
            amount >= 0 && movement_type_from(movement_type@) is Some && old(self).shift_exists(
                shift_id@,
            ) && old(self).shift_of(shift_id@).status == ShiftStatus::Open ==> {
                let next = old(self).shift_of(shift_id@).expected_cash
                    + movement_type_from(movement_type@)->Some_0.effect(amount as int);
                &&& (i64::MIN <= next <= i64::MAX) && !old(self).has_movement(movement_id@) ==> r is Ok
                &&& (i64::MIN <= next <= i64::MAX) && old(self).has_movement(movement_id@) ==> r
                    == Err::<String, LedgerError>(LedgerError::StorageFailure)
                &&& !(i64::MIN <= next <= i64::MAX) ==> r == Err::<String, LedgerError>(
                    LedgerError::InvalidInput,
                )
            },
            r is Err ==> *final(self) == *old(self),
            r matches Ok(id) ==> {
                &&& id == movement_id
                &&& old(self).posted(*final(self), shift_id@, movement_type@, amount, reason, transaction_id, user_id@, id@)
                &&& final(self).movements@.last().id == movement_id
                &&& final(self).movements@.last().timestamp == timestamp
            },
    {
        let kind = match MovementType::from_tag(movement_type) {
            Some(k) => k,
            None => {
                return Err(LedgerError::InvalidInput);
            },
        };
        if amount < 0 {
            return Err(LedgerError::InvalidInput);
        }
        let i = match self.find_shift(shift_id) {
            Some(i) => i,
            None => {
                return Err(LedgerError::NotFound);
            },
        };
        proof {
            self.lemma_shift_index(shift_id@, i as int);
        }
        if self.shifts[i].status == ShiftStatus::Closed {
            return Err(LedgerError::ShiftClosed);
        }
        let current = self.shifts[i].expected_cash;
        let next = match kind {
            MovementType::CashIn | MovementType::Sale => current.checked_add(amount),
            MovementType::CashOut | MovementType::Adjustment => current.checked_sub(amount),
        };
        let next = match next {
            Some(v) => v,
            None => {
                return Err(LedgerError::InvalidInput);
            },
        };
        if self.movement_id_used(movement_id.as_str()) {
            return Err(LedgerError::StorageFailure);
        }
        let movement = CashMovement {
            id: movement_id,
            shift_id: shift_id.to_owned(),
            transaction_id,
            movement_type: kind,
            amount,
            reason,
            timestamp,
            user_id: user_id.to_owned(),
        };
        let mut updated = self.shifts[i].snapshot();
        updated.expected_cash = next;
        let ghost old_log = self.movements@;
        let ghost old_shifts = self.shifts@;
        proof {
            assert forall|j: int| 0 <= j < old_shifts.len() implies effect_sum(
                old_log.push(movement),
                #[trigger] old_shifts[j].id@,
            ) == effect_sum(old_log, old_shifts[j].id@) + if j == i {
                movement.effect()
            } else {
                0
            } by {
                lemma_effect_sum_push(old_log, movement, old_shifts[j].id@);
            }
        }
        self.shifts.set(i, updated);
        let id = movement.id.clone();
        self.movements.push(movement);
        proof {
            assert forall|k: int| 0 <= k < self.movements@.len() implies #[trigger] self.has_shift(
                self.movements@[k].shift_id@,
            ) by {
                if k < old_log.len() {
                    assert(old_log[k] == self.movements@[k]);
                    assert(old(self).has_shift(old_log[k].shift_id@));
                    let j = choose|j: int|
                        0 <= j < old_shifts.len() && #[trigger] old_shifts[j].id@
                            == old_log[k].shift_id@;
                    assert(self.shifts@[j].id == old_shifts[j].id);
                } else {
                    assert(self.shifts@[i as int].id@ == self.movements@[k].shift_id@);
                }
            }
            assert(self.movements@.drop_last() =~= old_log);
            assert forall|j: int| 0 <= j < self.shifts@.len() implies #[trigger] self.has_opening(j) by {
                assert(old(self).has_opening(j));
                let k = choose|k: int| #[trigger] old(self).is_opening(j, k);
                assert(self.movements@[k] == old_log[k]);
                assert(self.shifts@[j].id == old_shifts[j].id);
                assert(self.shifts@[j].initial_cash == old_shifts[j].initial_cash);
                assert forall|q: int| 0 <= q < k implies self.movements@[q].shift_id@
                    != self.shifts@[j].id@ by {
                    assert(self.movements@[q] == old_log[q]);
                }
                assert(self.is_opening(j, k));
            }
        }
        Ok(id)
    }

    /// Closes an open shift with the counted cash: records the count, the
    /// difference to the expected cash, the notes and the end time.
    pub fn close_shift(&mut self, shift_id: &str, actual_cash: i64, _user_id: &str, notes: Option<String>) -> (r:
        Result<String, LedgerError>)
        requires
            old(self).wf(),
        ensures
            final(self).wf(),
            actual_cash < 0 ==> r == Err::<String, LedgerError>(LedgerError::InvalidInput),
            actual_cash >= 0 && !old(self).shift_exists(shift_id@) ==> r == Err::<String, LedgerError>(
                LedgerError::NotFound,
            ),
            actual_cash >= 0 && old(self).shift_exists(shift_id@) && old(self).shift_of(
                shift_id@,
            ).status == ShiftStatus::Closed ==> r == Err::<String, LedgerError>(
                LedgerError::ShiftClosed,
            ),
            actual_cash >= 0 && old(self).shift_exists(shift_id@) && old(self).shift_of(
                shift_id@,
            ).status == ShiftStatus::Open ==> {
                let d = actual_cash - old(self).shift_of(shift_id@).expected_cash;
                &&& (i64::MIN <= d <= i64::MAX) ==> r is Ok
                &&& !(i64::MIN <= d <= i64::MAX) ==> r == Err::<String, LedgerError>(
                    LedgerError::InvalidInput,
                )
            },
            r is Err ==> *final(self) == *old(self),
            r matches Ok(id) ==> {
                let i = old(self).shift_index(shift_id@)->Some_0;
                let before = old(self).shifts@[i];
                &&& id@ == shift_id@
                &&& final(self).unchanged_except_shifts_and_log(*old(self))
                &&& final(self).movements == old(self).movements
                &&& final(self).shifts@.len() == old(self).shifts@.len()
                &&& forall|j: int|
                    0 <= j < old(self).shifts@.len() && j != i ==> final(self).shifts@[j]
                        == old(self).shifts@[j]
                &&& final(self).shifts@[i].id == before.id
                &&& final(self).shifts@[i].user_id == before.user_id
                &&& final(self).shifts@[i].cash_register_id == before.cash_register_id
                &&& final(self).shifts@[i].start_time == before.start_time
                &&& final(self).shifts@[i].end_time is Some
                &&& final(self).shifts@[i].initial_cash == before.initial_cash
                &&& final(self).shifts@[i].expected_cash == before.expected_cash
                &&& final(self).shifts@[i].actual_cash == Some(actual_cash)
                &&& final(self).shifts@[i].difference == Some(
                    (actual_cash - before.expected_cash) as i64,
                )
                &&& final(self).shifts@[i].status == ShiftStatus::Closed
                &&& final(self).shifts@[i].notes == notes
            },
    {
        if actual_cash < 0 {
            return Err(LedgerError::InvalidInput);
        }
        let i = match self.find_shift(shift_id) {
            Some(i) => i,
            None => {
                return Err(LedgerError::NotFound);
            },
        };
        proof {
            self.lemma_shift_index(shift_id@, i as int);
        }
        if self.shifts[i].status == ShiftStatus::Closed {
            return Err(LedgerError::ShiftClosed);
        }
        let difference = match actual_cash.checked_sub(self.shifts[i].expected_cash) {
            Some(d) => d,
            None => {
                return Err(LedgerError::InvalidInput);
            },
        };
        let mut closed = self.shifts[i].snapshot();
        closed.end_time = Some(now_rfc3339());
        closed.actual_cash = Some(actual_cash);
        closed.difference = Some(difference);
        closed.status = ShiftStatus::Closed;
        closed.notes = notes;
        let ghost old_shifts = self.shifts@;
        self.shifts.set(i, closed);
        proof {
            assert forall|k: int| 0 <= k < self.movements@.len() implies #[trigger] self.has_shift(
                self.movements@[k].shift_id@,
            ) by {
                assert(old(self).movements@[k] == self.movements@[k]);
                assert(old(self).has_shift(self.movements@[k].shift_id@));
                let j = choose|j: int|
                    0 <= j < old_shifts.len() && #[trigger] old_shifts[j].id@
                        == self.movements@[k].shift_id@;
                assert(self.shifts@[j].id == old_shifts[j].id);
            }
            assert forall|j: int| 0 <= j < self.shifts@.len() implies #[trigger] self.has_opening(j) by {
                assert(old(self).has_opening(j));
                let k = choose|k: int| #[trigger] old(self).is_opening(j, k);
                assert(self.shifts@[j].id == old_shifts[j].id);
                assert(self.shifts@[j].initial_cash == old_shifts[j].initial_cash);
                assert(self.is_opening(j, k));
            }
        }
        Ok(shift_id.to_owned())
    }

    /// The movements of a shift, most recent first.
    pub fn list_movements(&self, shift_id: &str) -> (r: Vec<CashMovement>)
        ensures
            r@ == recent_first(self.movements@, shift_id@),
    {
        let key = shift_id.to_owned();
        let mut out: Vec<CashMovement> = Vec::new();
        let mut k: usize = 0;
        while k < self.movements.len()
            invariant
                k <= self.movements@.len(),
                key@ == shift_id@,
                out@ == recent_first(self.movements@.take(k as int), shift_id@),
            decreases self.movements@.len() - k,
        {
            let ghost prefix = self.movements@.take(k + 1);
            assert(prefix.drop_last() =~= self.movements@.take(k as int));
            if self.movements[k].shift_id == key {
                out.insert(0, self.movements[k].snapshot());
                assert(out@ =~= seq![prefix.last()] + recent_first(prefix.drop_last(), shift_id@));
            }
            k = k + 1;
        }
        assert(self.movements@.take(k as int) =~= self.movements@);
        out
    }

    /// Well-formedness rests on the shifts and the movement log alone.
    pub proof fn lemma_wf_same_shifts_and_log(a: Ledger, b: Ledger)
        requires
            a.wf(),
            a.shifts@ == b.shifts@,
            a.movements@ == b.movements@,
        ensures
            b.wf(),
    {
        assert forall|k: int| 0 <= k < b.movements@.len() implies #[trigger] b.has_shift(
            b.movements@[k].shift_id@,
        ) by {
            assert(a.movements@[k] == b.movements@[k]);
            assert(a.has_shift(a.movements@[k].shift_id@));
            let i = choose|i: int|
                0 <= i < a.shifts@.len() && #[trigger] a.shifts@[i].id@ == a.movements@[k].shift_id@;
            assert(b.shifts@[i] == a.shifts@[i]);
        }
        assert forall|i: int| 0 <= i < b.shifts@.len() implies #[trigger] b.shifts@[i].expected_cash
            == effect_sum(b.movements@, b.shifts@[i].id@) by {
            assert(a.shifts@[i] == b.shifts@[i]);
        }
        assert forall|k: int| 0 <= k < b.movements@.len() implies #[trigger] b.movements@[k].amount
            >= 0 by {
            assert(a.movements@[k] == b.movements@[k]);
        }
        assert(b.shift_ids_unique()) by {
            assert forall|i: int, j: int|
                0 <= i < b.shifts@.len() && 0 <= j < b.shifts@.len() && i != j implies b.shifts@[i].id@
                != b.shifts@[j].id@ by {
                assert(a.shifts@[i] == b.shifts@[i] && a.shifts@[j] == b.shifts@[j]);
            }
        }
        assert forall|i: int| 0 <= i < b.shifts@.len() implies #[trigger] b.has_opening(i) by {
            assert(a.has_opening(i));
            let k = choose|k: int| #[trigger] a.is_opening(i, k);
            assert(a.shifts@[i] == b.shifts@[i]);
            assert(a.movements@[k] == b.movements@[k]);
            assert forall|q: int| 0 <= q < k implies b.movements@[q].shift_id@ != b.shifts@[i].id@ by {
                assert(a.movements@[q] == b.movements@[q]);
            }
            assert(b.is_opening(i, k));
        }
        assert(b.one_open_shift_per_user()) by {
            assert forall|i: int, j: int|
                0 <= i < b.shifts@.len() && 0 <= j < b.shifts@.len() && i != j
                    && b.shifts@[i].status == ShiftStatus::Open && b.shifts@[j].status
                    == ShiftStatus::Open implies b.shifts@[i].user_id@ != b.shifts@[j].user_id@ by {
                assert(a.shifts@[i] == b.shifts@[i] && a.shifts@[j] == b.shifts@[j]);
            }
        }
    }

    /// Checks the store's invariants: keyed shifts, one open shift per user,
    /// every movement on a stored shift with a non-negative amount, and every
    /// expected cash equal to the replay of its shift's log. A store read
    /// back from storage is checked with this before it is used.
    pub fn is_consistent(&self) -> (r: bool)
        ensures
            r == self.wf(),
    {
        let ns = self.shifts.len();
        let nm = self.movements.len();
        let mut i: usize = 0;
        while i < ns
            invariant
                ns == self.shifts@.len(),
                i <= ns,
                forall|a: int, b: int|
                    0 <= a < i && 0 <= b < ns && a != b ==> self.shifts@[a].id@ != self.shifts@[b].id@,
                forall|a: int, b: int|
                    0 <= a < i && 0 <= b < ns && a != b && self.shifts@[a].status == ShiftStatus::Open
                        && self.shifts@[b].status == ShiftStatus::Open ==> self.shifts@[a].user_id@
                        != self.shifts@[b].user_id@,
            decreases ns - i,
        {
            let mut j: usize = 0;
            while j < ns
                invariant
                    ns == self.shifts@.len(),
                    i < ns,
                    j <= ns,
                    forall|a: int, b: int|
                        0 <= a < i && 0 <= b < ns && a != b ==> self.shifts@[a].id@
                            != self.shifts@[b].id@,
                    forall|a: int, b: int|
                        0 <= a < i && 0 <= b < ns && a != b && self.shifts@[a].status
                            == ShiftStatus::Open && self.shifts@[b].status == ShiftStatus::Open
                            ==> self.shifts@[a].user_id@ != self.shifts@[b].user_id@,
                    forall|b: int| 0 <= b < j && b != i ==> self.shifts@[i as int].id@ != self.shifts@[b].id@,
                    forall|b: int|
                        0 <= b < j && b != i && self.shifts@[i as int].status == ShiftStatus::Open
                            && self.shifts@[b].status == ShiftStatus::Open ==> self.shifts@[i as int].user_id@
                            != self.shifts@[b].user_id@,
                decreases ns - j,
            {
                if j != i {
                    if self.shifts[i].id == self.shifts[j].id {
                        assert(!self.shift_ids_unique());
                        return false;
                    }
                    if self.shifts[i].status == ShiftStatus::Open && self.shifts[j].status
                        == ShiftStatus::Open && self.shifts[i].user_id == self.shifts[j].user_id {
                        assert(!self.one_open_shift_per_user());
                        return false;
                    }
                }
                j = j + 1;
            }
            i = i + 1;
        }
        let mut k: usize = 0;
        while k < nm
            invariant
                nm == self.movements@.len(),
                k <= nm,
                forall|q: int| 0 <= q < k ==> #[trigger] self.movements@[q].amount >= 0,
                forall|q: int| 0 <= q < k ==> #[trigger] self.has_shift(self.movements@[q].shift_id@),
            decreases nm - k,
        {
            if self.movements[k].amount < 0 {
                return false;
            }
            match self.find_shift(self.movements[k].shift_id.as_str()) {
                Some(_) => {},
                None => {
                    assert(!self.has_shift(self.movements@[k as int].shift_id@));
                    return false;
                },
            }
            k = k + 1;
        }
        assert(self.amounts_nonnegative());
        i = 0;
        while i < ns
            invariant
                ns == self.shifts@.len(),
                nm == self.movements@.len(),
                i <= ns,
                self.amounts_nonnegative(),
                forall|a: int|
                    0 <= a < i ==> #[trigger] self.shifts@[a].expected_cash == effect_sum(
                        self.movements@,
                        self.shifts@[a].id@,
                    ),
            decreases ns - i,
        {
            let key = &self.shifts[i].id;
            let mut total: i128 = 0;
            k = 0;
            while k < nm
                invariant
                    ns == self.shifts@.len(),
                    nm == self.movements@.len(),
                    i < ns,
                    k <= nm,
                    *key == self.shifts@[i as int].id,
                    self.amounts_nonnegative(),
                    total == effect_sum(self.movements@.take(k as int), key@),
                    -(k * i64::MAX) <= total <= k * i64::MAX,
                decreases nm - k,
            {
                let ghost prefix = self.movements@.take(k + 1);
                assert(prefix.drop_last() =~= self.movements@.take(k as int));
                assert(prefix.last() == self.movements@[k as int]);
                assert((k + 1) * i64::MAX == k * i64::MAX + i64::MAX) by (nonlinear_arith);
                assert((k + 1) * i64::MAX <= 18446744073709551615 * i64::MAX) by (nonlinear_arith)
                    requires
                        k + 1 <= 18446744073709551615,
                ;
                let m = &self.movements[k];
                if m.shift_id == *key {
                    if m.movement_type.is_inflow_exec() {
                        total = total + m.amount as i128;
                    } else {
                        total = total - m.amount as i128;
                    }
                }
                k = k + 1;
            }
            assert(self.movements@.take(nm as int) =~= self.movements@);
            if total != self.shifts[i].expected_cash as i128 {
                assert(!self.balances_replay());
                return false;
            }
            i = i + 1;
        }
        i = 0;
        while i < ns
            invariant
                ns == self.shifts@.len(),
                nm == self.movements@.len(),
                i <= ns,
                self.shift_ids_unique(),
                self.one_open_shift_per_user(),
                self.movements_belong(),
                self.balances_replay(),
                self.amounts_nonnegative(),
                forall|a: int| 0 <= a < i ==> #[trigger] self.has_opening(a),
            decreases ns - i,
        {
            let key = &self.shifts[i].id;
            k = 0;
            while k < nm && !(self.movements[k].shift_id == *key)
                invariant
                    ns == self.shifts@.len(),
                    nm == self.movements@.len(),
                    i < ns,
                    k <= nm,
                    *key == self.shifts@[i as int].id,
                    forall|q: int| 0 <= q < k ==> self.movements@[q].shift_id@ != key@,
                decreases nm - k,
            {
                k = k + 1;
            }
            if k == nm {
                assert(!self.has_opening(i as int)) by {
                    if self.has_opening(i as int) {
                        let w = choose|w: int| #[trigger] self.is_opening(i as int, w);
                        assert(self.movements@[w].shift_id@ != key@);
                    }
                }
                return false;
            }
            if self.movements[k].movement_type != MovementType::CashIn || self.movements[k].amount
                != self.shifts[i].initial_cash {
                assert(!self.has_opening(i as int)) by {
                    if self.has_opening(i as int) {
                        let w = choose|w: int| #[trigger] self.is_opening(i as int, w);
                        if w < k {
                            assert(self.movements@[w].shift_id@ != key@);
                        } else if w > k {
                            assert(self.movements@[k as int].shift_id@ != self.shifts@[i as int].id@);
                        }
                    }
                }
                return false;
            }
            assert(self.is_opening(i as int, k as int));
            i = i + 1;
        }
        true
    }
}

} // verus!
