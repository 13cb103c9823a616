use vstd::prelude::*;

verus! {

/// The closed set of cash movement kinds.
#[derive(Clone, Copy, Debug, PartialEq, Eq, Structural)]
pub enum MovementType {
    CashIn,
    CashOut,
    Sale,
    Adjustment,
}

/// The movement kind that a stored tag names, if any.
pub open spec fn movement_type_from(tag: Seq<char>) -> Option<MovementType> {
    if tag == "cash_in"@ {
        Some(MovementType::CashIn)
    } else if tag == "cash_out"@ {
        Some(MovementType::CashOut)
    } else if tag == "sale"@ {
        Some(MovementType::Sale)
    } else if tag == "adjustment"@ {
        Some(MovementType::Adjustment)
    } else {
        None
    }
}

impl MovementType {
    /// Cash in and sales add to the drawer; cash out and adjustments take from it.
    pub open spec fn is_inflow(self) -> bool {
        self is CashIn || self is Sale
    }

    /// The signed effect of a movement of this kind on the expected cash.
    pub open spec fn effect(self, amount: int) -> int {
        if self.is_inflow() {
            amount
        } else {
            -amount
        }
    }

    pub open spec fn tag_spec(self) -> Seq<char> {
        match self {
            MovementType::CashIn => "cash_in"@,
            MovementType::CashOut => "cash_out"@,
            MovementType::Sale => "sale"@,
            MovementType::Adjustment => "adjustment"@,
        }
    }

    pub fn is_inflow_exec(&self) -> (r: bool)
        ensures
            r == self.is_inflow(),
    {
        match self {
            MovementType::CashIn | MovementType::Sale => true,
            MovementType::CashOut | MovementType::Adjustment => false,
        }
    }

    /// Reads a movement tag; any tag outside the closed set is refused.
    pub fn from_tag(tag: &str) -> (r: Option<MovementType>)
        ensures
            r == movement_type_from(tag@),
    {
        let t = tag.to_owned();
        if t == "cash_in".to_owned() {
            Some(MovementType::CashIn)
        } else if t == "cash_out".to_owned() {
            Some(MovementType::CashOut)
        } else if t == "sale".to_owned() {
            Some(MovementType::Sale)
        } else if t == "adjustment".to_owned() {
            Some(MovementType::Adjustment)
        } else {
            None
        }
    }

    /// The tag under which this kind is stored.
    pub fn tag(&self) -> (r: String)
        ensures
            r@ == self.tag_spec(),
    {
        match self {
            MovementType::CashIn => "cash_in".to_owned(),
            MovementType::CashOut => "cash_out".to_owned(),
            MovementType::Sale => "sale".to_owned(),
            MovementType::Adjustment => "adjustment".to_owned(),
        }
    }
}

/// One cash event within a shift. The amount is never negative: its
/// direction comes from the movement type.
pub struct CashMovement {
    pub id: String,
    pub shift_id: String,
    pub transaction_id: Option<String>,
    pub movement_type: MovementType,
    pub amount: i64,
    pub reason: Option<String>,
    pub timestamp: String,
    pub user_id: String,
}

pub fn copy_text(o: &Option<String>) -> (r: Option<String>)
    ensures
        r == *o,
{
    match o {
        Some(s) => Some(s.clone()),
        None => None,
    }
}

impl CashMovement {
    pub open spec fn effect(self) -> int {
        self.movement_type.effect(self.amount as int)
    }

    /// An identical copy of this movement.
    pub fn snapshot(&self) -> (r: CashMovement)
        ensures
            r == *self,
    {
        CashMovement {
            id: self.id.clone(),
            shift_id: self.shift_id.clone(),
            transaction_id: copy_text(&self.transaction_id),
            movement_type: self.movement_type,
            amount: self.amount,
            reason: copy_text(&self.reason),
            timestamp: self.timestamp.clone(),
            user_id: self.user_id.clone(),
        }
    }
}

/// The fold of signed effects over the movements of shift `sid`, in log order.
pub open spec fn effect_sum(log: Seq<CashMovement>, sid: Seq<char>) -> int
    decreases log.len(),
{
    if log.len() == 0 {
        0
    } else {
        effect_sum(log.drop_last(), sid) + if log.last().shift_id@ == sid {
            log.last().effect()
        } else {
            0
        }
    }
}

/// Sum of the amounts of the shift's cash-in and sale movements.
pub open spec fn inflow_total(log: Seq<CashMovement>, sid: Seq<char>) -> int
    decreases log.len(),
{
    if log.len() == 0 {
        0
    } else {
        inflow_total(log.drop_last(), sid) + if log.last().shift_id@ == sid
            && log.last().movement_type.is_inflow() {
            log.last().amount as int
        } else {
            0
        }
    }
}

/// Sum of the amounts of the shift's cash-out and adjustment movements.
pub open spec fn outflow_total(log: Seq<CashMovement>, sid: Seq<char>) -> int
    decreases log.len(),
{
    if log.len() == 0 {
        0
    } else {
        outflow_total(log.drop_last(), sid) + if log.last().shift_id@ == sid
            && !log.last().movement_type.is_inflow() {
            log.last().amount as int
        } else {
            0
        }
    }
}

/// The movements of shift `sid`, most recent first.
pub open spec fn recent_first(log: Seq<CashMovement>, sid: Seq<char>) -> Seq<CashMovement>
    decreases log.len(),
{
    if log.len() == 0 {
        Seq::empty()
    } else if log.last().shift_id@ == sid {
        seq![log.last()] + recent_first(log.drop_last(), sid)
    } else {
        recent_first(log.drop_last(), sid)
    }
}

/// The fold of signed effects splits into inflows minus outflows.
pub proof fn lemma_effect_sum_splits(log: Seq<CashMovement>, sid: Seq<char>)
    ensures
        effect_sum(log, sid) == inflow_total(log, sid) - outflow_total(log, sid),
    decreases log.len(),
{
    if log.len() > 0 {
        lemma_effect_sum_splits(log.drop_last(), sid);
    }
}

/// A log with no movement of shift `sid` folds to nothing for it.
pub proof fn lemma_effect_sum_absent(log: Seq<CashMovement>, sid: Seq<char>)
    requires
        forall|k: int| 0 <= k < log.len() ==> log[k].shift_id@ != sid,
    ensures
        effect_sum(log, sid) == 0,
    decreases log.len(),
{
    if log.len() > 0 {
        lemma_effect_sum_absent(log.drop_last(), sid);
    }
}

/// Appending a movement changes the fold of its own shift by its effect and
/// leaves every other shift's fold alone.
pub proof fn lemma_effect_sum_push(log: Seq<CashMovement>, m: CashMovement, sid: Seq<char>)
    ensures
        effect_sum(log.push(m), sid) == effect_sum(log, sid) + if m.shift_id@ == sid {
            m.effect()
        } else {
            0
        },
{
    assert(log.push(m).drop_last() =~= log);
}

/// Taking one of shift `sid`'s movements out of the log takes its effect out
/// of the fold.
pub proof fn lemma_effect_sum_remove(log: Seq<CashMovement>, sid: Seq<char>, k: int)
    requires
        0 <= k < log.len(),
        log[k].shift_id@ == sid,
    ensures
        effect_sum(log, sid) == effect_sum(log.remove(k), sid) + log[k].effect(),
    decreases log.len(),
{
    if k == log.len() - 1 {
        assert(log.remove(k) =~= log.drop_last());
    } else {
        lemma_effect_sum_remove(log.drop_last(), sid, k);
        assert(log.remove(k).drop_last() =~= log.drop_last().remove(k));
        assert(log.remove(k).last() == log.last());
    }
}

} // verus!
