use vstd::prelude::*;
use crate::ledger::{Ledger, LedgerError};
use crate::movement::copy_text;
use crate::outside::{bcrypt_accepts, fresh_id, hash_password, now_rfc3339, password_matches};

verus! {

#[derive(Clone, Copy, Debug, PartialEq, Eq, Structural)]
pub enum Role {
    Admin,
    Cashier,
}

/// A user account with its stored credential digest.
pub struct User {
    pub id: String,
    pub username: String,
    pub password_hash: String,
    pub full_name: String,
    pub role: Role,
    pub is_active: bool,
    pub created_at: String,
    pub last_login: Option<String>,
}

impl User {
    pub fn snapshot(&self) -> (r: User)
        ensures
            r == *self,
    {
        User {
            id: self.id.clone(),
            username: self.username.clone(),
            password_hash: self.password_hash.clone(),
            full_name: self.full_name.clone(),
            role: self.role,
            is_active: self.is_active,
            created_at: self.created_at.clone(),
            last_login: copy_text(&self.last_login),
        }
    }
}

/// Position of the first user with the given username.
pub open spec fn first_user_named(users: Seq<User>, name: Seq<char>) -> Option<int> {
    if exists|j: int|
        0 <= j < users.len() && users[j].username@ == name && forall|k: int|
            0 <= k < j ==> users[k].username@ != name {
        Some(
            choose|j: int|
                0 <= j < users.len() && users[j].username@ == name && forall|k: int|
                    0 <= k < j ==> users[k].username@ != name,
        )
    } else {
        None
    }
}

/// Whether a login with this password against this stored account succeeds.
pub open spec fn login_accepted(u: User, password: Seq<char>) -> bool {
    bcrypt_accepts(password, u.password_hash@) && u.is_active
}

impl Ledger {
    /// Every account in store order, with its credential digest left out.
    pub fn list_users(&self) -> (r: Vec<User>)
        ensures
            r@.len() == self.users@.len(),
            forall|k: int|
                0 <= k < r@.len() ==> {
                    let u = #[trigger] r@[k];
                    let s = self.users@[k];
                    &&& u.password_hash@ == Seq::<char>::empty()
                    &&& u.id == s.id
                    &&& u.username == s.username
                    &&& u.full_name == s.full_name
                    &&& u.role == s.role
                    &&& u.is_active == s.is_active
                    &&& u.created_at == s.created_at
                    &&& u.last_login == s.last_login
                },
    {
        let mut out: Vec<User> = Vec::new();
        let mut k: usize = 0;
        while k < self.users.len()
            invariant
                k <= self.users@.len(),
                out@.len() == k,
                forall|q: int|
                    0 <= q < k ==> {
                        let u = #[trigger] out@[q];
                        let s = self.users@[q];
                        &&& u.password_hash@ == Seq::<char>::empty()
                        &&& u.id == s.id
                        &&& u.username == s.username
                        &&& u.full_name == s.full_name
                        &&& u.role == s.role
                        &&& u.is_active == s.is_active
                        &&& u.created_at == s.created_at
                        &&& u.last_login == s.last_login
                    },
            decreases self.users@.len() - k,
        {
            let mut u = self.users[k].snapshot();
            u.password_hash = String::new();
            out.push(u);
            k = k + 1;
        }
        out
    }

    pub fn find_user_by_name(&self, username: &str) -> (r: Option<usize>)
        ensures
            match r {
                Some(j) => first_user_named(self.users@, username@) == Some(j as int),
                None => first_user_named(self.users@, username@) is None,
            },
    {
        let key = username.to_owned();
        let mut j: usize = 0;
        while j < self.users.len()
            invariant
                j <= self.users@.len(),
                key@ == username@,
                forall|k: int| 0 <= k < j ==> self.users@[k].username@ != username@,
            decreases self.users@.len() - j,
        {
            if self.users[j].username == key {
                return Some(j);
            }
            j = j + 1;
        }
        None
    }

    /// Decides a login once the credential check is known: the account at
    /// `index` is admitted only when the password matched and the account is
    /// active; then its last login becomes `now`.
    pub fn complete_login(&mut self, index: usize, password_ok: bool, now: String) -> (r: Option<User>)
        requires
            old(self).wf(),
            index < old(self).users@.len(),
        ensures
            final(self).wf(),
            r is Some <==> password_ok && old(self).users@[index as int].is_active,
            r is None ==> *final(self) == *old(self),
            r matches Some(u) ==> {
                &&& u == (User { last_login: Some(now), ..old(self).users@[index as int] })
                &&& final(self).users@ == old(self).users@.update(index as int, u)
                &&& final(self).products == old(self).products
                &&& final(self).transactions == old(self).transactions
                &&& final(self).shifts == old(self).shifts
                &&& final(self).movements == old(self).movements
                &&& final(self).reports == old(self).reports
            },
    {
        if !password_ok || !self.users[index].is_active {
            return None;
        }
        let mut u = self.users[index].snapshot();
        u.last_login = Some(now);
        let out = u.snapshot();
        let ghost before = *self;
        self.users.set(index, u);
        proof {
            Ledger::lemma_wf_same_shifts_and_log(before, *self);
        }
        Some(out)
    }

    /// Checks a username and password. Unknown names, wrong passwords and
    /// inactive accounts all give `None`; a success records the login time.
    pub fn authenticate(&mut self, username: &str, password: &str) -> (r: Option<User>)
        requires
            old(self).wf(),
        ensures
            final(self).wf(),
            r is Some <==> match first_user_named(old(self).users@, username@) {
                Some(j) => login_accepted(old(self).users@[j], password@),
                None => false,
            },
            r is None ==> *final(self) == *old(self),
            r matches Some(u) ==> {
                let j = first_user_named(old(self).users@, username@)->Some_0;
                &&& u == (User { last_login: u.last_login, ..old(self).users@[j] })
                &&& u.last_login is Some
                &&& final(self).users@ == old(self).users@.update(j, u)
                &&& final(self).products == old(self).products
                &&& final(self).transactions == old(self).transactions
                &&& final(self).shifts == old(self).shifts
                &&& final(self).movements == old(self).movements
                &&& final(self).reports == old(self).reports
            },
    {
        let j = match self.find_user_by_name(username) {
            Some(j) => j,
            None => {
                return None;
            },
        };
        let ok = password_matches(password, self.users[j].password_hash.as_str());
        self.complete_login(j, ok, now_rfc3339())
    }

    /// Adds an account under a username that no stored account has; the
    /// password is kept only as a bcrypt digest.
    pub fn add_user(&mut self, username: &str, password: &str, full_name: &str, role: Role) -> (r: Result<
        String,
        LedgerError,
    >)
        requires
            old(self).wf(),
        ensures
            final(self).wf(),
            first_user_named(old(self).users@, username@) is Some ==> r == Err::<String, LedgerError>(
                LedgerError::InvalidInput,
            ),
            first_user_named(old(self).users@, username@) is None ==> r is Ok || r == Err::<
                String,
                LedgerError,
            >(LedgerError::StorageFailure),
            r is Err ==> *final(self) == *old(self),
            r matches Ok(id) ==> {
                &&& final(self).users@.len() == old(self).users@.len() + 1
                &&& final(self).users@.drop_last() == old(self).users@
                &&& final(self).users@.last().id == id
                &&& final(self).users@.last().username@ == username@
                &&& final(self).users@.last().full_name@ == full_name@
                &&& final(self).users@.last().role == role
                &&& final(self).users@.last().is_active
                &&& final(self).users@.last().last_login is None
                &&& bcrypt_accepts(password@, final(self).users@.last().password_hash@)
                &&& final(self).products == old(self).products
                &&& final(self).transactions == old(self).transactions
                &&& final(self).shifts == old(self).shifts
                &&& final(self).movements == old(self).movements
                &&& final(self).reports == old(self).reports
            },
    {
        if self.find_user_by_name(username).is_some() {
            return Err(LedgerError::InvalidInput);
        }
        let digest = match hash_password(password) {
            Some(d) => d,
            None => {
                return Err(LedgerError::StorageFailure);
            },
        };
        let id = fresh_id();
        let user = User {
            id: id.clone(),
            username: username.to_owned(),
            password_hash: digest,
            full_name: full_name.to_owned(),
            role,
            is_active: true,
            created_at: now_rfc3339(),
            last_login: None,
        };
        let ghost before = *self;
        self.users.push(user);
        proof {
            Ledger::lemma_wf_same_shifts_and_log(before, *self);
            assert(self.users@.drop_last() =~= before.users@);
        }
        Ok(id)
    }

    fn add_default_users(&mut self) -> (r: Result<(), LedgerError>)
        requires
            old(self).wf(),
            old(self).users@.len() == 0,
        ensures
            final(self).wf(),
            r is Ok ==> {
                &&& final(self).users@.len() == 2
                &&& final(self).users@[0].username@ == "admin"@
                &&& final(self).users@[0].role == Role::Admin
                &&& bcrypt_accepts("admin123"@, final(self).users@[0].password_hash@)
                &&& final(self).users@[1].username@ == "kasir"@
                &&& final(self).users@[1].role == Role::Cashier
                &&& bcrypt_accepts("kasir123"@, final(self).users@[1].password_hash@)
            },
            final(self).products == old(self).products,
            final(self).transactions == old(self).transactions,
            final(self).shifts == old(self).shifts,
            final(self).movements == old(self).movements,
            final(self).reports == old(self).reports,
    {
        self.add_user("admin", "admin123", "Administrator", Role::Admin)?;
        self.add_user("kasir", "kasir123", "Kasir Default", Role::Cashier)?;
        Ok(())
    }

    /// Seeds the administrator and the default cashier into a store that
    /// has no users yet; a store with users is left as it is. When an account
    /// cannot be added the store is left without users.
    pub fn initialize_default_data(&mut self) -> (r: Result<(), LedgerError>)
        requires
            old(self).wf(),
        ensures
            final(self).wf(),
            old(self).users@.len() > 0 ==> r is Ok && *final(self) == *old(self),
            r is Ok && old(self).users@.len() == 0 ==> {
                &&& final(self).users@.len() == 2
                &&& final(self).users@[0].username@ == "admin"@
                &&& final(self).users@[0].role == Role::Admin
                &&& bcrypt_accepts("admin123"@, final(self).users@[0].password_hash@)
                &&& final(self).users@[1].username@ == "kasir"@
                &&& final(self).users@[1].role == Role::Cashier
                &&& bcrypt_accepts("kasir123"@, final(self).users@[1].password_hash@)
            },
            r is Err ==> final(self).users@.len() == 0,
            final(self).products == old(self).products,
            final(self).transactions == old(self).transactions,
            final(self).shifts == old(self).shifts,
            final(self).movements == old(self).movements,
            final(self).reports == old(self).reports,
    {
        if self.users.len() > 0 {
            return Ok(());
        }
        let r = self.add_default_users();
        if r.is_err() {
            let ghost before = *self;
            self.users.clear();
            proof {
                Ledger::lemma_wf_same_shifts_and_log(before, *self);
            }
        }
        r
    }
}

} // verus!
