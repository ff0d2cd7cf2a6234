//! Client accounts and the balance movement of each transaction kind.

use crate::transaction::TransactionKind;
use vstd::prelude::*;

verus! {

/// The mathematical value of an account: its balances as unbounded integers.
pub struct AccountModel {
    pub client_id: u16,
    pub available: int,
    pub held: int,
    pub total: int,
    pub locked: bool,
}

impl AccountModel {
    /// The account of a client that has not moved any funds yet.
    pub open spec fn fresh(client_id: u16) -> AccountModel {
        AccountModel { client_id, available: 0, held: 0, total: 0, locked: false }
    }

    /// The total is the sum of what is available and what is held.
    pub open spec fn is_balanced(self) -> bool {
        self.total == self.available + self.held
    }

    /// Every balance fits a signed 64-bit count.
    pub open spec fn is_representable(self) -> bool {
        &&& i64::MIN <= self.available <= i64::MAX
        &&& i64::MIN <= self.held <= i64::MAX
        &&& i64::MIN <= self.total <= i64::MAX
    }

    /// The account after a movement of `amount` of the given kind:
    /// a deposit adds to available and total, a withdrawal takes from both,
    /// a dispute moves from available to held, a resolve moves back, and a
    /// chargeback takes from held and total and locks the account.
    pub open spec fn moved(self, kind: TransactionKind, amount: int) -> AccountModel {
        match kind {
            TransactionKind::Deposit => AccountModel {
                available: self.available + amount,
                total: self.total + amount,
                ..self
            },
            TransactionKind::Withdrawal => AccountModel {
                available: self.available - amount,
                total: self.total - amount,
                ..self
            },
            TransactionKind::Dispute => AccountModel {
                available: self.available - amount,
                held: self.held + amount,
                ..self
            },
            TransactionKind::Resolve => AccountModel {
                available: self.available + amount,
                held: self.held - amount,
                ..self
            },
            TransactionKind::Chargeback => AccountModel {
                held: self.held - amount,
                total: self.total - amount,
                locked: true,
                ..self
            },
        }
    }
}

/// One client's balances, in ten-thousandths of a currency unit.
#[derive(Clone, Copy, Debug, PartialEq, Eq, Structural)]
pub struct ClientAccount {
    pub client_id: u16,
    pub available: i64,
    pub held: i64,
    pub total: i64,
    pub locked: bool,
}

impl View for ClientAccount {
    type V = AccountModel;

    open spec fn view(&self) -> AccountModel {
        AccountModel {
            client_id: self.client_id,
            available: self.available as int,
            held: self.held as int,
            total: self.total as int,
            locked: self.locked,
        }
    }
}

impl ClientAccount {
    /// The account that has this model; meaningful where the model is
    /// representable.
    pub open spec fn of_model(m: AccountModel) -> ClientAccount {
        ClientAccount {
            client_id: m.client_id,
            available: m.available as i64,
            held: m.held as i64,
            total: m.total as i64,
            locked: m.locked,
        }
    }

    /// The account of a client that has not moved any funds yet.
    pub open spec fn fresh(client_id: u16) -> ClientAccount {
        ClientAccount { client_id, available: 0, held: 0, total: 0, locked: false }
    }

    /// The total is the sum of what is available and what is held.
    pub open spec fn is_balanced(self) -> bool {
        self@.is_balanced()
    }

    /// A zero-balance, unlocked account.
    pub fn new(in_client_id: u16) -> (account: ClientAccount)
        ensures
            account == ClientAccount::fresh(in_client_id),
            account@ == AccountModel::fresh(in_client_id),
            account.is_balanced(),
    {
        ClientAccount { client_id: in_client_id, available: 0, held: 0, total: 0, locked: false }
    }

    /// Applies the balance movement of `kind` with `amount`. Returns `None`,
    /// exactly when some resulting balance would not fit a signed 64-bit
    /// count.
    pub fn moved(&self, kind: TransactionKind, amount: i64) -> (next: Option<ClientAccount>)
        ensures
            match next {
                Some(account) => {
                    &&& self@.moved(kind, amount as int).is_representable()
                    &&& account@ == self@.moved(kind, amount as int)
                },
                None => !self@.moved(kind, amount as int).is_representable(),
            },
    {
        let plus_available = self.available.checked_add(amount);
        let minus_available = self.available.checked_sub(amount);
        let plus_held = self.held.checked_add(amount);
        let minus_held = self.held.checked_sub(amount);
        let plus_total = self.total.checked_add(amount);
        let minus_total = self.total.checked_sub(amount);
        match kind {
            TransactionKind::Deposit => match (plus_available, plus_total) {
                (Some(available), Some(total)) => Some(
                    ClientAccount { available, total, ..*self },
                ),
                _ => None,
            },
            TransactionKind::Withdrawal => match (minus_available, minus_total) {
                (Some(available), Some(total)) => Some(
                    ClientAccount { available, total, ..*self },
                ),
                _ => None,
            },
            TransactionKind::Dispute => match (minus_available, plus_held) {
                (Some(available), Some(held)) => Some(ClientAccount { available, held, ..*self }),
                _ => None,
            },
            TransactionKind::Resolve => match (plus_available, minus_held) {
                (Some(available), Some(held)) => Some(ClientAccount { available, held, ..*self }),
                _ => None,
            },
            TransactionKind::Chargeback => match (minus_held, minus_total) {
                (Some(held), Some(total)) => Some(
                    ClientAccount { held, total, locked: true, ..*self },
                ),
                _ => None,
            },
        }
    }
}

} // verus!
