use vstd::prelude::*;

use crate::amount::Amount;
use crate::{ClientID, TransactionID};

verus! {

/// A deposit or withdrawal whose amount is known.
#[derive(Clone, Copy, Debug, PartialEq, Eq, Structural)]
pub struct Transaction {
    pub client_id: ClientID,
    pub amount: Amount,
}

impl Transaction {
    pub fn new(client_id: ClientID, amount: Amount) -> (r: Transaction)
        ensures
            r.client_id == client_id,
            r.amount == amount,
    {
        Transaction { amount, client_id }
    }
}

/// A dispute, resolve or chargeback whose amount has been looked up.
#[derive(Clone, Copy, Debug, PartialEq, Eq, Structural)]
pub struct Dispute {
    pub client_id: ClientID,
    pub amount: Amount,
}

impl Dispute {
    pub fn new(client_id: ClientID, amount: Amount) -> (r: Dispute)
        ensures
            r.client_id == client_id,
            r.amount == amount,
    {
        Dispute { client_id, amount }
    }
}

/// What the ledger consumes: one operation on one client's account.
#[derive(Clone, Copy, Debug, PartialEq, Eq, Structural)]
pub enum TransactionMessage {
    Deposit(Transaction),
    Withdrawal(Transaction),
    Dispute(Dispute),
    Resolve(Dispute),
    Chargeback(Dispute),
}

impl TransactionMessage {
    pub open spec fn client(self) -> ClientID {
        match self {
            TransactionMessage::Deposit(t) => t.client_id,
            TransactionMessage::Withdrawal(t) => t.client_id,
            TransactionMessage::Dispute(d) => d.client_id,
            TransactionMessage::Resolve(d) => d.client_id,
            TransactionMessage::Chargeback(d) => d.client_id,
        }
    }

    pub open spec fn amount(self) -> Amount {
        match self {
            TransactionMessage::Deposit(t) => t.amount,
            TransactionMessage::Withdrawal(t) => t.amount,
            TransactionMessage::Dispute(d) => d.amount,
            TransactionMessage::Resolve(d) => d.amount,
            TransactionMessage::Chargeback(d) => d.amount,
        }
    }

    /// Dispute, resolve and chargeback address an existing account only.
    pub open spec fn needs_account(self) -> bool {
        self is Dispute || self is Resolve || self is Chargeback
    }

    pub fn deposit(client_id: ClientID, amount: Amount) -> (r: Self)
        ensures
            r == TransactionMessage::Deposit(Transaction { client_id, amount }),
    {
        Self::Deposit(Transaction::new(client_id, amount))
    }

    pub fn withdrawal(client_id: ClientID, amount: Amount) -> (r: Self)
        ensures
            r == TransactionMessage::Withdrawal(Transaction { client_id, amount }),
    {
        Self::Withdrawal(Transaction::new(client_id, amount))
    }

    pub fn dispute(client_id: ClientID, amount: Amount) -> (r: Self)
        ensures
            r == TransactionMessage::Dispute(Dispute { client_id, amount }),
    {
        Self::Dispute(Dispute::new(client_id, amount))
    }

    pub fn resolve(client_id: ClientID, amount: Amount) -> (r: Self)
        ensures
            r == TransactionMessage::Resolve(Dispute { client_id, amount }),
    {
        Self::Resolve(Dispute::new(client_id, amount))
    }

    pub fn chargeback(client_id: ClientID, amount: Amount) -> (r: Self)
        ensures
            r == TransactionMessage::Chargeback(Dispute { client_id, amount }),
    {
        Self::Chargeback(Dispute::new(client_id, amount))
    }
}

/// A dispute, resolve or chargeback whose amount is still to be looked up.
#[derive(Clone, Copy, Debug, PartialEq, Eq, Structural)]
pub enum DisputeLookUpMessage {
    Dispute(ClientID, TransactionID),
    Resolve(ClientID, TransactionID),
    Chargeback(ClientID, TransactionID),
}

impl DisputeLookUpMessage {
    pub open spec fn client(self) -> ClientID {
        match self {
            DisputeLookUpMessage::Dispute(c, _) => c,
            DisputeLookUpMessage::Resolve(c, _) => c,
            DisputeLookUpMessage::Chargeback(c, _) => c,
        }
    }

    pub open spec fn transaction(self) -> TransactionID {
        match self {
            DisputeLookUpMessage::Dispute(_, t) => t,
            DisputeLookUpMessage::Resolve(_, t) => t,
            DisputeLookUpMessage::Chargeback(_, t) => t,
        }
    }

    pub fn client_id(&self) -> (r: ClientID)
        ensures
            r == self.client(),
    {
        match self {
            Self::Dispute(client_id, _) => *client_id,
            Self::Resolve(client_id, _) => *client_id,
            Self::Chargeback(client_id, _) => *client_id,
        }
    }

    pub fn transaction_id(&self) -> (r: TransactionID)
        ensures
            r == self.transaction(),
    {
        match self {
            Self::Dispute(_, transaction_id) => *transaction_id,
            Self::Resolve(_, transaction_id) => *transaction_id,
            Self::Chargeback(_, transaction_id) => *transaction_id,
        }
    }
}

} // verus!
