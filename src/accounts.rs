use vstd::prelude::*;

use std::collections::HashMap;

use crate::amount::{lemma_difference_exact, lemma_sum_exact, Amount};
use crate::channel::{Dispute, Transaction, TransactionMessage};
use crate::ClientID;

verus! {

broadcast use vstd::std_specs::hash::group_hash_axioms;

#[derive(Clone, Copy, Debug, PartialEq, Eq, Structural)]
pub enum AccountStatus {
    Active,
    Frozen,
}

impl AccountStatus {
    pub fn is_frozen(&self) -> (r: bool)
        ensures
            r == (*self is Frozen),
    {
        matches!(self, AccountStatus::Frozen)
    }
}

/// Why the ledger refused an operation.
#[derive(Clone, Copy, Debug, PartialEq, Eq, Structural)]
pub enum LedgerError {
    /// A dispute, resolve or chargeback named a client without an account.
    UnknownAccount,
}

/// The balances and status of one client's account.
#[derive(Clone, Copy, Debug, PartialEq, Eq, Structural)]
pub struct AccountDetails {
    pub account_status: AccountStatus,
    pub total: Amount,
    pub available: Amount,
    pub held: Amount,
}

impl AccountDetails {
    pub open spec fn fresh() -> AccountDetails {
        AccountDetails {
            account_status: AccountStatus::Active,
            total: Amount { mantissa: 0, scale: 0 },
            available: Amount { mantissa: 0, scale: 0 },
            held: Amount { mantissa: 0, scale: 0 },
        }
    }

    /// Every balance lies in the range of a decimal number.
    pub open spec fn wf(self) -> bool {
        self.total.wf() && self.available.wf() && self.held.wf()
    }

    /// `available + held == total`, exactly.
    pub open spec fn balanced(self) -> bool {
        self.available.units() + self.held.units() == self.total.units()
    }

    pub open spec fn with_balances(self, total: Amount, available: Amount, held: Amount) -> AccountDetails {
        AccountDetails { account_status: self.account_status, total, available, held }
    }

    /// `total += amount; available += amount`, or no change where a result leaves the range.
    pub open spec fn after_deposit(self, amount: Amount) -> AccountDetails {
        match (Amount::sum(self.total, amount), Amount::sum(self.available, amount)) {
            (Some(t), Some(a)) => self.with_balances(t, a, self.held),
            _ => self,
        }
    }

    /// `total -= amount; available -= amount`, or no change where a result leaves the range.
    pub open spec fn after_decrease(self, amount: Amount) -> AccountDetails {
        match (Amount::difference(self.total, amount), Amount::difference(self.available, amount)) {
            (Some(t), Some(a)) => self.with_balances(t, a, self.held),
            _ => self,
        }
    }

    /// A withdrawal larger than the available funds leaves the account as it is.
    pub open spec fn after_withdrawal(self, amount: Amount) -> AccountDetails {
        if amount.units() > self.available.units() {
            self
        } else {
            self.after_decrease(amount)
        }
    }

    /// `held += amount; available -= amount`, or no change where a result leaves the range.
    pub open spec fn after_dispute(self, amount: Amount) -> AccountDetails {
        match (Amount::sum(self.held, amount), Amount::difference(self.available, amount)) {
            (Some(h), Some(a)) => self.with_balances(self.total, a, h),
            _ => self,
        }
    }

    /// `held -= amount; available += amount`, or no change where a result leaves the range.
    pub open spec fn after_resolve(self, amount: Amount) -> AccountDetails {
        match (Amount::difference(self.held, amount), Amount::sum(self.available, amount)) {
            (Some(h), Some(a)) => self.with_balances(self.total, a, h),
            _ => self,
        }
    }

    /// `held -= amount; total -= amount` and the account is frozen, or no change where a
    /// result leaves the range.
    pub open spec fn after_chargeback(self, amount: Amount) -> AccountDetails {
        match (Amount::difference(self.held, amount), Amount::difference(self.total, amount)) {
            (Some(h), Some(t)) => AccountDetails {
                account_status: AccountStatus::Frozen,
                total: t,
                available: self.available,
                held: h,
            },
            _ => self,
        }
    }

    pub fn available(&self) -> (r: Amount)
        ensures
            r == self.available,
    {
        self.available
    }

    pub fn held(&self) -> (r: Amount)
        ensures
            r == self.held,
    {
        self.held
    }

    pub fn total(&self) -> (r: Amount)
        ensures
            r == self.total,
    {
        self.total
    }

    pub fn is_frozen(&self) -> (r: bool)
        ensures
            r == (self.account_status is Frozen),
    {
        self.account_status.is_frozen()
    }

    /// Increases `total` and `available`.
    pub fn deposit(&mut self, amount: Amount)
        requires
            old(self).wf(),
            amount.wf(),
        ensures
            *final(self) == old(self).after_deposit(amount),
            final(self).wf(),
    {
        self.increase_balance(amount);
    }

    /// Decreases `total` and `available`, without looking at the funds available.
    pub fn withdraw(&mut self, amount: Amount)
        requires
            old(self).wf(),
            amount.wf(),
        ensures
            *final(self) == old(self).after_decrease(amount),
            final(self).wf(),
    {
        self.decrease_balance(amount);
    }

    /// Moves `amount` from `available` to `held`.
    pub fn dispute(&mut self, amount: Amount)
        requires
            old(self).wf(),
            amount.wf(),
        ensures
            *final(self) == old(self).after_dispute(amount),
            final(self).wf(),
    {
        let h = self.held.checked_add(&amount);
        let a = self.available.checked_sub(&amount);
        if let (Some(h), Some(a)) = (h, a) {
            self.held = h;
            self.available = a;
        }
    }

    /// Moves `amount` from `held` back to `available`.
    pub fn resolve(&mut self, amount: Amount)
        requires
            old(self).wf(),
            amount.wf(),
        ensures
            *final(self) == old(self).after_resolve(amount),
            final(self).wf(),
    {
        let h = self.held.checked_sub(&amount);
        let a = self.available.checked_add(&amount);
        if let (Some(h), Some(a)) = (h, a) {
            self.held = h;
            self.available = a;
        }
    }

    /// Removes `amount` from `held` and `total` and freezes the account.
    pub fn chargeback(&mut self, amount: Amount)
        requires
            old(self).wf(),
            amount.wf(),
        ensures
            *final(self) == old(self).after_chargeback(amount),
            final(self).wf(),
    {
        let h = self.held.checked_sub(&amount);
        let t = self.total.checked_sub(&amount);
        if let (Some(h), Some(t)) = (h, t) {
            self.held = h;
            self.total = t;
            self.account_status = AccountStatus::Frozen;
        }
    }

    fn increase_balance(&mut self, amount: Amount)
        requires
            old(self).wf(),
            amount.wf(),
        ensures
            *final(self) == old(self).after_deposit(amount),
            final(self).wf(),
    {
        let t = self.total.checked_add(&amount);
        let a = self.available.checked_add(&amount);
        if let (Some(t), Some(a)) = (t, a) {
            self.total = t;
            self.available = a;
        }
    }

    fn decrease_balance(&mut self, amount: Amount)
        requires
            old(self).wf(),
            amount.wf(),
        ensures
            *final(self) == old(self).after_decrease(amount),
            final(self).wf(),
    {
        let t = self.total.checked_sub(&amount);
        let a = self.available.checked_sub(&amount);
        if let (Some(t), Some(a)) = (t, a) {
            self.total = t;
            self.available = a;
        }
    }
}

impl Default for AccountDetails {
    fn default() -> (r: AccountDetails)
        ensures
            r == AccountDetails::fresh(),
    {
        AccountDetails {
            account_status: AccountStatus::Active,
            total: Amount::zero(),
            available: Amount::zero(),
            held: Amount::zero(),
        }
    }
}

/// The ledger: one account per client that has made a deposit or a withdrawal.
pub struct Accounts {
    map: HashMap<ClientID, AccountDetails>,
    /// The clients with an account, in the order their accounts were opened.
    clients: Vec<ClientID>,
}

impl View for Accounts {
    type V = Map<ClientID, AccountDetails>;

    closed spec fn view(&self) -> Map<ClientID, AccountDetails> {
        self.map@
    }
}

impl Accounts {
    pub closed spec fn wf(&self) -> bool {
        &&& forall|c: ClientID| #[trigger] self.map@.contains_key(c) ==> self.map@[c].wf()
        &&& self.clients@.no_duplicates()
        &&& forall|c: ClientID| self.map@.contains_key(c) <==> #[trigger] self.clients@.contains(c)
    }

    pub open spec fn account_or_new(m: Map<ClientID, AccountDetails>, c: ClientID) -> AccountDetails {
        if m.contains_key(c) {
            m[c]
        } else {
            AccountDetails::fresh()
        }
    }

    /// The ledger after one message has been applied to it.
    pub open spec fn applied(
        m: Map<ClientID, AccountDetails>,
        msg: TransactionMessage,
    ) -> Map<ClientID, AccountDetails> {
        match msg {
            TransactionMessage::Deposit(t) => m.insert(
                t.client_id,
                Accounts::account_or_new(m, t.client_id).after_deposit(t.amount),
            ),
            TransactionMessage::Withdrawal(t) => m.insert(
                t.client_id,
                Accounts::account_or_new(m, t.client_id).after_withdrawal(t.amount),
            ),
            TransactionMessage::Dispute(d) => if m.contains_key(d.client_id) {
                m.insert(d.client_id, m[d.client_id].after_dispute(d.amount))
            } else {
                m
            },
            TransactionMessage::Resolve(d) => if m.contains_key(d.client_id) {
                m.insert(d.client_id, m[d.client_id].after_resolve(d.amount))
            } else {
                m
            },
            TransactionMessage::Chargeback(d) => if m.contains_key(d.client_id) {
                m.insert(d.client_id, m[d.client_id].after_chargeback(d.amount))
            } else {
                m
            },
        }
    }

    /// The ledger after a sequence of messages has been applied in order.
    pub open spec fn applied_all(
        m: Map<ClientID, AccountDetails>,
        msgs: Seq<TransactionMessage>,
    ) -> Map<ClientID, AccountDetails>
        decreases msgs.len(),
    {
        if msgs.len() == 0 {
            m
        } else {
            Accounts::applied(Accounts::applied_all(m, msgs.drop_last()), msgs.last())
        }
    }

    pub fn new() -> (r: Accounts)
        ensures
            r.wf(),
            r@ == Map::<ClientID, AccountDetails>::empty(),
    {
        Accounts { map: HashMap::new(), clients: Vec::new() }
    }

    /// Puts `d` under `c`, recording `c` as a client if it is new.
    fn store(&mut self, c: ClientID, d: AccountDetails)
        requires
            old(self).wf(),
            d.wf(),
        ensures
            final(self).wf(),
            final(self)@ == old(self)@.insert(c, d),
    {
        let known = self.map.contains_key(&c);
        self.map.insert(c, d);
        if !known {
            self.clients.push(c);
            proof {
                let old_clients = old(self).clients@;
                assert(self.clients@ == old_clients.push(c));
                assert forall|k: ClientID| old_clients.contains(k) implies #[trigger] self.clients@.contains(
                    k,
                ) by {
                    let i = choose|i: int| 0 <= i < old_clients.len() && old_clients[i] == k;
                    assert(self.clients@[i] == k);
                }
                assert(self.clients@[old_clients.len() as int] == c);
                assert(!old_clients.contains(c));
                assert forall|i: int, j: int|
                    0 <= i < self.clients@.len() && 0 <= j < self.clients@.len() && i != j implies
                    self.clients@[i] != self.clients@[j] by {
                    if i == old_clients.len() {
                        assert(old_clients[j] == self.clients@[j]);
                    } else if j == old_clients.len() {
                        assert(old_clients[i] == self.clients@[i]);
                    }
                }
                assert forall|k: ClientID| #[trigger] self.clients@.contains(k) implies k == c
                    || old_clients.contains(k) by {
                    let i = choose|i: int| 0 <= i < self.clients@.len() && self.clients@[i] == k;
                    if i < old_clients.len() {
                        assert(old_clients[i] == k);
                    }
                }
            }
        } else {
            assert(old(self).clients@.contains(c));
        }
    }

    fn account_or_default(&self, c: ClientID) -> (r: AccountDetails)
        requires
            self.wf(),
        ensures
            r == Accounts::account_or_new(self@, c),
            r.wf(),
    {
        match self.map.get(&c) {
            Some(d) => *d,
            None => AccountDetails::default(),
        }
    }

    /// Processes a deposit, opening the client's account if it has none.
    pub fn deposit(&mut self, client_id: ClientID, amount: Amount)
        requires
            old(self).wf(),
            amount.wf(),
        ensures
            final(self).wf(),
            final(self)@ == Accounts::applied(
                old(self)@,
                TransactionMessage::Deposit(Transaction { client_id, amount }),
            ),
    {
        let mut d = self.account_or_default(client_id);
        d.deposit(amount);
        self.store(client_id, d);
    }

    /// Processes a withdrawal, opening the client's account if it has none; a withdrawal
    /// larger than the available funds leaves the account unchanged.
    pub fn withdraw(&mut self, client_id: ClientID, amount: Amount)
        requires
            old(self).wf(),
            amount.wf(),
        ensures
            final(self).wf(),
            final(self)@ == Accounts::applied(
                old(self)@,
                TransactionMessage::Withdrawal(Transaction { client_id, amount }),
            ),
    {
        let mut d = self.account_or_default(client_id);
        if !amount.greater_than(&d.available) {
            d.withdraw(amount);
        }
        self.store(client_id, d);
    }

    /// Holds the disputed amount on the client's existing account.
    pub fn dispute(&mut self, client_id: ClientID, amount: Amount) -> (r: Result<(), LedgerError>)
        requires
            old(self).wf(),
            amount.wf(),
        ensures
            final(self).wf(),
            r is Err <==> !old(self)@.contains_key(client_id),
            final(self)@ == Accounts::applied(
                old(self)@,
                TransactionMessage::Dispute(Dispute { client_id, amount }),
            ),
    {
        match self.map.get(&client_id) {
            Some(d) => {
                let mut d = *d;
                d.dispute(amount);
                self.store(client_id, d);
                Ok(())
            },
            None => Err(LedgerError::UnknownAccount),
        }
    }

    /// Releases the held amount on the client's existing account.
    pub fn resolve(&mut self, client_id: ClientID, amount: Amount) -> (r: Result<(), LedgerError>)
        requires
            old(self).wf(),
            amount.wf(),
        ensures
            final(self).wf(),
            r is Err <==> !old(self)@.contains_key(client_id),
            final(self)@ == Accounts::applied(
                old(self)@,
                TransactionMessage::Resolve(Dispute { client_id, amount }),
            ),
    {
        match self.map.get(&client_id) {
            Some(d) => {
                let mut d = *d;
                d.resolve(amount);
                self.store(client_id, d);
                Ok(())
            },
            None => Err(LedgerError::UnknownAccount),
        }
    }

    /// Charges the held amount back and freezes the client's existing account.
    pub fn chargeback(&mut self, client_id: ClientID, amount: Amount) -> (r: Result<(), LedgerError>)
        requires
            old(self).wf(),
            amount.wf(),
        ensures
            final(self).wf(),
            r is Err <==> !old(self)@.contains_key(client_id),
            final(self)@ == Accounts::applied(
                old(self)@,
                TransactionMessage::Chargeback(Dispute { client_id, amount }),
            ),
    {
        match self.map.get(&client_id) {
            Some(d) => {
                let mut d = *d;
                d.chargeback(amount);
                self.store(client_id, d);
                Ok(())
            },
            None => Err(LedgerError::UnknownAccount),
        }
    }

    /// Applies one message; only a dispute, resolve or chargeback of a client without an
    /// account fails, and then nothing changes.
    pub fn apply(&mut self, message: TransactionMessage) -> (r: Result<(), LedgerError>)
        requires
            old(self).wf(),
            message.amount().wf(),
        ensures
            final(self).wf(),
            final(self)@ == Accounts::applied(old(self)@, message),
            r is Err <==> (message.needs_account() && !old(self)@.contains_key(message.client())),
    {
        match message {
            TransactionMessage::Deposit(Transaction { client_id, amount }) => {
                self.deposit(client_id, amount);
                Ok(())
            },
            TransactionMessage::Withdrawal(Transaction { client_id, amount }) => {
                self.withdraw(client_id, amount);
                Ok(())
            },
            TransactionMessage::Dispute(Dispute { client_id, amount }) => self.dispute(
                client_id,
                amount,
            ),
            TransactionMessage::Resolve(Dispute { client_id, amount }) => self.resolve(
                client_id,
                amount,
            ),
            TransactionMessage::Chargeback(Dispute { client_id, amount }) => self.chargeback(
                client_id,
                amount,
            ),
        }
    }

    /// The account of a client, if it has one.
    pub fn get(&self, client_id: ClientID) -> (r: Option<AccountDetails>)
        requires
            self.wf(),
        ensures
            r is Some <==> self@.contains_key(client_id),
            r matches Some(d) ==> d == self@[client_id],
    {
        match self.map.get(&client_id) {
            Some(d) => Some(*d),
            None => None,
        }
    }

    /// The clients with an account, each once, in the order their accounts were opened.
    pub fn client_ids(&self) -> (r: Vec<ClientID>)
        requires
            self.wf(),
        ensures
            r@.no_duplicates(),
            forall|c: ClientID| self@.contains_key(c) <==> #[trigger] r@.contains(c),
    {
        self.clients.clone()
    }
}

impl Default for Accounts {
    fn default() -> (r: Accounts)
        ensures
            r.wf(),
            r@ == Map::<ClientID, AccountDetails>::empty(),
    {
        Accounts::new()
    }
}

/// Each operation on an account keeps its balances in range and `available + held == total`.
pub proof fn lemma_operations_keep_balance(d: AccountDetails, a: Amount)
    requires
        d.wf(),
        d.balanced(),
        a.wf(),
    ensures
        d.after_deposit(a).wf() && d.after_deposit(a).balanced(),
        d.after_withdrawal(a).wf() && d.after_withdrawal(a).balanced(),
        d.after_dispute(a).wf() && d.after_dispute(a).balanced(),
        d.after_resolve(a).wf() && d.after_resolve(a).balanced(),
        d.after_chargeback(a).wf() && d.after_chargeback(a).balanced(),
{
    lemma_sum_exact(d.total, a);
    lemma_sum_exact(d.available, a);
    lemma_sum_exact(d.held, a);
    lemma_difference_exact(d.total, a);
    lemma_difference_exact(d.available, a);
    lemma_difference_exact(d.held, a);
}

/// Every account of a ledger is in range and balanced.
pub open spec fn all_balanced(m: Map<ClientID, AccountDetails>) -> bool {
    forall|c: ClientID| #[trigger] m.contains_key(c) ==> m[c].wf() && m[c].balanced()
}

/// Applying any message keeps `available + held == total` on every account.
pub proof fn lemma_apply_keeps_balance(m: Map<ClientID, AccountDetails>, msg: TransactionMessage)
    requires
        all_balanced(m),
        msg.amount().wf(),
    ensures
        all_balanced(Accounts::applied(m, msg)),
{
    let c = msg.client();
    let d = Accounts::account_or_new(m, c);
    assert(d.wf() && d.balanced());
    lemma_operations_keep_balance(d, msg.amount());
}

/// Starting from an empty ledger, `available + held == total` holds on every account after
/// every message.
pub proof fn lemma_balance_at_every_point(msgs: Seq<TransactionMessage>)
    requires
        forall|i: int| 0 <= i < msgs.len() ==> (#[trigger] msgs[i]).amount().wf(),
    ensures
        all_balanced(Accounts::applied_all(Map::empty(), msgs)),
    decreases msgs.len(),
{
    if msgs.len() > 0 {
        let prefix = msgs.drop_last();
        assert forall|i: int| 0 <= i < prefix.len() implies (#[trigger] prefix[i]).amount().wf() by {
            assert(prefix[i] == msgs[i]);
        }
        lemma_balance_at_every_point(prefix);
        assert(msgs.last() == msgs[msgs.len() - 1]);
        lemma_apply_keeps_balance(Accounts::applied_all(Map::empty(), prefix), msgs.last());
    }
}

/// `held` stays non-negative under every message that does not release more than is held:
/// a dispute of a non-negative amount, a resolve or chargeback of at most the held amount.
pub proof fn lemma_held_stays_nonnegative(m: Map<ClientID, AccountDetails>, msg: TransactionMessage)
    requires
        forall|c: ClientID| #[trigger] m.contains_key(c) ==> m[c].wf() && m[c].held.units() >= 0,
        msg.amount().wf(),
        msg is Dispute ==> msg.amount().units() >= 0,
        (msg is Resolve || msg is Chargeback) && m.contains_key(msg.client()) ==> msg.amount().units()
            <= m[msg.client()].held.units(),
    ensures
        forall|c: ClientID| #[trigger] Accounts::applied(m, msg).contains_key(c) ==> Accounts::applied(
            m,
            msg,
        )[c].held.units() >= 0,
{
    let c = msg.client();
    let d = Accounts::account_or_new(m, c);
    lemma_sum_exact(d.held, msg.amount());
    lemma_difference_exact(d.held, msg.amount());
}

/// Once an account is frozen, no message makes it active again.
pub proof fn lemma_frozen_stays_frozen(m: Map<ClientID, AccountDetails>, msg: TransactionMessage, c: ClientID)
    requires
        m.contains_key(c),
        m[c].account_status is Frozen,
    ensures
        Accounts::applied(m, msg).contains_key(c),
        Accounts::applied(m, msg)[c].account_status is Frozen,
{
}

/// Once an account is frozen, it stays frozen whatever messages follow.
pub proof fn lemma_frozen_stays_frozen_all(
    m: Map<ClientID, AccountDetails>,
    msgs: Seq<TransactionMessage>,
    c: ClientID,
)
    requires
        m.contains_key(c),
        m[c].account_status is Frozen,
    ensures
        Accounts::applied_all(m, msgs).contains_key(c),
        Accounts::applied_all(m, msgs)[c].account_status is Frozen,
    decreases msgs.len(),
{
    if msgs.len() > 0 {
        lemma_frozen_stays_frozen_all(m, msgs.drop_last(), c);
        lemma_frozen_stays_frozen(Accounts::applied_all(m, msgs.drop_last()), msgs.last(), c);
    }
}

/// A withdrawal larger than the available funds leaves the ledger unchanged.
pub proof fn lemma_withdrawal_guard(m: Map<ClientID, AccountDetails>, c: ClientID, a: Amount)
    requires
        m.contains_key(c),
        a.units() > m[c].available.units(),
    ensures
        Accounts::applied(m, TransactionMessage::Withdrawal(Transaction { client_id: c, amount: a }))
            == m,
{
    assert(m.insert(c, m[c]) =~= m);
}

/// A resolve right after a dispute of the same amount restores `available` and `held` to
/// their values before the dispute, exactly, where every intermediate result is in range.
pub proof fn lemma_dispute_then_resolve(d: AccountDetails, a: Amount)
    requires
        d.wf(),
        a.wf(),
        Amount::sum(d.held, a) is Some,
        Amount::difference(d.available, a) is Some,
        Amount::difference(d.after_dispute(a).held, a) is Some,
        Amount::sum(d.after_dispute(a).available, a) is Some,
    ensures
        d.after_dispute(a).after_resolve(a).available.units() == d.available.units(),
        d.after_dispute(a).after_resolve(a).held.units() == d.held.units(),
        d.after_dispute(a).after_resolve(a).total == d.total,
        d.after_dispute(a).after_resolve(a).account_status == d.account_status,
{
    let e = d.after_dispute(a);
    lemma_sum_exact(d.held, a);
    lemma_difference_exact(d.available, a);
    lemma_difference_exact(e.held, a);
    lemma_sum_exact(e.available, a);
}

/// A dispute, resolve or chargeback of a client without an account changes nothing (and
/// `Accounts::apply` reports it as an error).
pub proof fn lemma_unknown_account_unchanged(m: Map<ClientID, AccountDetails>, msg: TransactionMessage)
    requires
        msg.needs_account(),
        !m.contains_key(msg.client()),
    ensures
        Accounts::applied(m, msg) == m,
        !Accounts::applied(m, msg).contains_key(msg.client()),
{
}

} // verus!
