use vstd::prelude::*;

use std::collections::HashMap;

use crate::amount::Amount;
use crate::channel::{Dispute, DisputeLookUpMessage, TransactionMessage};
use crate::parser::{scan, CsvParser, ParseError};
use crate::{ClientID, TransactionID};

verus! {

broadcast use vstd::std_specs::hash::group_hash_axioms;

/// Why the amount of a disputed transaction could not be found.
#[derive(Clone, Copy, Debug, PartialEq, Eq, Structural)]
pub enum LookupError {
    /// No deposit or withdrawal with that client id and transaction id precedes the first
    /// record with a larger transaction id.
    NotFound,
    /// A deposit or withdrawal met during the search failed to parse.
    Malformed(ParseError),
    /// The transaction has no entry in the cache.
    NotCached,
}

/// The cache after a look-up of `(c, t)`, and the amount found.
pub open spec fn looked_up(
    recs: Seq<Seq<Seq<u8>>>,
    cache: Map<TransactionID, Amount>,
    c: ClientID,
    t: TransactionID,
) -> (Map<TransactionID, Amount>, Result<Amount, LookupError>) {
    if cache.contains_key(t) {
        (cache, Ok(cache[t]))
    } else {
        match scan(recs, c, t) {
            Ok(a) => (cache.insert(t, a), Ok(a)),
            Err(e) => (cache, Err(e)),
        }
    }
}

/// The cache after a look-up request has been handled, and the message it gives the ledger:
/// a dispute keeps its cache entry, a resolve or chargeback consumes it.
pub open spec fn handled(
    recs: Seq<Seq<Seq<u8>>>,
    cache: Map<TransactionID, Amount>,
    req: DisputeLookUpMessage,
) -> (Map<TransactionID, Amount>, Option<TransactionMessage>) {
    let (cache1, found) = looked_up(recs, cache, req.client(), req.transaction());
    match found {
        Err(_) => (cache1, None),
        Ok(a) => match req {
            DisputeLookUpMessage::Dispute(c, _) => (
                cache1,
                Some(TransactionMessage::Dispute(Dispute { client_id: c, amount: a })),
            ),
            DisputeLookUpMessage::Resolve(c, t) => (
                cache1.remove(t),
                Some(TransactionMessage::Resolve(Dispute { client_id: c, amount: a })),
            ),
            DisputeLookUpMessage::Chargeback(c, t) => (
                cache1.remove(t),
                Some(TransactionMessage::Chargeback(Dispute { client_id: c, amount: a })),
            ),
        },
    }
}

/// Resolves disputed transactions to their amounts, re-reading its own copy of the journal
/// on a cache miss.
pub struct DisputeFinder {
    parser: CsvParser,
    cache: HashMap<TransactionID, Amount>,
}

impl DisputeFinder {
    pub closed spec fn journal(&self) -> Seq<Seq<Seq<u8>>> {
        self.parser.journal()
    }

    pub closed spec fn cache(&self) -> Map<TransactionID, Amount> {
        self.cache@
    }

    /// Every cached amount lies in the range of a decimal number.
    pub closed spec fn wf(&self) -> bool {
        forall|t: TransactionID| #[trigger] self.cache@.contains_key(t) ==> self.cache@[t].wf()
    }

    /// A finder over the journal's bytes, with an empty cache.
    pub fn new(data: &[u8]) -> (r: DisputeFinder)
        ensures
            r.wf(),
            r.journal() == crate::parser::csv_read(data@).0,
            r.cache() == Map::<TransactionID, Amount>::empty(),
    {
        DisputeFinder { parser: CsvParser::new(data), cache: HashMap::new() }
    }

    /// The amount of the transaction, from the cache or else from a search of the journal;
    /// a found amount is cached.
    pub fn find_dispute_amount(
        &mut self,
        client_id: ClientID,
        transaction_id: TransactionID,
    ) -> (r: Result<Amount, LookupError>)
        requires
            old(self).wf(),
        ensures
            final(self).wf(),
            final(self).journal() == old(self).journal(),
            (final(self).cache(), r) == looked_up(
                old(self).journal(),
                old(self).cache(),
                client_id,
                transaction_id,
            ),
            r matches Ok(a) ==> a.wf(),
    {
        match self.cache.get(&transaction_id) {
            Some(amount) => {
                return Ok(*amount);
            },
            None => {},
        }
        let (_, _, amount) = self.parser.find_transaction(client_id, transaction_id)?;
        self.cache.insert(transaction_id, amount);
        Ok(amount)
    }

    /// Takes the transaction's entry out of the cache.
    pub fn remove_from_cache(&mut self, transaction_id: TransactionID) -> (r: Result<Amount, LookupError>)
        requires
            old(self).wf(),
        ensures
            final(self).wf(),
            final(self).journal() == old(self).journal(),
            final(self).cache() == old(self).cache().remove(transaction_id),
            old(self).cache().contains_key(transaction_id) ==> r == Ok::<Amount, LookupError>(
                old(self).cache()[transaction_id],
            ),
            !old(self).cache().contains_key(transaction_id) ==> r == Err::<Amount, LookupError>(
                LookupError::NotCached,
            ),
    {
        match self.cache.remove(&transaction_id) {
            Some(a) => Ok(a),
            None => Err(LookupError::NotCached),
        }
    }

    /// Handles one look-up request: the message for the ledger, or `None` where the
    /// transaction was not found.
    pub fn handle(&mut self, request: DisputeLookUpMessage) -> (r: Option<TransactionMessage>)
        requires
            old(self).wf(),
        ensures
            final(self).wf(),
            final(self).journal() == old(self).journal(),
            (final(self).cache(), r) == handled(old(self).journal(), old(self).cache(), request),
            r matches Some(m) ==> m.amount().wf(),
    {
        match request {
            DisputeLookUpMessage::Dispute(client_id, transaction_id) => {
                match self.find_dispute_amount(client_id, transaction_id) {
                    Ok(amount) => Some(TransactionMessage::dispute(client_id, amount)),
                    Err(_) => None,
                }
            },
            DisputeLookUpMessage::Resolve(client_id, transaction_id) => {
                match self.find_dispute_amount(client_id, transaction_id) {
                    Ok(amount) => {
                        let _ = self.remove_from_cache(transaction_id);
                        Some(TransactionMessage::resolve(client_id, amount))
                    },
                    Err(_) => None,
                }
            },
            DisputeLookUpMessage::Chargeback(client_id, transaction_id) => {
                match self.find_dispute_amount(client_id, transaction_id) {
                    Ok(amount) => {
                        let _ = self.remove_from_cache(transaction_id);
                        Some(TransactionMessage::chargeback(client_id, amount))
                    },
                    Err(_) => None,
                }
            },
        }
    }
}

} // verus!
