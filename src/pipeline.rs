use vstd::prelude::*;

use crate::accounts::{AccountDetails, Accounts};
use crate::amount::Amount;
use crate::channel::DisputeLookUpMessage;
use crate::dispute_look_up::{handled, DisputeFinder, LookupError};
use crate::parser::{csv_read, journal_of, scan, CsvParser, JournalMessage, ParseError};
use crate::{ClientID, TransactionID};

verus! {

/// The ledger and the resolver's cache after one routed message: a transaction goes to the
/// ledger at once, a look-up request goes through the resolver first.
pub open spec fn stepped(
    recs: Seq<Seq<Seq<u8>>>,
    ledger: Map<ClientID, AccountDetails>,
    cache: Map<TransactionID, Amount>,
    msg: JournalMessage,
) -> (Map<ClientID, AccountDetails>, Map<TransactionID, Amount>) {
    match msg {
        JournalMessage::Transaction(m) => (Accounts::applied(ledger, m), cache),
        JournalMessage::LookUp(req) => {
            let (cache1, out) = handled(recs, cache, req);
            match out {
                Some(m) => (Accounts::applied(ledger, m), cache1),
                None => (ledger, cache1),
            }
        },
    }
}

/// The ledger and the cache after the routed messages, each handled before the next.
pub open spec fn stepped_all(
    recs: Seq<Seq<Seq<u8>>>,
    msgs: Seq<JournalMessage>,
) -> (Map<ClientID, AccountDetails>, Map<TransactionID, Amount>)
    decreases msgs.len(),
{
    if msgs.len() == 0 {
        (Map::empty(), Map::empty())
    } else {
        let (ledger, cache) = stepped_all(recs, msgs.drop_last());
        stepped(recs, ledger, cache, msgs.last())
    }
}

/// Runs the whole journal in one thread, each look-up resolved as soon as it is read: one
/// of the orders in which the concurrent stages may deliver messages to the ledger. Gives
/// the final ledger and how the parse pass ended.
pub fn process_journal(data: &[u8]) -> (r: (Accounts, Result<(), ParseError>))
    ensures
        r.0.wf(),
        r.0@ == stepped_all(csv_read(data@).0, journal_of(csv_read(data@).0).0).0,
        r.1 == match journal_of(csv_read(data@).0).1 {
            Some(e) => Err(e),
            None => if csv_read(data@).1 {
                Ok(())
            } else {
                Err(ParseError::UnreadableRecord)
            },
        },
{
    let parser = CsvParser::new(data);
    let (messages, outcome) = parser.parse_journal();
    let mut finder = DisputeFinder::new(data);
    let mut accounts = Accounts::new();
    let ghost recs = csv_read(data@).0;
    let ghost msgs = messages@;
    let mut i: usize = 0;
    assert(msgs.subrange(0, 0) =~= Seq::<JournalMessage>::empty());
    while i < messages.len()
        invariant
            i <= msgs.len(),
            msgs == messages@,
            forall|j: int|
                0 <= j < msgs.len() ==> (#[trigger] msgs[j] matches JournalMessage::Transaction(m)
                    ==> m.amount().wf()),
            accounts.wf(),
            finder.wf(),
            finder.journal() == recs,
            stepped_all(recs, msgs.subrange(0, i as int)) == (accounts@, finder.cache()),
        decreases msgs.len() - i,
    {
        let ghost next = msgs.subrange(0, i as int + 1);
        assert(next.drop_last() =~= msgs.subrange(0, i as int));
        assert(next.last() == msgs[i as int]);
        match messages[i] {
            JournalMessage::Transaction(m) => {
                let _ = accounts.apply(m);
            },
            JournalMessage::LookUp(request) => {
                match finder.handle(request) {
                    Some(m) => {
                        let _ = accounts.apply(m);
                    },
                    None => {},
                }
            },
        }
        i = i + 1;
    }
    assert(msgs.subrange(0, msgs.len() as int) =~= msgs);
    (accounts, outcome)
}

/// After a dispute of `(c, t)`, a resolve or chargeback of `(c, t)` gives the same ledger
/// and the same cache whether its amount comes from the cache or from a new search of the
/// journal after the entry was evicted, provided a cached amount for `t` is the one the
/// search finds for `(c, t)`.
pub proof fn lemma_cache_round_trip(
    recs: Seq<Seq<Seq<u8>>>,
    ledger: Map<ClientID, AccountDetails>,
    cache: Map<TransactionID, Amount>,
    c: ClientID,
    t: TransactionID,
)
    requires
        cache.contains_key(t) ==> scan(recs, c, t) == Ok::<Amount, LookupError>(cache[t]),
    ensures
        ({
            let (ledger1, cache1) = stepped(
                recs,
                ledger,
                cache,
                JournalMessage::LookUp(DisputeLookUpMessage::Dispute(c, t)),
            );
            &&& stepped(recs, ledger1, cache1, JournalMessage::LookUp(DisputeLookUpMessage::Resolve(c, t)))
                == stepped(recs, ledger1, cache1.remove(t), JournalMessage::LookUp(DisputeLookUpMessage::Resolve(c, t)))
            &&& stepped(recs, ledger1, cache1, JournalMessage::LookUp(DisputeLookUpMessage::Chargeback(c, t)))
                == stepped(recs, ledger1, cache1.remove(t), JournalMessage::LookUp(DisputeLookUpMessage::Chargeback(c, t)))
        }),
{
    let (ledger1, cache1) = stepped(
        recs,
        ledger,
        cache,
        JournalMessage::LookUp(DisputeLookUpMessage::Dispute(c, t)),
    );
    match scan(recs, c, t) {
        Ok(a) => {
            assert(cache1.contains_key(t) && cache1[t] == a);
            assert(cache1.remove(t).insert(t, a).remove(t) =~= cache1.remove(t));
        },
        Err(_) => {
            assert(!cache1.contains_key(t));
            assert(cache1.remove(t) =~= cache1);
        },
    }
}

} // verus!
