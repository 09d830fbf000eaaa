use journal_ledger::accounts::Accounts;
use journal_ledger::amount::Amount;
use journal_ledger::channel::{DisputeLookUpMessage, TransactionMessage};
use journal_ledger::dispute_look_up::{DisputeFinder, LookupError};
use journal_ledger::parser::{CsvParser, ParseError};
use journal_ledger::pipeline::process_journal;

fn amt(mantissa: i128, scale: u32) -> Amount {
    Amount::new(mantissa, scale).unwrap()
}

fn run(journal: &str) -> (Accounts, Result<(), ParseError>) {
    process_journal(format!("type,client,tx,amount\n{journal}").as_bytes())
}

fn row(accounts: &Accounts, client: u16) -> (Amount, Amount, Amount, bool) {
    let d = accounts.get(client).unwrap();
    (d.available(), d.held(), d.total(), d.is_frozen())
}

#[test]
fn two_deposits_and_a_withdrawal() {
    let (accounts, outcome) = run("deposit,1,1,5.0\ndeposit,2,2,3.0\nwithdrawal,1,3,1.0\n");
    assert_eq!(outcome, Ok(()));
    assert_eq!(row(&accounts, 1), (amt(40, 1), amt(0, 0), amt(40, 1), false));
    assert_eq!(row(&accounts, 2), (amt(30, 1), amt(0, 0), amt(30, 1), false));
    assert_eq!(accounts.client_ids(), vec![1, 2]);
}

#[test]
fn dispute_holds_funds() {
    let (accounts, _) = run("deposit,1,1,5.0\ndispute,1,1,\n");
    assert_eq!(row(&accounts, 1), (amt(0, 1), amt(50, 1), amt(50, 1), false));
}

#[test]
fn chargeback_after_dispute_freezes() {
    let (accounts, _) = run("deposit,1,1,5.0\ndispute,1,1,\nchargeback,1,1,\n");
    assert_eq!(row(&accounts, 1), (amt(0, 1), amt(0, 1), amt(0, 1), true));
}

#[test]
fn withdrawal_beyond_funds_is_rejected() {
    let (accounts, _) = run("deposit,1,1,5.0\nwithdrawal,1,2,10.0\n");
    assert_eq!(row(&accounts, 1), (amt(50, 1), amt(0, 0), amt(50, 1), false));
}

#[test]
fn dispute_of_unknown_client_opens_no_account() {
    let (accounts, outcome) = run("dispute,9,1,\n");
    assert_eq!(outcome, Ok(()));
    assert!(accounts.get(9).is_none());
    assert!(accounts.client_ids().is_empty());
    let mut ledger = Accounts::new();
    assert!(ledger.dispute(9, amt(1, 0)).is_err());
}

#[test]
fn dispute_then_resolve_restores_available_and_held() {
    let (accounts, _) = run("deposit,1,1,5.0\ndeposit,1,2,2.25\ndispute,1,1,\nresolve,1,1,\n");
    let (available, held, total, locked) = row(&accounts, 1);
    assert_eq!(available, amt(725, 2));
    assert_eq!(held, amt(0, 1));
    assert_eq!(total, amt(725, 2));
    assert!(!locked);
}

#[test]
fn resolve_through_cache_or_rescan_gives_same_ledger() {
    let journal = "type,client,tx,amount\ndeposit,1,1,5.0\ndeposit,1,2,1.5\n";
    let mut hit = DisputeFinder::new(journal.as_bytes());
    let mut miss = DisputeFinder::new(journal.as_bytes());
    let dispute = DisputeLookUpMessage::Dispute(1, 2);
    let resolve = DisputeLookUpMessage::Resolve(1, 2);
    let d1 = hit.handle(dispute).unwrap();
    let d2 = miss.handle(dispute).unwrap();
    assert_eq!(d1, d2);
    assert_eq!(miss.remove_from_cache(2), Ok(amt(15, 1)));
    let r1 = hit.handle(resolve).unwrap();
    let r2 = miss.handle(resolve).unwrap();
    assert_eq!(r1, r2);
    assert_eq!(r1, TransactionMessage::resolve(1, amt(15, 1)));

    let mut a = Accounts::new();
    let mut b = Accounts::new();
    for ledger in [&mut a, &mut b] {
        ledger.deposit(1, amt(50, 1));
        ledger.deposit(1, amt(15, 1));
    }
    a.apply(d1).unwrap();
    a.apply(r1).unwrap();
    b.apply(d2).unwrap();
    b.apply(r2).unwrap();
    assert_eq!(a.get(1), b.get(1));
}

#[test]
fn resolve_consumes_the_cache_entry() {
    let journal = "type,client,tx,amount\ndeposit,1,1,5.0\n";
    let mut finder = DisputeFinder::new(journal.as_bytes());
    assert_eq!(finder.find_dispute_amount(1, 1), Ok(amt(50, 1)));
    assert_eq!(finder.remove_from_cache(1), Ok(amt(50, 1)));
    assert_eq!(finder.remove_from_cache(1), Err(LookupError::NotCached));
    assert!(finder.handle(DisputeLookUpMessage::Chargeback(1, 1)).is_some());
    assert_eq!(finder.remove_from_cache(1), Err(LookupError::NotCached));
}

#[test]
fn search_stops_at_a_larger_transaction_id() {
    let journal = "type,client,tx,amount\ndeposit,1,5,1.0\ndeposit,1,3,2.0\n";
    let parser = CsvParser::new(journal.as_bytes());
    assert_eq!(parser.find_transaction(1, 3), Err(LookupError::NotFound));
    assert_eq!(parser.find_transaction(1, 5), Ok((1, 5, amt(10, 1))));
    assert_eq!(parser.find_transaction(2, 5), Err(LookupError::NotFound));
    let mut finder = DisputeFinder::new(journal.as_bytes());
    assert_eq!(finder.handle(DisputeLookUpMessage::Dispute(1, 3)), None);
}

#[test]
fn search_reports_a_malformed_record() {
    let journal = "type,client,tx,amount\ndeposit,1,1,oops\ndeposit,1,2,2.0\n";
    let parser = CsvParser::new(journal.as_bytes());
    assert_eq!(
        parser.find_transaction(1, 2),
        Err(LookupError::Malformed(ParseError::InvalidAmount))
    );
}

#[test]
fn search_matches_withdrawals_too() {
    let journal = "type,client,tx,amount\ndeposit,1,1,9\nwith drawal,1,2,4\n";
    let parser = CsvParser::new(journal.as_bytes());
    assert_eq!(parser.find_transaction(1, 2), Ok((1, 2, amt(4, 0))));
}

#[test]
fn malformed_record_leaves_a_partial_ledger() {
    let (accounts, outcome) = run("deposit,1,1,5.0\ndeposit,2,2,abc\ndeposit,3,3,1.0\n");
    assert_eq!(outcome, Err(ParseError::InvalidAmount));
    assert!(accounts.get(1).is_some());
    assert!(accounts.get(2).is_none());
    assert!(accounts.get(3).is_none());
}

#[test]
fn redispute_after_resolve_uses_the_journal_again() {
    let (accounts, _) =
        run("deposit,1,1,5.0\ndispute,1,1,\nresolve,1,1,\ndispute,1,1,\nchargeback,1,1,\n");
    assert_eq!(row(&accounts, 1), (amt(0, 1), amt(0, 1), amt(0, 1), true));
}
