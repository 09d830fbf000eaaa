use vstd::prelude::*;

use crate::amount::{Amount, MANTISSA_BOUND, MAX_SCALE};
use crate::channel::{DisputeLookUpMessage, Transaction, TransactionMessage};
use crate::dispute_look_up::LookupError;
use crate::{ClientID, TransactionID};

verus! {

/// The kind of a journal record, read from its first field.
#[derive(Clone, Copy, Debug, PartialEq, Eq, Structural)]
pub enum RecordType {
    Deposit,
    Withdrawal,
    Dispute,
    Resolve,
    Chargeback,
}

/// Why a journal record could not be read.
#[derive(Clone, Copy, Debug, PartialEq, Eq, Structural)]
pub enum ParseError {
    /// The first field names none of the five record types.
    UnknownType,
    /// The record has fewer fields than its type needs.
    MissingField,
    InvalidClientId,
    InvalidTransactionId,
    InvalidAmount,
    /// The CSV layer could not read the rest of the journal.
    UnreadableRecord,
}

/// Where a parsed record goes: straight to the ledger, or to the dispute resolver first.
#[derive(Clone, Copy, Debug, PartialEq, Eq, Structural)]
pub enum JournalMessage {
    Transaction(TransactionMessage),
    LookUp(DisputeLookUpMessage),
}

/// ASCII whitespace: space, tab, line feed, form feed, carriage return.
pub open spec fn is_ascii_space(b: u8) -> bool {
    b == 0x20u8 || b == 0x09u8 || b == 0x0Au8 || b == 0x0Cu8 || b == 0x0Du8
}

/// The bytes of `s` with every ASCII whitespace byte removed.
pub open spec fn stripped(s: Seq<u8>) -> Seq<u8>
    decreases s.len(),
{
    if s.len() == 0 {
        s
    } else if is_ascii_space(s.last()) {
        stripped(s.drop_last())
    } else {
        stripped(s.drop_last()).push(s.last())
    }
}

pub open spec fn is_digit(b: u8) -> bool {
    0x30u8 <= b <= 0x39u8
}

pub open spec fn all_digits(s: Seq<u8>) -> bool {
    forall|i: int| 0 <= i < s.len() ==> is_digit(#[trigger] s[i])
}

/// The number written by a string of decimal digits.
pub open spec fn digits_value(s: Seq<u8>) -> int
    decreases s.len(),
{
    if s.len() == 0 {
        0
    } else {
        10 * digits_value(s.drop_last()) + (s.last() - 0x30u8)
    }
}

/// The digits of an unsigned integer: `s` without a leading `+`.
pub open spec fn without_plus(s: Seq<u8>) -> Seq<u8> {
    if s.len() > 0 && s[0] == 0x2bu8 {
        s.drop_first()
    } else {
        s
    }
}

/// An unsigned integer as Rust writes it: an optional `+`, then one or more digits.
pub open spec fn unsigned_of(s: Seq<u8>) -> Option<int> {
    let d = without_plus(s);
    if d.len() > 0 && all_digits(d) {
        Some(digits_value(d))
    } else {
        None
    }
}

/// The unsigned integer written in `s`, when it is at most `max`.
pub open spec fn bounded_unsigned_of(s: Seq<u8>, max: int) -> Option<int> {
    match unsigned_of(s) {
        Some(v) => if 0 <= v <= max {
            Some(v)
        } else {
            None
        },
        None => None,
    }
}

pub open spec fn word_of(t: RecordType) -> Seq<u8> {
    match t {
        // "deposit"
        RecordType::Deposit => seq![0x64u8, 0x65u8, 0x70u8, 0x6fu8, 0x73u8, 0x69u8, 0x74u8],
        // "withdrawal"
        RecordType::Withdrawal => seq![
            0x77u8, 0x69u8, 0x74u8, 0x68u8, 0x64u8, 0x72u8, 0x61u8, 0x77u8, 0x61u8, 0x6cu8,
        ],
        // "dispute"
        RecordType::Dispute => seq![0x64u8, 0x69u8, 0x73u8, 0x70u8, 0x75u8, 0x74u8, 0x65u8],
        // "resolve"
        RecordType::Resolve => seq![0x72u8, 0x65u8, 0x73u8, 0x6fu8, 0x6cu8, 0x76u8, 0x65u8],
        // "chargeback"
        RecordType::Chargeback => seq![
            0x63u8, 0x68u8, 0x61u8, 0x72u8, 0x67u8, 0x65u8, 0x62u8, 0x61u8, 0x63u8, 0x6bu8,
        ],
    }
}

/// The record type named by a field once its whitespace is removed (case-sensitive).
pub open spec fn record_type_of(field: Seq<u8>) -> Option<RecordType> {
    let w = stripped(field);
    if w == word_of(RecordType::Deposit) {
        Some(RecordType::Deposit)
    } else if w == word_of(RecordType::Withdrawal) {
        Some(RecordType::Withdrawal)
    } else if w == word_of(RecordType::Dispute) {
        Some(RecordType::Dispute)
    } else if w == word_of(RecordType::Resolve) {
        Some(RecordType::Resolve)
    } else if w == word_of(RecordType::Chargeback) {
        Some(RecordType::Chargeback)
    } else {
        None
    }
}

/// Every byte is ASCII.
pub open spec fn is_ascii_text(s: Seq<u8>) -> bool {
    forall|i: int| 0 <= i < s.len() ==> #[trigger] s[i] < 0x80u8
}

/// ASCII bytes read as characters, one for one.
pub open spec fn ascii_chars(s: Seq<u8>) -> Seq<char> {
    s.map_values(|b: u8| b as char)
}

/// Relies on `std::str::from_utf8`: ASCII bytes are valid UTF-8, one character per byte.
#[verifier::external_body]
fn ascii_str(bytes: &[u8]) -> (r: &str)
    requires
        is_ascii_text(bytes@),
    ensures
        r@ == ascii_chars(bytes@),
{
    std::str::from_utf8(bytes).unwrap()
}

/// What `Decimal::from_str_exact` makes of a text: its mantissa and scale.
pub uninterp spec fn decimal_of(text: Seq<char>) -> Option<(i128, u32)>;

/// Relies on rust_decimal's `Decimal::from_str_exact`: the result depends on the text alone,
/// and a decimal it returns has a scale of at most 28 and a mantissa below 2^96 in
/// magnitude, as the `Decimal` type documents.
#[verifier::external_body]
fn parse_decimal(text: &str) -> (r: Option<(i128, u32)>)
    ensures
        r == decimal_of(text@),
        r matches Some((m, s)) ==> s <= MAX_SCALE && -MANTISSA_BOUND < m < MANTISSA_BOUND,
{
    rust_decimal::Decimal::from_str_exact(text).ok().map(|d| (d.mantissa(), d.scale()))
}

/// The amount written in a field: whitespace removed, ASCII only, an exact decimal.
pub open spec fn amount_of(field: Seq<u8>) -> Option<Amount> {
    let w = stripped(field);
    if !is_ascii_text(w) {
        None
    } else {
        match decimal_of(ascii_chars(w)) {
            Some((m, s)) => Some(Amount { mantissa: m, scale: s }),
            None => None,
        }
    }
}

/// Fields of a deposit or withdrawal: client id, transaction id and amount.
pub open spec fn deposit_or_withdrawal_of(
    rec: Seq<Seq<u8>>,
) -> Result<(ClientID, TransactionID, Amount), ParseError> {
    if rec.len() < 4 {
        Err(ParseError::MissingField)
    } else {
        match amount_of(rec[3]) {
            None => Err(ParseError::InvalidAmount),
            Some(a) => match bounded_unsigned_of(stripped(rec[1]), 0xFFFF) {
                None => Err(ParseError::InvalidClientId),
                Some(c) => match bounded_unsigned_of(stripped(rec[2]), 0xFFFF_FFFF) {
                    None => Err(ParseError::InvalidTransactionId),
                    Some(t) => Ok((c as ClientID, t as TransactionID, a)),
                },
            },
        }
    }
}

/// Fields of a dispute, resolve or chargeback: client id and transaction id.
pub open spec fn dispute_data_of(rec: Seq<Seq<u8>>) -> Result<(ClientID, TransactionID), ParseError> {
    if rec.len() < 3 {
        Err(ParseError::MissingField)
    } else {
        match bounded_unsigned_of(stripped(rec[1]), 0xFFFF) {
            None => Err(ParseError::InvalidClientId),
            Some(c) => match bounded_unsigned_of(stripped(rec[2]), 0xFFFF_FFFF) {
                None => Err(ParseError::InvalidTransactionId),
                Some(t) => Ok((c as ClientID, t as TransactionID)),
            },
        }
    }
}

/// The message a record routes, `None` for a record of an unknown type.
pub open spec fn message_of(rec: Seq<Seq<u8>>) -> Result<Option<JournalMessage>, ParseError> {
    if rec.len() == 0 {
        Ok(None)
    } else {
        match record_type_of(rec[0]) {
            None => Ok(None),
            Some(RecordType::Deposit) => match deposit_or_withdrawal_of(rec) {
                Err(e) => Err(e),
                Ok((c, _, a)) => Ok(
                    Some(
                        JournalMessage::Transaction(
                            TransactionMessage::Deposit(Transaction { client_id: c, amount: a }),
                        ),
                    ),
                ),
            },
            Some(RecordType::Withdrawal) => match deposit_or_withdrawal_of(rec) {
                Err(e) => Err(e),
                Ok((c, _, a)) => Ok(
                    Some(
                        JournalMessage::Transaction(
                            TransactionMessage::Withdrawal(Transaction { client_id: c, amount: a }),
                        ),
                    ),
                ),
            },
            Some(RecordType::Dispute) => match dispute_data_of(rec) {
                Err(e) => Err(e),
                Ok((c, t)) => Ok(Some(JournalMessage::LookUp(DisputeLookUpMessage::Dispute(c, t)))),
            },
            Some(RecordType::Resolve) => match dispute_data_of(rec) {
                Err(e) => Err(e),
                Ok((c, t)) => Ok(Some(JournalMessage::LookUp(DisputeLookUpMessage::Resolve(c, t)))),
            },
            Some(RecordType::Chargeback) => match dispute_data_of(rec) {
                Err(e) => Err(e),
                Ok((c, t)) => Ok(Some(JournalMessage::LookUp(DisputeLookUpMessage::Chargeback(c, t)))),
            },
        }
    }
}

proof fn lemma_bytes_deep_view(v: &Vec<u8>)
    ensures
        v.deep_view() == v@,
{
    assert(v.deep_view() =~= v@);
}

/// Removes every ASCII whitespace byte.
pub fn strip_whitespace(s: &[u8]) -> (r: Vec<u8>)
    ensures
        r@ == stripped(s@),
{
    let mut out: Vec<u8> = Vec::new();
    let mut i: usize = 0;
    assert(s@.subrange(0, 0) =~= Seq::<u8>::empty());
    while i < s.len()
        invariant
            i <= s@.len(),
            out@ == stripped(s@.subrange(0, i as int)),
        decreases s@.len() - i,
    {
        let b = s[i];
        assert(s@.subrange(0, i as int + 1).drop_last() =~= s@.subrange(0, i as int));
        assert(s@.subrange(0, i as int + 1).last() == b);
        if !(b == 0x20u8 || b == 0x09u8 || b == 0x0Au8 || b == 0x0Cu8 || b == 0x0Du8) {
            out.push(b);
        }
        i = i + 1;
    }
    assert(s@.subrange(0, s@.len() as int) =~= s@);
    out
}

/// Parses an unsigned integer no larger than `max`.
fn parse_unsigned(s: &[u8], max: u64) -> (r: Option<u64>)
    requires
        max <= 0xFFFF_FFFF,
    ensures
        match bounded_unsigned_of(s@, max as int) {
            Some(v) => r == Some(v as u64),
            None => r is None,
        },
        r matches Some(v) ==> v <= max,
{
    let start: usize = if s.len() > 0 && s[0] == 0x2bu8 {
        1
    } else {
        0
    };
    let ghost d = without_plus(s@);
    assert(d =~= s@.subrange(start as int, s@.len() as int));
    if start >= s.len() {
        return None;
    }
    let mut v: u64 = 0;
    let mut over = false;
    let mut i: usize = start;
    assert(s@.subrange(start as int, start as int) =~= Seq::<u8>::empty());
    while i < s.len()
        invariant
            start <= i <= s@.len(),
            max <= 0xFFFF_FFFF,
            d =~= s@.subrange(start as int, s@.len() as int),
            d == without_plus(s@),
            all_digits(s@.subrange(start as int, i as int)),
            over ==> digits_value(s@.subrange(start as int, i as int)) > max,
            !over ==> v == digits_value(s@.subrange(start as int, i as int)) && v <= max,
        decreases s@.len() - i,
    {
        let b = s[i];
        let ghost prev = s@.subrange(start as int, i as int);
        let ghost next = s@.subrange(start as int, i as int + 1);
        assert(next.drop_last() =~= prev);
        assert(next.last() == b);
        if !(0x30u8 <= b && b <= 0x39u8) {
            proof {
                assert(d[i - start] == b);
                assert(!is_digit(d[i - start]));
                assert(!all_digits(d));
                assert(unsigned_of(s@) is None);
            }
            return None;
        }
        assert(all_digits(next)) by {
            assert forall|j: int| 0 <= j < next.len() implies is_digit(#[trigger] next[j]) by {
                if j < prev.len() {
                    assert(next[j] == prev[j]);
                }
            }
        }
        assert(digits_value(next) == 10 * digits_value(prev) + (b - 0x30u8));
        if !over {
            let w: u64 = v * 10 + (b - 0x30u8) as u64;
            if w > max {
                over = true;
            } else {
                v = w;
            }
        }
        i = i + 1;
    }
    assert(s@.subrange(start as int, s@.len() as int) =~= d);
    if over {
        None
    } else {
        Some(v)
    }
}

/// Parses a client id: whitespace removed, an unsigned 16-bit integer.
pub fn parse_client_id(field: &[u8]) -> (r: Option<ClientID>)
    ensures
        match bounded_unsigned_of(stripped(field@), 0xFFFF) {
            Some(v) => r == Some(v as ClientID),
            None => r is None,
        },
{
    let s = strip_whitespace(field);
    match parse_unsigned(s.as_slice(), 0xFFFF) {
        Some(v) => Some(v as u16),
        None => None,
    }
}

/// Parses a transaction id: whitespace removed, an unsigned 32-bit integer.
pub fn parse_transaction_id(field: &[u8]) -> (r: Option<TransactionID>)
    ensures
        match bounded_unsigned_of(stripped(field@), 0xFFFF_FFFF) {
            Some(v) => r == Some(v as TransactionID),
            None => r is None,
        },
{
    let s = strip_whitespace(field);
    match parse_unsigned(s.as_slice(), 0xFFFF_FFFF) {
        Some(v) => Some(v as u32),
        None => None,
    }
}

/// Parses an amount: whitespace removed, an exact decimal.
pub fn parse_amount(field: &[u8]) -> (r: Option<Amount>)
    ensures
        r == amount_of(field@),
        r matches Some(a) ==> a.wf(),
{
    let s = strip_whitespace(field);
    let mut i: usize = 0;
    while i < s.len()
        invariant
            i <= s@.len(),
            s@ == stripped(field@),
            forall|j: int| 0 <= j < i ==> #[trigger] s@[j] < 0x80u8,
        decreases s@.len() - i,
    {
        if s[i] >= 0x80u8 {
            assert(!is_ascii_text(s@));
            return None;
        }
        i = i + 1;
    }
    match parse_decimal(ascii_str(s.as_slice())) {
        Some((m, sc)) => Some(Amount { mantissa: m, scale: sc }),
        None => None,
    }
}

fn bytes_equal(s: &[u8], w: &[u8]) -> (r: bool)
    ensures
        r == (s@ == w@),
{
    if s.len() != w.len() {
        return false;
    }
    let mut i: usize = 0;
    while i < s.len()
        invariant
            i <= s@.len(),
            s@.len() == w@.len(),
            forall|j: int| 0 <= j < i ==> s@[j] == w@[j],
        decreases s@.len() - i,
    {
        if s[i] != w[i] {
            return false;
        }
        i = i + 1;
    }
    assert(s@ =~= w@);
    true
}

/// Classifies a record by its first field, whitespace removed.
pub fn parse_type(field: &[u8]) -> (r: Result<RecordType, ParseError>)
    ensures
        match record_type_of(field@) {
            Some(t) => r == Ok::<RecordType, ParseError>(t),
            None => r == Err::<RecordType, ParseError>(ParseError::UnknownType),
        },
{
    let s = strip_whitespace(field);
    let deposit: [u8; 7] = [0x64u8, 0x65u8, 0x70u8, 0x6fu8, 0x73u8, 0x69u8, 0x74u8];
    let withdrawal: [u8; 10] = [
        0x77u8, 0x69u8, 0x74u8, 0x68u8, 0x64u8, 0x72u8, 0x61u8, 0x77u8, 0x61u8, 0x6cu8,
    ];
    let dispute: [u8; 7] = [0x64u8, 0x69u8, 0x73u8, 0x70u8, 0x75u8, 0x74u8, 0x65u8];
    let resolve: [u8; 7] = [0x72u8, 0x65u8, 0x73u8, 0x6fu8, 0x6cu8, 0x76u8, 0x65u8];
    let chargeback: [u8; 10] = [
        0x63u8, 0x68u8, 0x61u8, 0x72u8, 0x67u8, 0x65u8, 0x62u8, 0x61u8, 0x63u8, 0x6bu8,
    ];
    assert(deposit@ =~= word_of(RecordType::Deposit));
    assert(withdrawal@ =~= word_of(RecordType::Withdrawal));
    assert(dispute@ =~= word_of(RecordType::Dispute));
    assert(resolve@ =~= word_of(RecordType::Resolve));
    assert(chargeback@ =~= word_of(RecordType::Chargeback));
    if bytes_equal(s.as_slice(), deposit.as_slice()) {
        Ok(RecordType::Deposit)
    } else if bytes_equal(s.as_slice(), withdrawal.as_slice()) {
        Ok(RecordType::Withdrawal)
    } else if bytes_equal(s.as_slice(), dispute.as_slice()) {
        Ok(RecordType::Dispute)
    } else if bytes_equal(s.as_slice(), resolve.as_slice()) {
        Ok(RecordType::Resolve)
    } else if bytes_equal(s.as_slice(), chargeback.as_slice()) {
        Ok(RecordType::Chargeback)
    } else {
        Err(ParseError::UnknownType)
    }
}

fn field(rec: &Vec<Vec<u8>>, i: usize) -> (r: &[u8])
    requires
        i < rec@.len(),
    ensures
        r@ == rec.deep_view()[i as int],
{
    proof {
        lemma_bytes_deep_view(&rec@[i as int]);
    }
    rec[i].as_slice()
}

/// Reads client id, transaction id and amount of a deposit or withdrawal record.
pub fn parse_deposit_or_withdrawal(
    record: &Vec<Vec<u8>>,
) -> (r: Result<(ClientID, TransactionID, Amount), ParseError>)
    ensures
        r == deposit_or_withdrawal_of(record.deep_view()),
        r matches Ok((_, _, a)) ==> a.wf(),
{
    if record.len() < 4 {
        return Err(ParseError::MissingField);
    }
    let amount = match parse_amount(field(record, 3)) {
        Some(a) => a,
        None => {
            return Err(ParseError::InvalidAmount);
        },
    };
    let client_id = match parse_client_id(field(record, 1)) {
        Some(c) => c,
        None => {
            return Err(ParseError::InvalidClientId);
        },
    };
    let transaction_id = match parse_transaction_id(field(record, 2)) {
        Some(t) => t,
        None => {
            return Err(ParseError::InvalidTransactionId);
        },
    };
    Ok((client_id, transaction_id, amount))
}

/// Reads client id and transaction id of a dispute, resolve or chargeback record.
pub fn parse_dispute_data(record: &Vec<Vec<u8>>) -> (r: Result<(ClientID, TransactionID), ParseError>)
    ensures
        r == dispute_data_of(record.deep_view()),
{
    if record.len() < 3 {
        return Err(ParseError::MissingField);
    }
    let client_id = match parse_client_id(field(record, 1)) {
        Some(c) => c,
        None => {
            return Err(ParseError::InvalidClientId);
        },
    };
    let transaction_id = match parse_transaction_id(field(record, 2)) {
        Some(t) => t,
        None => {
            return Err(ParseError::InvalidTransactionId);
        },
    };
    Ok((client_id, transaction_id))
}

/// Parses one record into the message it routes; a record of an unknown type routes none.
pub fn parse_record(record: &Vec<Vec<u8>>) -> (r: Result<Option<JournalMessage>, ParseError>)
    ensures
        r == message_of(record.deep_view()),
        r matches Ok(Some(JournalMessage::Transaction(m))) ==> m.amount().wf(),
{
    if record.len() == 0 {
        return Ok(None);
    }
    match parse_type(field(record, 0)) {
        Ok(RecordType::Deposit) => {
            let (client_id, _, amount) = parse_deposit_or_withdrawal(record)?;
            Ok(Some(JournalMessage::Transaction(TransactionMessage::deposit(client_id, amount))))
        },
        Ok(RecordType::Withdrawal) => {
            let (client_id, _, amount) = parse_deposit_or_withdrawal(record)?;
            Ok(Some(JournalMessage::Transaction(TransactionMessage::withdrawal(client_id, amount))))
        },
        Ok(RecordType::Dispute) => {
            let (client_id, transaction_id) = parse_dispute_data(record)?;
            Ok(Some(JournalMessage::LookUp(DisputeLookUpMessage::Dispute(client_id, transaction_id))))
        },
        Ok(RecordType::Resolve) => {
            let (client_id, transaction_id) = parse_dispute_data(record)?;
            Ok(Some(JournalMessage::LookUp(DisputeLookUpMessage::Resolve(client_id, transaction_id))))
        },
        Ok(RecordType::Chargeback) => {
            let (client_id, transaction_id) = parse_dispute_data(record)?;
            Ok(Some(JournalMessage::LookUp(DisputeLookUpMessage::Chargeback(client_id, transaction_id))))
        },
        Err(_) => Ok(None),
    }
}

/// The messages routed by the records, in order, up to the first record that fails to
/// parse, and that record's error.
pub open spec fn journal_of(recs: Seq<Seq<Seq<u8>>>) -> (Seq<JournalMessage>, Option<ParseError>)
    decreases recs.len(),
{
    if recs.len() == 0 {
        (Seq::empty(), None)
    } else {
        let (ms, err) = journal_of(recs.drop_last());
        if err is Some {
            (ms, err)
        } else {
            match message_of(recs.last()) {
                Err(e) => (ms, Some(e)),
                Ok(None) => (ms, None),
                Ok(Some(m)) => (ms.push(m), None),
            }
        }
    }
}

pub open spec fn is_deposit_or_withdrawal(rec: Seq<Seq<u8>>) -> bool {
    rec.len() > 0 && (record_type_of(rec[0]) == Some(RecordType::Deposit) || record_type_of(rec[0])
        == Some(RecordType::Withdrawal))
}

/// The amount of the first deposit or withdrawal with the given client id and transaction
/// id; the search gives up at the first such record with a larger transaction id.
pub open spec fn scan(recs: Seq<Seq<Seq<u8>>>, c: ClientID, t: TransactionID) -> Result<Amount, LookupError>
    decreases recs.len(),
{
    if recs.len() == 0 {
        Err(LookupError::NotFound)
    } else if !is_deposit_or_withdrawal(recs[0]) {
        scan(recs.drop_first(), c, t)
    } else {
        match deposit_or_withdrawal_of(recs[0]) {
            Err(e) => Err(LookupError::Malformed(e)),
            Ok((fc, ft, a)) => if fc == c && ft == t {
                Ok(a)
            } else if ft > t {
                Err(LookupError::NotFound)
            } else {
                scan(recs.drop_first(), c, t)
            },
        }
    }
}

/// What the CSV reader makes of the journal's bytes: the records before the first error,
/// each as the bytes of its fields, and whether it read to the end without error.
pub uninterp spec fn csv_read(data: Seq<u8>) -> (Seq<Seq<Seq<u8>>>, bool);

/// Relies on csv's `Reader::from_reader` and `Reader::byte_records`, which skip the header
/// row: the records read before the first error, and whether none occurred. The result
/// depends on the bytes alone.
#[verifier::external_body]
fn read_csv(data: &[u8]) -> (r: (Vec<Vec<Vec<u8>>>, bool))
    ensures
        (r.0.deep_view(), r.1) == csv_read(data@),
{
    let mut reader = csv::Reader::from_reader(data);
    let mut records: Vec<Vec<Vec<u8>>> = Vec::new();
    for record in reader.byte_records() {
        match record {
            Ok(record) => records.push(record.iter().map(|f| f.to_vec()).collect()),
            Err(_) => return (records, false),
        }
    }
    (records, true)
}

/// One sequential reader over a journal: its records, read once, and whether they were
/// read to the end.
pub struct CsvParser {
    pub records: Vec<Vec<Vec<u8>>>,
    pub complete: bool,
}

impl CsvParser {
    pub open spec fn journal(&self) -> Seq<Seq<Seq<u8>>> {
        self.records.deep_view()
    }

    /// Reads the journal's records; the first row is the header.
    pub fn new(data: &[u8]) -> (r: CsvParser)
        ensures
            (r.journal(), r.complete) == csv_read(data@),
    {
        let (records, complete) = read_csv(data);
        CsvParser { records, complete }
    }

    /// Classifies and parses each record in order; stops at the first record that fails
    /// to parse, or at the point where the CSV layer failed.
    pub fn parse_journal(&self) -> (r: (Vec<JournalMessage>, Result<(), ParseError>))
        ensures
            r.0@ == journal_of(self.journal()).0,
            r.1 == match journal_of(self.journal()).1 {
                Some(e) => Err(e),
                None => if self.complete {
                    Ok(())
                } else {
                    Err(ParseError::UnreadableRecord)
                },
            },
            forall|i: int|
                0 <= i < r.0@.len() ==> (#[trigger] r.0@[i] matches JournalMessage::Transaction(m)
                    ==> m.amount().wf()),
    {
        let mut out: Vec<JournalMessage> = Vec::new();
        let mut i: usize = 0;
        let ghost recs = self.journal();
        assert(recs.subrange(0, 0) =~= Seq::<Seq<Seq<u8>>>::empty());
        while i < self.records.len()
            invariant
                i <= self.records@.len(),
                recs == self.journal(),
                journal_of(recs.subrange(0, i as int)) == (out@, None::<ParseError>),
                forall|j: int|
                    0 <= j < out@.len() ==> (#[trigger] out@[j] matches JournalMessage::Transaction(
                        m,
                    ) ==> m.amount().wf()),
            decreases self.records@.len() - i,
        {
            let ghost prev = recs.subrange(0, i as int);
            let ghost next = recs.subrange(0, i as int + 1);
            assert(next.drop_last() =~= prev);
            assert(next.last() == recs[i as int]);
            match parse_record(&self.records[i]) {
                Err(e) => {
                    proof {
                        lemma_journal_stops(recs, i as int + 1);
                    }
                    return (out, Err(e));
                },
                Ok(None) => {},
                Ok(Some(m)) => {
                    out.push(m);
                },
            }
            i = i + 1;
        }
        assert(recs.subrange(0, recs.len() as int) =~= recs);
        if self.complete {
            (out, Ok(()))
        } else {
            (out, Err(ParseError::UnreadableRecord))
        }
    }

    /// Searches the journal from its start for the deposit or withdrawal with the given
    /// client id and transaction id.
    pub fn find_transaction(
        &self,
        client_id: ClientID,
        transaction_id: TransactionID,
    ) -> (r: Result<(ClientID, TransactionID, Amount), LookupError>)
        ensures
            match scan(self.journal(), client_id, transaction_id) {
                Ok(a) => r == Ok::<(ClientID, TransactionID, Amount), LookupError>(
                    (client_id, transaction_id, a),
                ),
                Err(e) => r == Err::<(ClientID, TransactionID, Amount), LookupError>(e),
            },
            r matches Ok((_, _, a)) ==> a.wf(),
    {
        let ghost recs = self.journal();
        let mut i: usize = 0;
        assert(recs.subrange(0, recs.len() as int) =~= recs);
        while i < self.records.len()
            invariant
                i <= self.records@.len(),
                recs == self.journal(),
                scan(recs, client_id, transaction_id) == scan(
                    recs.subrange(i as int, recs.len() as int),
                    client_id,
                    transaction_id,
                ),
            decreases self.records@.len() - i,
        {
            let ghost rest = recs.subrange(i as int, recs.len() as int);
            assert(rest[0] == recs[i as int]);
            assert(rest.drop_first() =~= recs.subrange(i as int + 1, recs.len() as int));
            let record = &self.records[i];
            let kind = if record.len() > 0 {
                parse_type(field(record, 0))
            } else {
                Err(ParseError::UnknownType)
            };
            match kind {
                Ok(RecordType::Deposit) | Ok(RecordType::Withdrawal) => {
                    match parse_deposit_or_withdrawal(record) {
                        Err(e) => {
                            return Err(LookupError::Malformed(e));
                        },
                        Ok((found_client_id, found_transaction_id, amount)) => {
                            if found_client_id == client_id && found_transaction_id == transaction_id {
                                return Ok((found_client_id, found_transaction_id, amount));
                            }
                            if found_transaction_id > transaction_id {
                                return Err(LookupError::NotFound);
                            }
                        },
                    }
                },
                _ => {},
            }
            i = i + 1;
        }
        Err(LookupError::NotFound)
    }
}

/// Once a record fails to parse, later records add nothing.
proof fn lemma_journal_stops(recs: Seq<Seq<Seq<u8>>>, n: int)
    requires
        0 < n <= recs.len(),
        journal_of(recs.subrange(0, n)).1 is Some,
    ensures
        journal_of(recs) == journal_of(recs.subrange(0, n)),
    decreases recs.len() - n,
{
    if n < recs.len() {
        let next = recs.subrange(0, n + 1);
        assert(next.drop_last() =~= recs.subrange(0, n));
        assert(journal_of(next) == journal_of(recs.subrange(0, n)));
        lemma_journal_stops(recs, n + 1);
    } else {
        assert(recs.subrange(0, n) =~= recs);
    }
}

} // verus!
