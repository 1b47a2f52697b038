use crate::amount::Amount;
use crate::engine::{run, step, EngineState, PaymentEngine};
use crate::error::ParseError;
use crate::models::{snapshot, Transaction, TransactionType};
use rust_decimal::Decimal;
use std::str::FromStr;
use vstd::prelude::*;

verus! {

/// Whether `c` is white space in the sense of Unicode's `White_Space` property, as
/// `char::is_whitespace` and `str::trim` have it.
pub open spec fn is_white_space(c: char) -> bool {
    ||| ('\u{9}' <= c && c <= '\u{d}')
    ||| c == ' '
    ||| c == '\u{85}'
    ||| c == '\u{a0}'
    ||| c == '\u{1680}'
    ||| ('\u{2000}' <= c && c <= '\u{200a}')
    ||| c == '\u{2028}'
    ||| c == '\u{2029}'
    ||| c == '\u{202f}'
    ||| c == '\u{205f}'
    ||| c == '\u{3000}'
}

/// `s` without its leading white space.
pub open spec fn trim_start(s: Seq<char>) -> Seq<char>
    decreases s.len(),
{
    if s.len() > 0 && is_white_space(s[0]) {
        trim_start(s.drop_first())
    } else {
        s
    }
}

/// `s` without its trailing white space.
pub open spec fn trim_end(s: Seq<char>) -> Seq<char>
    decreases s.len(),
{
    if s.len() > 0 && is_white_space(s.last()) {
        trim_end(s.drop_last())
    } else {
        s
    }
}

/// `s` without white space at either end.
pub open spec fn trim(s: Seq<char>) -> Seq<char> {
    trim_end(trim_start(s))
}

/// The fields of `s` between commas: one more than the commas it holds.
pub open spec fn split_fields(s: Seq<char>) -> Seq<Seq<char>>
    decreases s.len(),
{
    if s.len() == 0 {
        seq![Seq::<char>::empty()]
    } else {
        let f = split_fields(s.drop_last());
        if s.last() == ',' {
            f.push(Seq::<char>::empty())
        } else {
            f.update(f.len() - 1, f.last().push(s.last()))
        }
    }
}

pub open spec fn is_digit(c: char) -> bool {
    '0' <= c && c <= '9'
}

/// The number that a string of decimal digits spells.
pub open spec fn digits_value(s: Seq<char>) -> int
    decreases s.len(),
{
    if s.len() == 0 {
        0
    } else {
        digits_value(s.drop_last()) * 10 + (s.last() as int - '0' as int)
    }
}

/// The digits of an unsigned integer's text: all but a leading `+`.
pub open spec fn unsigned_digits(s: Seq<char>) -> Seq<char> {
    if s.len() > 0 && s[0] == '+' {
        s.drop_first()
    } else {
        s
    }
}

pub open spec fn all_digits(s: Seq<char>) -> bool {
    forall|i: int| 0 <= i < s.len() ==> is_digit(#[trigger] s[i])
}

/// An unsigned integer no larger than `max`, written as `u16::from_str` and `u32::from_str`
/// read it: an optional `+`, then one or more ASCII digits.
pub open spec fn unsigned_of(s: Seq<char>, max: int) -> Option<int> {
    let d = unsigned_digits(s);
    if d.len() > 0 && all_digits(d) && digits_value(d) <= max {
        Some(digits_value(d))
    } else {
        None
    }
}

pub open spec fn deposit_word() -> Seq<char> {
    seq!['d', 'e', 'p', 'o', 's', 'i', 't']
}

pub open spec fn withdrawal_word() -> Seq<char> {
    seq!['w', 'i', 't', 'h', 'd', 'r', 'a', 'w', 'a', 'l']
}

pub open spec fn dispute_word() -> Seq<char> {
    seq!['d', 'i', 's', 'p', 'u', 't', 'e']
}

pub open spec fn resolve_word() -> Seq<char> {
    seq!['r', 'e', 's', 'o', 'l', 'v', 'e']
}

pub open spec fn chargeback_word() -> Seq<char> {
    seq!['c', 'h', 'a', 'r', 'g', 'e', 'b', 'a', 'c', 'k']
}

/// The kind that a lowercase keyword names.
pub open spec fn kind_of(s: Seq<char>) -> Option<TransactionType> {
    if s == deposit_word() {
        Some(TransactionType::Deposit)
    } else if s == withdrawal_word() {
        Some(TransactionType::Withdrawal)
    } else if s == dispute_word() {
        Some(TransactionType::Dispute)
    } else if s == resolve_word() {
        Some(TransactionType::Resolve)
    } else if s == chargeback_word() {
        Some(TransactionType::Chargeback)
    } else {
        None
    }
}

/// The mantissa and scale of the decimal that `Decimal::from_str` reads from a text, if any.
pub uninterp spec fn parsed_decimal(s: Seq<char>) -> Option<(i128, u32)>;

/// The record a line holds: `kind,client,tx[,amount]`, each field trimmed; the amount counts
/// only where a fourth field is there and not empty, and fields past it are ignored.
pub open spec fn record_of(line: Seq<char>) -> Result<Transaction, ParseError> {
    let parts = split_fields(line).map_values(|f: Seq<char>| trim(f));
    if parts.len() < 3 {
        Err(ParseError::InvalidFormat)
    } else {
        match kind_of(parts[0]) {
            None => Err(ParseError::InvalidType),
            Some(kind) => match unsigned_of(parts[1], 0xffff) {
                None => Err(ParseError::InvalidClient),
                Some(client) => match unsigned_of(parts[2], 0xffff_ffff) {
                    None => Err(ParseError::InvalidTx),
                    Some(tx) => if parts.len() > 3 && parts[3].len() > 0 {
                        match parsed_decimal(parts[3]) {
                            None => Err(ParseError::InvalidAmount),
                            Some((mantissa, scale)) => Ok(
                                Transaction {
                                    transaction_type: kind,
                                    client: client as u16,
                                    tx: tx as u32,
                                    amount: Some(Amount { mantissa, scale }),
                                },
                            ),
                        }
                    } else {
                        Ok(
                            Transaction {
                                transaction_type: kind,
                                client: client as u16,
                                tx: tx as u32,
                                amount: None,
                            },
                        )
                    },
                },
            },
        }
    }
}

/// Relies on `Decimal::from_str` (rust_decimal `str::parse_str_radix_10`): what it reads from a
/// text depends on that text alone, and a decimal it returns keeps a 96-bit mantissa and a
/// scale of at most 28.
#[verifier::external_body]
fn parse_decimal(text: &Vec<char>) -> (r: Option<Amount>)
    ensures
        r matches Some(a) ==> a.wf() && parsed_decimal(text@) == Some((a.mantissa, a.scale)),
        r is None ==> parsed_decimal(text@) is None,
{
    let s: String = text.iter().collect();
    match Decimal::from_str(&s) {
        Ok(d) => Some(Amount { mantissa: d.mantissa(), scale: d.scale() }),
        Err(_) => None,
    }
}

/// The characters of a string.
fn chars_of(s: &str) -> (r: Vec<char>)
    ensures
        r@ == s@,
{
    let mut r: Vec<char> = Vec::new();
    for c in it: s.chars()
        invariant
            r@ == it.seq().take(it.index() as int),
    {
        r.push(c);
    }
    r
}

/// Whether `c` is white space (see `is_white_space`).
pub fn white_space(c: char) -> (r: bool)
    ensures
        r == is_white_space(c),
{
    ('\u{9}' <= c && c <= '\u{d}') || c == ' ' || c == '\u{85}' || c == '\u{a0}' || c
        == '\u{1680}' || ('\u{2000}' <= c && c <= '\u{200a}') || c == '\u{2028}' || c == '\u{2029}'
        || c == '\u{202f}' || c == '\u{205f}' || c == '\u{3000}'
}

/// A field without white space at either end.
pub fn trim_field(s: &Vec<char>) -> (r: Vec<char>)
    ensures
        r@ == trim(s@),
{
    let n = s.len();
    let mut i: usize = 0;
    assert(s@.subrange(0, n as int) == s@);
    while i < n && white_space(s[i])
        invariant
            i <= n == s@.len(),
            trim_start(s@) == trim_start(s@.subrange(i as int, n as int)),
        decreases n - i,
    {
        proof {
            let t = s@.subrange(i as int, n as int);
            assert(t.drop_first() == s@.subrange(i + 1, n as int));
        }
        i = i + 1;
    }
    let ghost t = s@.subrange(i as int, n as int);
    assert(trim_start(t) == t);
    let mut j: usize = n;
    while j > i && white_space(s[j - 1])
        invariant
            i <= j <= n == s@.len(),
            t == s@.subrange(i as int, n as int),
            trim_end(t) == trim_end(s@.subrange(i as int, j as int)),
        decreases j - i,
    {
        proof {
            let u = s@.subrange(i as int, j as int);
            assert(u.drop_last() == s@.subrange(i as int, j - 1));
            assert(u.last() == s@[j - 1]);
        }
        j = j - 1;
    }
    let mut r: Vec<char> = Vec::new();
    let mut k: usize = i;
    while k < j
        invariant
            i <= k <= j <= n == s@.len(),
            r@ == s@.subrange(i as int, k as int),
        decreases j - k,
    {
        r.push(s[k]);
        proof {
            assert(r@ == s@.subrange(i as int, k + 1));
        }
        k = k + 1;
    }
    proof {
        let u = s@.subrange(i as int, j as int);
        if u.len() > 0 {
            assert(u.last() == s@[j - 1]);
        }
        assert(trim_end(u) == u);
    }
    r
}

/// The fields of `s` between commas.
pub fn split_commas(s: &Vec<char>) -> (r: Vec<Vec<char>>)
    ensures
        r@.map_values(|f: Vec<char>| f@) == split_fields(s@),
{
    let mut done: Vec<Vec<char>> = Vec::new();
    let mut current: Vec<char> = Vec::new();
    let mut i: usize = 0;
    while i < s.len()
        invariant
            i <= s@.len(),
            done@.map_values(|f: Vec<char>| f@).push(current@) == split_fields(s@.take(i as int)),
        decreases s@.len() - i,
    {
        let c = s[i];
        proof {
            let p = s@.take(i + 1);
            assert(p.drop_last() == s@.take(i as int));
            assert(p.last() == c);
        }
        if c == ',' {
            let ghost before = done@.map_values(|f: Vec<char>| f@);
            let finished = current;
            done.push(finished);
            current = Vec::new();
            assert(done@.map_values(|f: Vec<char>| f@) == before.push(finished@));
        } else {
            let ghost before = done@.map_values(|f: Vec<char>| f@);
            current.push(c);
            assert(done@.map_values(|f: Vec<char>| f@) == before);
        }
        i = i + 1;
    }
    assert(s@.take(i as int) == s@);
    let ghost before = done@.map_values(|f: Vec<char>| f@);
    let last = current;
    done.push(last);
    assert(done@.map_values(|f: Vec<char>| f@) == before.push(last@));
    done
}

proof fn lemma_digits_value_nonnegative(s: Seq<char>)
    requires
        forall|i: int| 0 <= i < s.len() ==> is_digit(#[trigger] s[i]),
    ensures
        digits_value(s) >= 0,
    decreases s.len(),
{
    if s.len() > 0 {
        let p = s.drop_last();
        assert forall|i: int| 0 <= i < p.len() implies is_digit(#[trigger] p[i]) by {
            assert(p[i] == s[i]);
        }
        lemma_digits_value_nonnegative(p);
    }
}

/// An unsigned integer no larger than `max`, as `unsigned_of` reads it.
fn parse_unsigned(s: &Vec<char>, max: u32) -> (r: Option<u32>)
    ensures
        r matches Some(v) ==> unsigned_of(s@, max as int) == Some(v as int),
        r is None ==> unsigned_of(s@, max as int) is None,
{
    let start: usize = if s.len() > 0 && s[0] == '+' {
        1
    } else {
        0
    };
    let ghost d = s@.subrange(start as int, s@.len() as int);
    assert(d == unsigned_digits(s@));
    if start == s.len() {
        return None;
    }
    let cap: u64 = max as u64 + 1;
    let mut acc: u64 = 0;
    let mut i: usize = start;
    while i < s.len()
        invariant
            start <= i <= s@.len(),
            d == s@.subrange(start as int, s@.len() as int),
            d == unsigned_digits(s@),
            cap == max + 1,
            forall|k: int| start <= k < i ==> is_digit(#[trigger] s@[k]),
            acc == if digits_value(s@.subrange(start as int, i as int)) < cap {
                digits_value(s@.subrange(start as int, i as int))
            } else {
                cap as int
            },
        decreases s@.len() - i,
    {
        let c = s[i];
        if !('0' <= c && c <= '9') {
            assert(d[i - start] == c);
            assert(!is_digit(d[i - start]));
            return None;
        }
        let ghost p = s@.subrange(start as int, i as int);
        let ghost q = s@.subrange(start as int, i + 1);
        proof {
            assert(q.drop_last() == p);
            assert(q.last() == c);
            assert forall|k: int| 0 <= k < p.len() implies is_digit(#[trigger] p[k]) by {
                assert(p[k] == s@[start + k]);
            }
            lemma_digits_value_nonnegative(p);
        }
        let digit = (c as u32 - '0' as u32) as u64;
        let next = acc * 10 + digit;
        acc = if next < cap {
            next
        } else {
            cap
        };
        i = i + 1;
    }
    assert(s@.subrange(start as int, i as int) == d);
    assert forall|k: int| 0 <= k < d.len() implies is_digit(#[trigger] d[k]) by {
        assert(d[k] == s@[start + k]);
    }
    if acc < cap {
        Some(acc as u32)
    } else {
        None
    }
}

/// Whether `s` spells `word`.
fn is_word(s: &Vec<char>, word: &Vec<char>) -> (r: bool)
    ensures
        r == (s@ == word@),
{
    if s.len() != word.len() {
        return false;
    }
    let mut i: usize = 0;
    while i < s.len()
        invariant
            i <= s@.len() == word@.len(),
            forall|k: int| 0 <= k < i ==> s@[k] == word@[k],
        decreases s@.len() - i,
    {
        if s[i] != word[i] {
            return false;
        }
        i = i + 1;
    }
    assert(s@ == word@);
    true
}

/// The kind that a lowercase keyword names: `deposit`, `withdrawal`, `dispute`, `resolve` or
/// `chargeback`.
pub fn parse_kind(s: &Vec<char>) -> (r: Option<TransactionType>)
    ensures
        r == kind_of(s@),
{
    let deposit: Vec<char> = vec!['d', 'e', 'p', 'o', 's', 'i', 't'];
    let withdrawal: Vec<char> = vec!['w', 'i', 't', 'h', 'd', 'r', 'a', 'w', 'a', 'l'];
    let dispute: Vec<char> = vec!['d', 'i', 's', 'p', 'u', 't', 'e'];
    let resolve: Vec<char> = vec!['r', 'e', 's', 'o', 'l', 'v', 'e'];
    let chargeback: Vec<char> = vec!['c', 'h', 'a', 'r', 'g', 'e', 'b', 'a', 'c', 'k'];
    assert(deposit@ == deposit_word());
    assert(withdrawal@ == withdrawal_word());
    assert(dispute@ == dispute_word());
    assert(resolve@ == resolve_word());
    assert(chargeback@ == chargeback_word());
    if is_word(s, &deposit) {
        Some(TransactionType::Deposit)
    } else if is_word(s, &withdrawal) {
        Some(TransactionType::Withdrawal)
    } else if is_word(s, &dispute) {
        Some(TransactionType::Dispute)
    } else if is_word(s, &resolve) {
        Some(TransactionType::Resolve)
    } else if is_word(s, &chargeback) {
        Some(TransactionType::Chargeback)
    } else {
        None
    }
}

/// Reads one record from a line `kind,client,tx[,amount]` (see `record_of`).
pub fn parse_transaction(line: &str) -> (r: Result<Transaction, ParseError>)
    ensures
        r == record_of(line@),
{
    let chars = chars_of(line);
    let fields = split_commas(&chars);
    let mut parts: Vec<Vec<char>> = Vec::new();
    let mut i: usize = 0;
    while i < fields.len()
        invariant
            i <= fields@.len(),
            fields@.map_values(|f: Vec<char>| f@) == split_fields(line@),
            parts@.map_values(|f: Vec<char>| f@) == split_fields(line@).take(i as int).map_values(
                |f: Seq<char>| trim(f),
            ),
        decreases fields@.len() - i,
    {
        let ghost before = parts@.map_values(|f: Vec<char>| f@);
        let t = trim_field(&fields[i]);
        parts.push(t);
        proof {
            assert(fields@.map_values(|f: Vec<char>| f@)[i as int] == fields@[i as int]@);
            assert(parts@.map_values(|f: Vec<char>| f@) == before.push(t@));
            assert(split_fields(line@).take(i + 1) == split_fields(line@).take(i as int).push(
                split_fields(line@)[i as int],
            ));
        }
        i = i + 1;
    }
    let ghost spec_parts = split_fields(line@).map_values(|f: Seq<char>| trim(f));
    assert(split_fields(line@).take(i as int) == split_fields(line@));
    assert(parts@.map_values(|f: Vec<char>| f@) == spec_parts);
    assert(parts@.len() == spec_parts.len());
    if parts.len() < 3 {
        return Err(ParseError::InvalidFormat);
    }
    assert(parts@[0]@ == spec_parts[0]);
    assert(parts@[1]@ == spec_parts[1]);
    assert(parts@[2]@ == spec_parts[2]);
    let transaction_type = match parse_kind(&parts[0]) {
        Some(k) => k,
        None => return Err(ParseError::InvalidType),
    };
    let client = match parse_unsigned(&parts[1], 0xffff) {
        Some(c) => c as u16,
        None => return Err(ParseError::InvalidClient),
    };
    let tx = match parse_unsigned(&parts[2], 0xffff_ffff) {
        Some(t) => t,
        None => return Err(ParseError::InvalidTx),
    };
    let amount = if parts.len() > 3 && parts[3].len() > 0 {
        assert(parts@[3]@ == spec_parts[3]);
        match parse_decimal(&parts[3]) {
            Some(a) => Some(a),
            None => return Err(ParseError::InvalidAmount),
        }
    } else {
        None
    };
    Ok(Transaction { transaction_type, client, tx, amount })
}

/// How many records the feed gathers before handing them to the engine.
pub const DEFAULT_BATCH_SIZE: usize = 1000;

/// Settings of the feed. The batch size bounds how much is held at once and has no effect on
/// the outcome; a size of zero hands each record over at once, as a size of one does.
pub struct ProcessingOptions {
    pub batch_size: usize,
}

impl Default for ProcessingOptions {
    fn default() -> (r: ProcessingOptions)
        ensures
            r.batch_size == DEFAULT_BATCH_SIZE,
    {
        ProcessingOptions { batch_size: DEFAULT_BATCH_SIZE }
    }
}

/// What the feed holds: the records gathered since the last batch went out, the batch size,
/// and whether the header line has gone by.
pub struct FeedState {
    pub pending: Seq<Transaction>,
    pub batch_size: nat,
    pub header_skipped: bool,
}

/// One parsed record into the feed: it joins the pending ones, and once they reach the batch
/// size they all go to the engine, in order.
pub open spec fn feed_record(f: FeedState, e: EngineState, t: Transaction) -> (
    FeedState,
    EngineState,
) {
    let p = f.pending.push(t);
    if p.len() >= f.batch_size {
        (FeedState { pending: Seq::empty(), ..f }, run(e, p))
    } else {
        (FeedState { pending: p, ..f }, e)
    }
}

/// The records `ts` into the feed, in order.
pub open spec fn feed_records(f: FeedState, e: EngineState, ts: Seq<Transaction>) -> (
    FeedState,
    EngineState,
)
    decreases ts.len(),
{
    if ts.len() == 0 {
        (f, e)
    } else {
        let (f1, e1) = feed_records(f, e, ts.drop_last());
        feed_record(f1, e1, ts.last())
    }
}

/// The engine's state once the pending records have gone to it too.
pub open spec fn flushed(f: FeedState, e: EngineState) -> EngineState {
    run(e, f.pending)
}

/// The records that the lines hold, in order, leaving out those that do not parse.
pub open spec fn parsed_records(lines: Seq<Seq<char>>) -> Seq<Transaction>
    decreases lines.len(),
{
    if lines.len() == 0 {
        Seq::empty()
    } else {
        let before = parsed_records(lines.drop_last());
        match record_of(lines.last()) {
            Ok(t) => before.push(t),
            Err(_) => before,
        }
    }
}

/// A record through the feed, once flushed, is the same as that record straight to the
/// engine after the pending ones.
pub proof fn lemma_feed_record_flushed(f: FeedState, e: EngineState, t: Transaction)
    ensures
        flushed(feed_record(f, e, t).0, feed_record(f, e, t).1) == step(flushed(f, e), t).0,
{
    let p = f.pending.push(t);
    assert(p.drop_last() == f.pending);
    assert(run(run(e, p), Seq::<Transaction>::empty()) == run(e, p));
}

/// Batching has no effect: records fed in batches of any size, once flushed, leave the engine
/// exactly where applying them one at a time, in the same order, would.
pub proof fn lemma_feed_matches_run(f: FeedState, e: EngineState, ts: Seq<Transaction>)
    ensures
        flushed(feed_records(f, e, ts).0, feed_records(f, e, ts).1) == run(flushed(f, e), ts),
    decreases ts.len(),
{
    if ts.len() > 0 {
        lemma_feed_matches_run(f, e, ts.drop_last());
        let (f1, e1) = feed_records(f, e, ts.drop_last());
        lemma_feed_record_flushed(f1, e1, ts.last());
    }
}

/// Two batch sizes give the same final state, and so the same snapshot of the accounts, for
/// the same records in the same order.
pub proof fn lemma_batch_size_has_no_effect(
    e: EngineState,
    ts: Seq<Transaction>,
    size1: nat,
    size2: nat,
)
    ensures
        ({
            let f1 = FeedState { pending: Seq::empty(), batch_size: size1, header_skipped: true };
            let f2 = FeedState { pending: Seq::empty(), batch_size: size2, header_skipped: true };
            let r1 = feed_records(f1, e, ts);
            let r2 = feed_records(f2, e, ts);
            &&& flushed(r1.0, r1.1) == run(e, ts)
            &&& flushed(r1.0, r1.1) == flushed(r2.0, r2.1)
            &&& snapshot(flushed(r1.0, r1.1).accounts, flushed(r1.0, r1.1).order) == snapshot(
                flushed(r2.0, r2.1).accounts,
                flushed(r2.0, r2.1).order,
            )
        }),
{
    let f1 = FeedState { pending: Seq::empty(), batch_size: size1, header_skipped: true };
    let f2 = FeedState { pending: Seq::empty(), batch_size: size2, header_skipped: true };
    lemma_feed_matches_run(f1, e, ts);
    lemma_feed_matches_run(f2, e, ts);
    assert(flushed(f1, e) == e);
    assert(flushed(f2, e) == e);
}

/// Delivers parsed records to the engine in the order received, in batches.
pub struct StreamingFeed {
    batch: Vec<Transaction>,
    batch_size: usize,
    header_skipped: bool,
}

impl View for StreamingFeed {
    type V = FeedState;

    closed spec fn view(&self) -> FeedState {
        FeedState {
            pending: self.batch@,
            batch_size: self.batch_size as nat,
            header_skipped: self.header_skipped,
        }
    }
}

impl StreamingFeed {
    pub fn new(options: &ProcessingOptions) -> (r: StreamingFeed)
        ensures
            r@ == (FeedState {
                pending: Seq::empty(),
                batch_size: options.batch_size as nat,
                header_skipped: false,
            }),
    {
        StreamingFeed { batch: Vec::new(), batch_size: options.batch_size, header_skipped: false }
    }

    /// Gathers a record, and hands the batch to the engine once it is full.
    pub fn push_record(&mut self, engine: &mut PaymentEngine, transaction: Transaction)
        requires
            old(engine).wf(),
        ensures
            final(engine).wf(),
            (final(self)@, final(engine)@) == feed_record(old(self)@, old(engine)@, transaction),
    {
        self.batch.push(transaction);
        if self.batch.len() >= self.batch_size {
            let _ = engine.process_transaction_batch(&mut self.batch);
        }
    }

    /// Takes one line of input. The first line is the header and is passed over; a later line
    /// that does not parse is left out and its error returned, and the feed goes on.
    pub fn push_line(&mut self, engine: &mut PaymentEngine, line: &str) -> (r: Result<
        (),
        ParseError,
    >)
        requires
            old(engine).wf(),
        ensures
            final(engine).wf(),
            !old(self)@.header_skipped ==> r is Ok && final(engine)@ == old(engine)@
                && final(self)@ == (FeedState { header_skipped: true, ..old(self)@ }),
            old(self)@.header_skipped ==> match record_of(line@) {
                Ok(t) => r is Ok && (final(self)@, final(engine)@) == feed_record(
                    old(self)@,
                    old(engine)@,
                    t,
                ),
                Err(e) => r == Err::<(), ParseError>(e) && final(self)@ == old(self)@
                    && final(engine)@ == old(engine)@,
            },
    {
        if !self.header_skipped {
            self.header_skipped = true;
            return Ok(());
        }
        match parse_transaction(line) {
            Ok(t) => {
                self.push_record(engine, t);
                Ok(())
            },
            Err(e) => Err(e),
        }
    }

    /// Takes the place of a line that could not be read: it only counts as the header if it
    /// was the first.
    pub fn push_unreadable(&mut self)
        ensures
            final(self)@ == (FeedState { header_skipped: true, ..old(self)@ }),
    {
        self.header_skipped = true;
    }

    /// Hands the records still pending to the engine, at the end of the input.
    pub fn finish(&mut self, engine: &mut PaymentEngine)
        requires
            old(engine).wf(),
        ensures
            final(engine).wf(),
            final(engine)@ == flushed(old(self)@, old(engine)@),
            final(self)@ == (FeedState { pending: Seq::empty(), ..old(self)@ }),
    {
        if self.batch.len() > 0 {
            let _ = engine.process_transaction_batch(&mut self.batch);
        } else {
            assert(self.batch@ == Seq::<Transaction>::empty());
        }
    }
}

/// Feeds the lines of an input, the header first, through batches of the given size, and
/// returns how many lines did not parse. The engine ends as it would after the records that
/// the other lines hold, applied one at a time in order.
pub fn process_lines(engine: &mut PaymentEngine, lines: &Vec<String>, options: &ProcessingOptions) -> (r:
    usize)
    requires
        old(engine).wf(),
    ensures
        final(engine).wf(),
        lines@.len() > 0 ==> final(engine)@ == run(
            old(engine)@,
            parsed_records(lines@.map_values(|l: String| l@).drop_first()),
        ),
        lines@.len() == 0 ==> final(engine)@ == old(engine)@,
        r <= lines@.len(),
{
    let ghost e0 = engine@;
    let ghost all = lines@.map_values(|l: String| l@);
    let mut feed = StreamingFeed::new(options);
    let mut failures: usize = 0;
    let mut i: usize = 0;
    while i < lines.len()
        invariant
            engine.wf(),
            i <= lines@.len(),
            failures <= i,
            all == lines@.map_values(|l: String| l@),
            feed@.header_skipped == (i > 0),
            i == 0 ==> engine@ == e0 && feed@.pending == Seq::<Transaction>::empty(),
            i > 0 ==> flushed(feed@, engine@) == run(e0, parsed_records(all.subrange(1, i as int))),
        decreases lines@.len() - i,
    {
        let ghost f0 = feed@;
        let ghost en0 = engine@;
        let line: &str = lines[i].as_str();
        assert(line@ == all[i as int]);
        let outcome = feed.push_line(engine, line);
        if outcome.is_err() {
            failures = failures + 1;
        }
        proof {
            if i > 0 {
                let done = all.subrange(1, i + 1);
                assert(done.drop_last() == all.subrange(1, i as int));
                assert(done.last() == all[i as int]);
                let before = parsed_records(all.subrange(1, i as int));
                match record_of(all[i as int]) {
                    Ok(t) => {
                        lemma_feed_record_flushed(f0, en0, t);
                        assert(parsed_records(done) == before.push(t));
                        assert(before.push(t).drop_last() == before);
                    },
                    Err(_) => {
                        assert(parsed_records(done) == before);
                    },
                }
            } else {
                assert(all.subrange(1, 1) == Seq::<Seq<char>>::empty());
                assert(flushed(feed@, engine@) == run(e0, Seq::<Transaction>::empty()));
            }
        }
        i = i + 1;
    }
    feed.finish(engine);
    if i > 0 {
        assert(all.subrange(1, i as int) == all.drop_first());
    }
    failures
}

} // verus!
