//! Reading a delimited-text transaction stream and writing the final
//! account report.
//!
//! The `csv` crate splits the raw bytes into records of trimmed fields;
//! everything after that split — recognizing the header columns, parsing
//! each field, replaying the transactions, rendering the report — is
//! verified code.

use crate::assoc::AssocMap;
use crate::engine::{
    handle_transaction, spec_apply, ClientState, ClientsState, Snapshot, Transaction,
    TransactionHistory, TransactionKind,
};
use crate::laws::{accounts_balanced, lemma_apply_preserves_balance};
use crate::numeric::{
    dec_digits, parse_amount, parse_u16, parse_u32, push_dec, push_units, spec_parse_amount,
    spec_parse_u16, spec_parse_u32, units_digits,
};
use vstd::prelude::*;

verus! {

/// Why a run was aborted: a record that cannot be understood is fatal to
/// the whole run.
#[derive(Clone, Copy, Debug, PartialEq, Eq)]
pub enum ParseError {
    /// The delimited-text layer itself rejected the input.
    Csv,
    /// A record lacks one of the type, client, or tx fields.
    MissingField,
    /// The client id field is not an unsigned 16-bit integer.
    BadClient,
    /// The transaction id field is not an unsigned 32-bit integer.
    BadTx,
    /// The amount field is not a representable non-negative amount.
    BadAmount,
}

/// What the delimited-text layer yields for a given input: the records,
/// each a sequence of trimmed fields, or nothing when the input is
/// rejected. The splitting itself is the `csv` crate's and is not specified
/// here beyond being a function of the input bytes.
pub uninterp spec fn csv_rows(input: Seq<u8>) -> Option<Seq<Seq<Seq<u8>>>>;

/// Relies on csv::ReaderBuilder / csv::Reader: splits the input into
/// records of fields, with surrounding whitespace trimmed, validating the
/// text and that every record has as many fields as the first one. The
/// result depends on the input bytes alone.
#[verifier::external_body]
fn split_csv(input: &[u8]) -> (r: Option<Vec<Vec<Vec<u8>>>>)
    ensures
        r matches Some(rows) ==> csv_rows(input@) == Some(rows.deep_view()),
        r is None ==> csv_rows(input@) is None,
{
    csv::ReaderBuilder::new()
        .has_headers(false)
        .trim(csv::Trim::All)
        .from_reader(input)
        .into_records()
        .map(|res| res.map(|rec| rec.iter().map(|f| f.as_bytes().to_vec()).collect()))
        .collect::<Result<Vec<Vec<Vec<u8>>>, csv::Error>>()
        .ok()
}

/// The bytes of "deposit".
pub open spec fn deposit_word() -> Seq<u8> {
    seq![100u8, 101u8, 112u8, 111u8, 115u8, 105u8, 116u8]
}

/// The bytes of "withdrawal".
pub open spec fn withdrawal_word() -> Seq<u8> {
    seq![119u8, 105u8, 116u8, 104u8, 100u8, 114u8, 97u8, 119u8, 97u8, 108u8]
}

/// The bytes of "dispute".
pub open spec fn dispute_word() -> Seq<u8> {
    seq![100u8, 105u8, 115u8, 112u8, 117u8, 116u8, 101u8]
}

/// The bytes of "resolve".
pub open spec fn resolve_word() -> Seq<u8> {
    seq![114u8, 101u8, 115u8, 111u8, 108u8, 118u8, 101u8]
}

/// The bytes of "chargeback".
pub open spec fn chargeback_word() -> Seq<u8> {
    seq![99u8, 104u8, 97u8, 114u8, 103u8, 101u8, 98u8, 97u8, 99u8, 107u8]
}

/// The bytes of "type".
pub open spec fn type_word() -> Seq<u8> {
    seq![116u8, 121u8, 112u8, 101u8]
}

/// The bytes of "client".
pub open spec fn client_word() -> Seq<u8> {
    seq![99u8, 108u8, 105u8, 101u8, 110u8, 116u8]
}

/// The bytes of "tx".
pub open spec fn tx_word() -> Seq<u8> {
    seq![116u8, 120u8]
}

/// The bytes of "amount".
pub open spec fn amount_word() -> Seq<u8> {
    seq![97u8, 109u8, 111u8, 117u8, 110u8, 116u8]
}

/// Which transaction kind a type field names; anything else is explicitly
/// unrecognized, never an error.
pub open spec fn spec_kind_of(s: Seq<u8>) -> TransactionKind {
    if s == deposit_word() {
        TransactionKind::Deposit
    } else if s == withdrawal_word() {
        TransactionKind::Withdrawal
    } else if s == dispute_word() {
        TransactionKind::Dispute
    } else if s == resolve_word() {
        TransactionKind::Resolve
    } else if s == chargeback_word() {
        TransactionKind::Chargeback
    } else {
        TransactionKind::Unrecognized
    }
}

fn bytes_eq(a: &Vec<u8>, b: &Vec<u8>) -> (r: bool)
    ensures
        r == (a@ == b@),
{
    if a.len() != b.len() {
        return false;
    }
    let n = a.len();
    for i in 0..n
        invariant
            n == a@.len(),
            n == b@.len(),
            forall|j: int| 0 <= j < i ==> a@[j] == b@[j],
    {
        if a[i] != b[i] {
            return false;
        }
    }
    proof {
        assert(a@ =~= b@);
    }
    true
}

/// Classifies a type field. Mirrors `spec_kind_of`.
fn kind_of_field(s: &Vec<u8>) -> (k: TransactionKind)
    ensures
        k == spec_kind_of(s@),
{
    if s.len() == 7 && s[0] == 100 && s[1] == 101 && s[2] == 112 && s[3] == 111 && s[4] == 115
        && s[5] == 105 && s[6] == 116 {
        proof {
            assert(s@ =~= deposit_word());
        }
        TransactionKind::Deposit
    } else if s.len() == 10 && s[0] == 119 && s[1] == 105 && s[2] == 116 && s[3] == 104 && s[4]
        == 100 && s[5] == 114 && s[6] == 97 && s[7] == 119 && s[8] == 97 && s[9] == 108 {
        proof {
            assert(s@ =~= withdrawal_word());
        }
        TransactionKind::Withdrawal
    } else if s.len() == 7 && s[0] == 100 && s[1] == 105 && s[2] == 115 && s[3] == 112 && s[4]
        == 117 && s[5] == 116 && s[6] == 101 {
        proof {
            assert(s@ =~= dispute_word());
        }
        TransactionKind::Dispute
    } else if s.len() == 7 && s[0] == 114 && s[1] == 101 && s[2] == 115 && s[3] == 111 && s[4]
        == 108 && s[5] == 118 && s[6] == 101 {
        proof {
            assert(s@ =~= resolve_word());
        }
        TransactionKind::Resolve
    } else if s.len() == 10 && s[0] == 99 && s[1] == 104 && s[2] == 97 && s[3] == 114 && s[4]
        == 103 && s[5] == 101 && s[6] == 98 && s[7] == 97 && s[8] == 99 && s[9] == 107 {
        proof {
            assert(s@ =~= chargeback_word());
        }
        TransactionKind::Chargeback
    } else {
        TransactionKind::Unrecognized
    }
}

/// The index of the first field of the header that equals the word, or the
/// header's length when no field does.
pub open spec fn first_col(h: Seq<Seq<u8>>, w: Seq<u8>) -> int
    decreases h.len(),
{
    if h.len() == 0 {
        0
    } else if h[0] == w {
        0
    } else {
        1 + first_col(h.drop_first(), w)
    }
}

proof fn lemma_first_col_at(h: Seq<Seq<u8>>, w: Seq<u8>, i: int)
    requires
        0 <= i <= h.len(),
        forall|j: int| 0 <= j < i ==> h[j] != w,
        i < h.len() ==> h[i] == w,
    ensures
        first_col(h, w) == i,
    decreases i,
{
    if h.len() == 0 {
    } else if i == 0 {
    } else {
        assert(h[0] != w);
        assert(forall|j: int| 0 <= j < i - 1 ==> h.drop_first()[j] == h[j + 1]);
        lemma_first_col_at(h.drop_first(), w, i - 1);
    }
}

/// Finds a named column of the header row. Mirrors `first_col`.
fn find_col(header: &Vec<Vec<u8>>, word: &Vec<u8>) -> (r: usize)
    ensures
        r <= header@.len(),
        r as int == first_col(header.deep_view(), word@),
{
    let n = header.len();
    let mut j: usize = 0;
    while j < n && !bytes_eq(&header[j], word)
        invariant
            j <= n,
            n == header@.len(),
            forall|k: int| 0 <= k < j ==> header.deep_view()[k] != word@,
        decreases n - j,
    {
        proof {
            assert(header.deep_view()[j as int] == header@[j as int]@);
        }
        j = j + 1;
    }
    proof {
        assert(j < n ==> header.deep_view()[j as int] == word@) by {
            if j < n {
                assert(header.deep_view()[j as int] == header@[j as int]@);
            }
        }
        lemma_first_col_at(header.deep_view(), word@, j as int);
    }
    j
}

fn word_type() -> (w: Vec<u8>)
    ensures
        w@ == type_word(),
{
    let mut w: Vec<u8> = Vec::new();
    w.push(116);
    w.push(121);
    w.push(112);
    w.push(101);
    proof {
        assert(w@ =~= type_word());
    }
    w
}

fn word_client() -> (w: Vec<u8>)
    ensures
        w@ == client_word(),
{
    let mut w: Vec<u8> = Vec::new();
    w.push(99);
    w.push(108);
    w.push(105);
    w.push(101);
    w.push(110);
    w.push(116);
    proof {
        assert(w@ =~= client_word());
    }
    w
}

fn word_tx() -> (w: Vec<u8>)
    ensures
        w@ == tx_word(),
{
    let mut w: Vec<u8> = Vec::new();
    w.push(116);
    w.push(120);
    proof {
        assert(w@ =~= tx_word());
    }
    w
}

fn word_amount() -> (w: Vec<u8>)
    ensures
        w@ == amount_word(),
{
    let mut w: Vec<u8> = Vec::new();
    w.push(97);
    w.push(109);
    w.push(111);
    w.push(117);
    w.push(110);
    w.push(116);
    proof {
        assert(w@ =~= amount_word());
    }
    w
}

/// What one data row means, given the header's column indices: the
/// transaction it carries, or the error that aborts the run. A row too
/// short to hold the type, client, and tx fields is rejected; an absent or
/// empty amount field parses as no amount.
pub open spec fn spec_row_transaction(row: Seq<Seq<u8>>, ct: int, cc: int, cx: int, ca: int) -> Result<
    Transaction,
    ParseError,
> {
    if !(0 <= ct < row.len()) || !(0 <= cc < row.len()) || !(0 <= cx < row.len()) {
        Err(ParseError::MissingField)
    } else {
        match spec_parse_u16(row[cc]) {
            None => Err(ParseError::BadClient),
            Some(client) => match spec_parse_u32(row[cx]) {
                None => Err(ParseError::BadTx),
                Some(tx) => {
                    let kind = spec_kind_of(row[ct]);
                    if 0 <= ca < row.len() && row[ca].len() > 0 {
                        match spec_parse_amount(row[ca]) {
                            None => Err(ParseError::BadAmount),
                            Some(a) => Ok(
                                Transaction { kind, client, tx, amount: Some(a) },
                            ),
                        }
                    } else {
                        Ok(Transaction { kind, client, tx, amount: None })
                    }
                },
            },
        }
    }
}

/// Parses one data row. Mirrors `spec_row_transaction`.
pub fn parse_row(row: &Vec<Vec<u8>>, ct: usize, cc: usize, cx: usize, ca: usize) -> (r: Result<
    Transaction,
    ParseError,
>)
    ensures
        r == spec_row_transaction(row.deep_view(), ct as int, cc as int, cx as int, ca as int),
{
    let len = row.len();
    proof {
        assert(row.deep_view().len() == row@.len());
    }
    if ct >= len || cc >= len || cx >= len {
        return Err(ParseError::MissingField);
    }
    proof {
        assert(row.deep_view()[ct as int] == row@[ct as int]@);
        assert(row.deep_view()[cc as int] == row@[cc as int]@);
        assert(row.deep_view()[cx as int] == row@[cx as int]@);
    }
    let client = match parse_u16(&row[cc]) {
        Some(c) => c,
        None => {
            return Err(ParseError::BadClient);
        },
    };
    let tx = match parse_u32(&row[cx]) {
        Some(t) => t,
        None => {
            return Err(ParseError::BadTx);
        },
    };
    let kind = kind_of_field(&row[ct]);
    let amount: Option<u64> = if ca < len && row[ca].len() > 0 {
        proof {
            assert(row.deep_view()[ca as int] == row@[ca as int]@);
        }
        match parse_amount(&row[ca]) {
            Some(a) => Some(a),
            None => {
                return Err(ParseError::BadAmount);
            },
        }
    } else {
        proof {
            if 0 <= ca < row@.len() {
                assert(row.deep_view()[ca as int] == row@[ca as int]@);
            }
        }
        None
    };
    Ok(Transaction { kind, client, tx, amount })
}

/// Replays the data rows in order against the initial state, stopping at
/// the first row that does not parse.
pub open spec fn run_data_rows(rows: Seq<Seq<Seq<u8>>>, ct: int, cc: int, cx: int, ca: int) -> Result<
    Snapshot,
    ParseError,
>
    decreases rows.len(),
{
    if rows.len() == 0 {
        Ok(Snapshot::init())
    } else {
        match run_data_rows(rows.drop_last(), ct, cc, cx, ca) {
            Err(e) => Err(e),
            Ok(s) => match spec_row_transaction(rows.last(), ct, cc, cx, ca) {
                Err(e) => Err(e),
                Ok(t) => Ok(spec_apply(s, t)),
            },
        }
    }
}

proof fn lemma_run_data_rows_error(
    rows: Seq<Seq<Seq<u8>>>,
    ct: int,
    cc: int,
    cx: int,
    ca: int,
    i: int,
    e: ParseError,
)
    requires
        0 <= i <= rows.len(),
        run_data_rows(rows.subrange(0, i), ct, cc, cx, ca) == Err::<Snapshot, ParseError>(e),
    ensures
        run_data_rows(rows, ct, cc, cx, ca) == Err::<Snapshot, ParseError>(e),
    decreases rows.len() - i,
{
    if i == rows.len() {
        assert(rows.subrange(0, i) =~= rows);
    } else {
        assert(rows.subrange(0, i + 1).drop_last() =~= rows.subrange(0, i));
        lemma_run_data_rows_error(rows, ct, cc, cx, ca, i + 1, e);
    }
}

/// What a whole record stream means: the first record is the header that
/// names the columns; the rest are replayed in order. An empty stream
/// leaves the initial state.
pub open spec fn spec_process(rows: Seq<Seq<Seq<u8>>>) -> Result<Snapshot, ParseError> {
    if rows.len() == 0 {
        Ok(Snapshot::init())
    } else {
        run_data_rows(
            rows.drop_first(),
            first_col(rows[0], type_word()),
            first_col(rows[0], client_word()),
            first_col(rows[0], tx_word()),
            first_col(rows[0], amount_word()),
        )
    }
}

/// Replays already-split records. Mirrors `spec_process`; on success every
/// account of the result is balanced.
pub fn process_rows(rows: &Vec<Vec<Vec<u8>>>) -> (r: Result<ClientsState, ParseError>)
    ensures
        match r {
            Ok(m) => m.wf() && accounts_balanced(m@) && (spec_process(rows.deep_view()) matches Ok(
                snap,
            ) && m@ == snap.accounts),
            Err(e) => spec_process(rows.deep_view()) == Err::<Snapshot, ParseError>(e),
        },
{
    let ghost all = rows.deep_view();
    let n = rows.len();
    if n == 0 {
        let m = AssocMap::<ClientState>::new();
        return Ok(m);
    }
    let wt = word_type();
    let wc = word_client();
    let wx = word_tx();
    let wa = word_amount();
    let header = &rows[0];
    proof {
        assert(all[0] == rows@[0].deep_view());
    }
    let ct = find_col(header, &wt);
    let cc = find_col(header, &wc);
    let cx = find_col(header, &wx);
    let ca = find_col(header, &wa);
    let mut transaction_history: TransactionHistory = AssocMap::new();
    let mut clients_state: ClientsState = AssocMap::new();
    proof {
        assert(all.subrange(1, 1) =~= Seq::<Seq<Seq<u8>>>::empty());
    }
    for i in 1..n
        invariant
            1 <= i <= n == rows@.len(),
            all == rows.deep_view(),
            transaction_history.wf(),
            clients_state.wf(),
            accounts_balanced(clients_state@),
            ct as int == first_col(all[0], type_word()),
            cc as int == first_col(all[0], client_word()),
            cx as int == first_col(all[0], tx_word()),
            ca as int == first_col(all[0], amount_word()),
            run_data_rows(all.subrange(1, i as int), ct as int, cc as int, cx as int, ca as int)
                == Ok::<Snapshot, ParseError>(
                Snapshot { history: transaction_history@, accounts: clients_state@ },
            ),
    {
        proof {
            assert(all[i as int] == rows@[i as int].deep_view());
            assert(all.subrange(1, i + 1).drop_last() =~= all.subrange(1, i as int));
            assert(all.subrange(1, i + 1).last() == all[i as int]);
        }
        let transaction = match parse_row(&rows[i], ct, cc, cx, ca) {
            Ok(t) => t,
            Err(e) => {
                proof {
                    assert(run_data_rows(
                        all.subrange(1, i + 1),
                        ct as int,
                        cc as int,
                        cx as int,
                        ca as int,
                    ) == Err::<Snapshot, ParseError>(e));
                    assert(all.drop_first().subrange(0, i as int) =~= all.subrange(1, i + 1));
                    lemma_run_data_rows_error(
                        all.drop_first(),
                        ct as int,
                        cc as int,
                        cx as int,
                        ca as int,
                        i as int,
                        e,
                    );
                }
                return Err(e);
            },
        };
        let ghost prev = Snapshot { history: transaction_history@, accounts: clients_state@ };
        handle_transaction(&transaction, &mut transaction_history, &mut clients_state);
        proof {
            lemma_apply_preserves_balance(prev, transaction);
            assert(run_data_rows(
                all.subrange(1, i + 1),
                ct as int,
                cc as int,
                cx as int,
                ca as int,
            ) == Ok::<Snapshot, ParseError>(
                Snapshot { history: transaction_history@, accounts: clients_state@ },
            ));
        }
    }
    proof {
        assert(all.subrange(1, n as int) =~= all.drop_first());
    }
    Ok(clients_state)
}

/// Reads a delimited-text transaction stream and replays it, returning the
/// final state of every client. The split into records is the `csv`
/// crate's, named `csv_rows`; everything from the records on is specified
/// exactly by `spec_process`, and every account of a successful run is
/// balanced.
pub fn csv_reader(input: &[u8]) -> (r: Result<ClientsState, ParseError>)
    ensures
        match r {
            Ok(m) => m.wf() && accounts_balanced(m@) && (csv_rows(input@) matches Some(rows)
                && spec_process(rows) matches Ok(snap) && m@ == snap.accounts),
            Err(e) => (csv_rows(input@) is None && e == ParseError::Csv) || (csv_rows(input@)
                matches Some(rows) && spec_process(rows) == Err::<Snapshot, ParseError>(e)),
        },
{
    match split_csv(input) {
        None => Err(ParseError::Csv),
        Some(rows) => process_rows(&rows),
    }
}

/// The bytes of the report header "client,available,held,total,locked".
pub open spec fn report_header() -> Seq<u8> {
    seq![
        99u8,
        108u8,
        105u8,
        101u8,
        110u8,
        116u8,
        44u8,
        97u8,
        118u8,
        97u8,
        105u8,
        108u8,
        97u8,
        98u8,
        108u8,
        101u8,
        44u8,
        104u8,
        101u8,
        108u8,
        100u8,
        44u8,
        116u8,
        111u8,
        116u8,
        97u8,
        108u8,
        44u8,
        108u8,
        111u8,
        99u8,
        107u8,
        101u8,
        100u8,
    ]
}

/// The bytes of "true" or "false".
pub open spec fn bool_bytes(b: bool) -> Seq<u8> {
    if b {
        seq![116u8, 114u8, 117u8, 101u8]
    } else {
        seq![102u8, 97u8, 108u8, 115u8, 101u8]
    }
}

/// One report line: a newline, then client id and the three balances to
/// four decimal digits and the locked flag, comma-separated.
pub open spec fn report_line(client: u64, st: ClientState) -> Seq<u8> {
    seq![10u8] + dec_digits(client as nat) + seq![44u8] + units_digits(st.available as int) + seq![
        44u8,
    ] + units_digits(st.held as int) + seq![44u8] + units_digits(st.total as int) + seq![44u8]
        + bool_bytes(st.locked)
}

/// The whole report: the header, then one line per client in the order the
/// accounts were created.
pub open spec fn report_bytes(entries: Seq<(u64, ClientState)>) -> Seq<u8>
    decreases entries.len(),
{
    if entries.len() == 0 {
        report_header()
    } else {
        report_bytes(entries.drop_last()) + report_line(entries.last().0, entries.last().1)
    }
}

/// Appends one report line.
fn push_line(out: &mut Vec<u8>, client: u64, st: ClientState)
    ensures
        final(out)@ == old(out)@ + report_line(client, st),
{
    out.push(10);
    push_dec(out, client as u128);
    out.push(44);
    push_units(out, st.available);
    out.push(44);
    push_units(out, st.held);
    out.push(44);
    push_units(out, st.total);
    out.push(44);
    if st.locked {
        out.push(116);
        out.push(114);
        out.push(117);
        out.push(101);
    } else {
        out.push(102);
        out.push(97);
        out.push(108);
        out.push(115);
        out.push(101);
    }
    proof {
        assert(out@ =~= old(out)@ + report_line(client, st));
    }
}

/// Renders the final report. Mirrors `report_bytes` over the accounts in
/// creation order.
pub fn csv_writer(clients_state: &ClientsState) -> (out: Vec<u8>)
    ensures
        out@ == report_bytes(clients_state.entries_seq()),
{
    let mut out: Vec<u8> = Vec::new();
    out.push(99);
    out.push(108);
    out.push(105);
    out.push(101);
    out.push(110);
    out.push(116);
    out.push(44);
    out.push(97);
    out.push(118);
    out.push(97);
    out.push(105);
    out.push(108);
    out.push(97);
    out.push(98);
    out.push(108);
    out.push(101);
    out.push(44);
    out.push(104);
    out.push(101);
    out.push(108);
    out.push(100);
    out.push(44);
    out.push(116);
    out.push(111);
    out.push(116);
    out.push(97);
    out.push(108);
    out.push(44);
    out.push(108);
    out.push(111);
    out.push(99);
    out.push(107);
    out.push(101);
    out.push(100);
    proof {
        assert(out@ =~= report_header());
        assert(clients_state.entries_seq().subrange(0, 0) =~= Seq::<(u64, ClientState)>::empty());
    }
    let n = clients_state.entry_count();
    for i in 0..n
        invariant
            n == clients_state.entries_seq().len(),
            out@ == report_bytes(clients_state.entries_seq().subrange(0, i as int)),
    {
        let entry = clients_state.entry_at(i);
        push_line(&mut out, entry.0, entry.1);
        proof {
            let entries = clients_state.entries_seq();
            assert(entries.subrange(0, i + 1).drop_last() =~= entries.subrange(0, i as int));
            assert(entries.subrange(0, i + 1).last() == entries[i as int]);
        }
    }
    proof {
        assert(clients_state.entries_seq().subrange(0, n as int) =~= clients_state.entries_seq());
    }
    out
}

} // verus!
