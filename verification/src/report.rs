//! A report: the transactions of one file, in the order they were read.
use vstd::prelude::*;
use crate::error::{ErrorModel, ParserError};
use crate::reader::{line_len, lemma_line_len_bound, ByteReader};
use crate::transaction::{Transaction, TxModel, bin_read, bin_record, csv_read, csv_line, csv_safe, law_bin_roundtrip, law_csv_roundtrip};
use crate::text_record::{text_record, text_read, no_fields, lemma_text_read_used, text_safe, law_text_roundtrip};
use crate::strings::lemma_line_of_text;
use crate::chars::no_char;
use vstd::utf8::{encode_utf8, valid_utf8};
use crate::bin_format::BinFormatIO;
use crate::csv_format::CsvFormatIO;
use crate::text_format::TextFormatIO;
use crate::strings::{str_from_utf8, push_char};

verus! {

/// The transactions of a report, in order.
#[derive(Debug)]
pub struct Report {
    transactions: Vec<Transaction>,
}

/// The transactions as values.
pub open spec fn models(v: Seq<Transaction>) -> Seq<TxModel> {
    v.map_values(|t: Transaction| t@)
}

impl View for Report {
    type V = Seq<TxModel>;

    closed spec fn view(&self) -> Seq<TxModel> {
        models(self.transactions@)
    }
}

/// The first position from `i` on where the two sequences differ, if any.
pub open spec fn first_difference(a: Seq<TxModel>, b: Seq<TxModel>, i: int) -> Option<int>
    decreases a.len() - i,
{
    if i < 0 || i >= a.len() || i >= b.len() {
        None
    } else if a[i] != b[i] {
        Some(i)
    } else {
        first_difference(a, b, i + 1)
    }
}

/// What comparing two reports gives: their lengths when they differ, else
/// the text records of the first pair of transactions that differ.
pub open spec fn compare_models(a: Seq<TxModel>, b: Seq<TxModel>) -> Result<(), ErrorModel> {
    if a.len() != b.len() {
        Err(ErrorModel::ReportLengthsAreNotEqual(a.len(), b.len()))
    } else {
        match first_difference(a, b, 0) {
            Some(i) => Err(
                ErrorModel::NonEqualTransactionFound(text_record(a[i]), text_record(b[i])),
            ),
            None => Ok(()),
        }
    }
}

/// No difference from `i` on means equal elements from `i` on, and back.
proof fn lemma_first_difference_none(a: Seq<TxModel>, b: Seq<TxModel>, i: int)
    requires
        0 <= i <= a.len(),
        a.len() == b.len(),
    ensures
        first_difference(a, b, i) is None <==> forall|j: int| i <= j < a.len() ==> a[j] == b[j],
    decreases a.len() - i,
{
    if i < a.len() {
        lemma_first_difference_none(a, b, i + 1);
    }
}

impl Report {
    /// An empty report.
    pub fn new() -> (r: Self)
        ensures
            r@ == Seq::<TxModel>::empty(),
    {
        let r = Report { transactions: Vec::new() };
        assert(r@ =~= Seq::<TxModel>::empty());
        r
    }

    /// Appends a transaction at the end.
    fn add_transaction(&mut self, tx_to_add: Transaction)
        ensures
            final(self)@ == old(self)@.push(tx_to_add@),
    {
        self.transactions.push(tx_to_add);
        assert(self@ =~= old(self)@.push(tx_to_add@));
    }

    /// The transactions, in order.
    pub fn get_transactions(&self) -> (r: &Vec<Transaction>)
        ensures
            models(r@) == self@,
    {
        &self.transactions
    }

    /// The transactions, to change in place; the report is what the vector
    /// holds once the borrow ends.
    pub fn get_transactions_mut(&mut self) -> (r: &mut Vec<Transaction>)
        ensures
            models(r@) == old(self)@,
            final(self)@ == models(final(r)@),
    {
        &mut self.transactions
    }

    /// Compares two reports transaction by transaction: `Ok` exactly when
    /// they hold the same transactions in the same order.
    pub fn compare_full(&self, report_to_compare: &Report) -> (r: Result<(), ParserError>)
        ensures
            match compare_models(self@, report_to_compare@) {
                Ok(()) => r is Ok,
                Err(e) => r matches Err(x) && x@ == e,
            },
            r is Ok <==> self@ == report_to_compare@,
    {
        let a = &self.transactions;
        let b = &report_to_compare.transactions;
        let ghost ma = self@;
        let ghost mb = report_to_compare@;
        if a.len() != b.len() {
            return Err(ParserError::ReportLengthsAreNotEqual(a.len(), b.len()));
        }
        let mut i: usize = 0;
        while i < a.len()
            invariant
                0 <= i <= a@.len(),
                a@.len() == b@.len(),
                ma == models(a@),
                mb == models(b@),
                ma == self@,
                mb == report_to_compare@,
                first_difference(ma, mb, 0) == first_difference(ma, mb, i as int),
                forall|j: int| 0 <= j < i ==> ma[j] == mb[j],
            decreases a@.len() - i,
        {
            assert(ma[i as int] == a@[i as int]@ && mb[i as int] == b@[i as int]@);
            if !a[i].same_as(&b[i]) {
                assert(first_difference(ma, mb, i as int) == Some(i as int));
                assert(ma[i as int] != mb[i as int]);
                let cur_tx_str = a[i].as_str();
                let compared_tx_str = b[i].as_str();
                return Err(ParserError::NonEqualTransactionFound(cur_tx_str, compared_tx_str));
            }
            i = i + 1;
        }
        proof {
            lemma_first_difference_none(ma, mb, 0);
            if ma == mb {
                assert(forall|j: int| 0 <= j < ma.len() ==> ma[j] == mb[j]);
            } else {
                assert(ma =~= mb);
            }
        }
        Ok(())
    }
}

/// The records of the transactions one after the other, each written by `f`.
pub open spec fn joined(ts: Seq<TxModel>, f: spec_fn(TxModel) -> Seq<u8>) -> Seq<u8>
    decreases ts.len(),
{
    if ts.len() == 0 {
        Seq::empty()
    } else {
        f(ts[0]) + joined(ts.drop_first(), f)
    }
}

/// Appending a transaction appends its record.
pub proof fn lemma_joined_push(ts: Seq<TxModel>, t: TxModel, f: spec_fn(TxModel) -> Seq<u8>)
    ensures
        joined(ts.push(t), f) == joined(ts, f) + f(t),
    decreases ts.len(),
{
    if ts.len() == 0 {
        assert(ts.push(t).drop_first() =~= ts);
        assert(joined(ts.push(t), f) =~= joined(ts, f) + f(t));
    } else {
        lemma_joined_push(ts.drop_first(), t, f);
        assert(ts.push(t).drop_first() =~= ts.drop_first().push(t));
        assert(joined(ts.push(t), f) =~= joined(ts, f) + f(t));
    }
}

/// The bytes of a report in the binary format.
pub open spec fn bin_bytes(ts: Seq<TxModel>) -> Seq<u8> {
    joined(ts, |t: TxModel| bin_record(t))
}

/// The bytes of a report in the comma-separated format (the records only).
pub open spec fn csv_bytes(ts: Seq<TxModel>) -> Seq<u8> {
    joined(ts, |t: TxModel| encode_utf8(csv_line(t)))
}

/// The header line of a comma-separated report, without its newline: the
/// names of the columns.
pub open spec fn csv_header() -> Seq<char> {
    "TX_ID,TX_TYPE,FROM_USER_ID,TO_USER_ID,AMOUNT,TIMESTAMP,STATUS,DESCRIPTION"@
}

/// The bytes of a report in the comma-separated format: the header line,
/// then one line per transaction.
pub open spec fn csv_report_bytes(ts: Seq<TxModel>) -> Seq<u8> {
    encode_utf8(csv_header().push('\n')) + csv_bytes(ts)
}

/// The bytes of a report in the text format.
pub open spec fn text_bytes(ts: Seq<TxModel>) -> Seq<u8> {
    joined(ts, |t: TxModel| encode_utf8(text_record(t)))
}

/// The transactions `p` put in front of what a read gave.
pub open spec fn after(p: Seq<TxModel>, r: Result<Seq<TxModel>, ErrorModel>) -> Result<
    Seq<TxModel>,
    ErrorModel,
> {
    match r {
        Ok(ts) => Ok(p + ts),
        Err(e) => Err(e),
    }
}

/// What reading binary records until the end of `s` gives: the records in
/// order, or the first error other than the end of the input.
pub open spec fn bin_records(s: Seq<u8>) -> Result<Seq<TxModel>, ErrorModel>
    decreases s.len(),
{
    let (r, k) = bin_read(s);
    match r {
        Ok(t) => after(seq![t], bin_records(s.skip(k as int))),
        Err(ErrorModel::EOFEncountered) => Ok(Seq::empty()),
        Err(e) => Err(e),
    }
}

/// How many bytes reading binary records until the end of `s` takes: every
/// record read, and what the last read took (all of a short tail, or the
/// part of a bad record that was read).
pub open spec fn bin_records_used(s: Seq<u8>) -> nat
    decreases s.len(),
{
    let (r, k) = bin_read(s);
    match r {
        Ok(_) => k + bin_records_used(s.skip(k as int)),
        Err(_) => k,
    }
}

/// What reading comma-separated lines until the end of `s` gives.
pub open spec fn csv_records(s: Seq<u8>) -> Result<Seq<TxModel>, ErrorModel>
    decreases s.len(),
{
    let (r, k) = csv_read(s);
    proof {
        lemma_line_len_bound(s);
    }
    match r {
        Ok(t) => after(seq![t], csv_records(s.skip(k as int))),
        Err(ErrorModel::EOFEncountered) => Ok(Seq::empty()),
        Err(e) => Err(e),
    }
}

/// How many bytes reading comma-separated lines until the end of `s`
/// takes.
pub open spec fn csv_records_used(s: Seq<u8>) -> nat
    decreases s.len(),
{
    let (r, k) = csv_read(s);
    proof {
        lemma_line_len_bound(s);
    }
    match r {
        Ok(_) => k + csv_records_used(s.skip(k as int)),
        Err(_) => k,
    }
}

/// What reading a comma-separated report from `s` gives: its first line is
/// a header, taken as text and otherwise ignored.
pub open spec fn csv_report(s: Seq<u8>) -> Result<Seq<TxModel>, ErrorModel> {
    let n = line_len(s);
    if !valid_utf8(s.take(n as int)) {
        Err(ErrorModel::CsvLineReadError)
    } else {
        csv_records(s.skip(n as int))
    }
}

/// How many bytes reading a comma-separated report from `s` takes: the
/// header line, then the lines read after it (none when the header is not
/// text).
pub open spec fn csv_report_used(s: Seq<u8>) -> nat {
    let n = line_len(s);
    if !valid_utf8(s.take(n as int)) {
        n
    } else {
        n + csv_records_used(s.skip(n as int))
    }
}

/// How many bytes reading text records until the end of `s` takes.
pub open spec fn text_records_used(s: Seq<u8>) -> nat
    decreases s.len(),
{
    let (r, k) = text_read(s);
    proof {
        lemma_text_read_used(s, no_fields());
    }
    match r {
        Ok(_) => k + text_records_used(s.skip(k as int)),
        Err(_) => k,
    }
}

/// What reading text records until the end of `s` gives.
pub open spec fn text_records(s: Seq<u8>) -> Result<Seq<TxModel>, ErrorModel>
    decreases s.len(),
{
    let (r, k) = text_read(s);
    proof {
        lemma_text_read_used(s, no_fields());
    }
    match r {
        Ok(t) => after(seq![t], text_records(s.skip(k as int))),
        Err(ErrorModel::EOFEncountered) => Ok(Seq::empty()),
        Err(e) => Err(e),
    }
}

/// Putting a transaction in front, then more, is putting both in front.
proof fn lemma_after_push(p: Seq<TxModel>, t: TxModel, r: Result<Seq<TxModel>, ErrorModel>)
    ensures
        after(p, after(seq![t], r)) == after(p.push(t), r),
{
    if let Ok(ts) = r {
        assert(p + (seq![t] + ts) =~= p.push(t) + ts);
    }
}

impl BinFormatIO<Report> for Report {
    /// Reads binary records until the input ends; the first record that
    /// cannot be read ends the reading with its error.
    fn new_from_bin_reader(reader: &mut ByteReader) -> (r: Result<Report, ParserError>)
        ensures
            match bin_records(old(reader).remaining()) {
                Ok(ts) => r matches Ok(rep) && rep@ == ts,
                Err(e) => r matches Err(x) && x@ == e,
            },
            final(reader).remaining() == old(reader).remaining().skip(
                bin_records_used(old(reader).remaining()) as int,
            ),
            bin_records(old(reader).remaining()) is Ok ==> final(reader).remaining().len() == 0,
    {
        let ghost s0 = reader.remaining();
        let ghost mut consumed: int = 0;
        let mut report = Report::new();
        assert(s0.skip(0) =~= s0);
        loop
            invariant
                s0 == old(reader).remaining(),
                0 <= consumed <= s0.len(),
                reader.remaining() == s0.skip(consumed),
                bin_records(s0) == after(report@, bin_records(reader.remaining())),
                bin_records_used(s0) == consumed + bin_records_used(reader.remaining()),
            decreases reader.remaining().len(),
        {
            let ghost s = reader.remaining();
            let ghost k = bin_read(s).1;
            match Transaction::new_from_bin_reader(reader) {
                Ok(new_transaction) => {
                    proof {
                        lemma_after_push(report@, new_transaction@, bin_records(reader.remaining()));
                        assert(s0.skip(consumed).skip(k as int) =~= s0.skip(consumed + k));
                        consumed = consumed + k;
                    }
                    report.add_transaction(new_transaction);
                },
                Err(ParserError::EOFEncountered) => {
                    assert(report@ + Seq::<TxModel>::empty() =~= report@);
                    assert(s0.skip(consumed).skip(k as int) =~= s0.skip(consumed + k));
                    return Ok(report);
                },
                Err(e) => {
                    assert(s0.skip(consumed).skip(k as int) =~= s0.skip(consumed + k));
                    return Err(e);
                },
            }
        }
    }

    /// Writes the binary record of every transaction, in order.
    fn write_as_bin_to_writer(&self, writer: &mut Vec<u8>) -> (r: Result<(), ParserError>)
        ensures
            r is Ok,
            final(writer)@ == old(writer)@ + bin_bytes(self@),
    {
        let ghost w0 = writer@;
        let mut i: usize = 0;
        while i < self.transactions.len()
            invariant
                0 <= i <= self@.len(),
                self@ == models(self.transactions@),
                w0 == old(writer)@,
                writer@ == w0 + bin_bytes(self@.take(i as int)),
            decreases self@.len() - i,
        {
            let cur_tx = &self.transactions[i];
            assert(cur_tx@ == self@[i as int]);
            if let Err(e) = cur_tx.write_as_bin_to_writer(writer) {
                return Err(e);
            }
            proof {
                lemma_joined_push(self@.take(i as int), self@[i as int], |t: TxModel| bin_record(t));
                assert(self@.take(i + 1) =~= self@.take(i as int).push(self@[i as int]));
            }
            i = i + 1;
        }
        assert(self@.take(i as int) =~= self@);
        Ok(())
    }
}

impl CsvFormatIO<Report> for Report {
    /// Skips the header line, then reads comma-separated lines until the
    /// input ends; the first line that cannot be read ends the reading with
    /// its error.
    fn new_from_csv_reader(reader: &mut ByteReader) -> (r: Result<Report, ParserError>)
        ensures
            match csv_report(old(reader).remaining()) {
                Ok(ts) => r matches Ok(rep) && rep@ == ts,
                Err(e) => r matches Err(x) && x@ == e,
            },
            final(reader).remaining() == old(reader).remaining().skip(
                csv_report_used(old(reader).remaining()) as int,
            ),
            csv_report(old(reader).remaining()) is Ok ==> final(reader).remaining().len() == 0,
    {
        let ghost all = reader.remaining();
        let header_line = reader.read_line();
        if str_from_utf8(header_line.as_slice()).is_none() {
            return Err(ParserError::CsvLineReadError);
        }
        let ghost s0 = reader.remaining();
        let ghost header = line_len(all) as int;
        let ghost mut consumed: int = 0;
        let mut report = Report::new();
        proof {
            lemma_line_len_bound(all);
        }
        assert(s0.skip(0) =~= s0);
        loop
            invariant
                all == old(reader).remaining(),
                0 <= header <= all.len(),
                s0 == all.skip(header),
                csv_report(all) == csv_records(s0),
                csv_report_used(all) == header + csv_records_used(s0),
                0 <= consumed <= s0.len(),
                reader.remaining() == s0.skip(consumed),
                csv_records(s0) == after(report@, csv_records(reader.remaining())),
                csv_records_used(s0) == consumed + csv_records_used(reader.remaining()),
            decreases reader.remaining().len(),
        {
            let ghost s = reader.remaining();
            let ghost k = csv_read(s).1;
            proof {
                lemma_line_len_bound(s);
            }
            match Transaction::new_from_csv_reader(reader) {
                Ok(new_transaction) => {
                    proof {
                        lemma_after_push(report@, new_transaction@, csv_records(reader.remaining()));
                        assert(s0.skip(consumed).skip(k as int) =~= s0.skip(consumed + k));
                        consumed = consumed + k;
                    }
                    report.add_transaction(new_transaction);
                },
                Err(ParserError::EOFEncountered) => {
                    assert(report@ + Seq::<TxModel>::empty() =~= report@);
                    assert(s0.skip(consumed).skip(k as int) =~= s0.skip(consumed + k));
                    assert(all.skip(header).skip(consumed + k) =~= all.skip(header + consumed + k));
                    return Ok(report);
                },
                Err(e) => {
                    assert(s0.skip(consumed).skip(k as int) =~= s0.skip(consumed + k));
                    assert(all.skip(header).skip(consumed + k) =~= all.skip(header + consumed + k));
                    return Err(e);
                },
            }
        }
    }

    /// Writes the header line, then the comma-separated line of every
    /// transaction, in order.
    fn write_as_csv_to_writer(&self, writer: &mut Vec<u8>) -> (r: Result<(), ParserError>)
        ensures
            r is Ok,
            final(writer)@ == old(writer)@ + csv_report_bytes(self@),
    {
        let mut header = "TX_ID,TX_TYPE,FROM_USER_ID,TO_USER_ID,AMOUNT,TIMESTAMP,STATUS,DESCRIPTION".to_owned();
        push_char(&mut header, '\n');
        writer.extend_from_slice(header.as_str().as_bytes());
        let ghost w0 = writer@;
        proof {
            reveal_strlit("TX_ID,TX_TYPE,FROM_USER_ID,TO_USER_ID,AMOUNT,TIMESTAMP,STATUS,DESCRIPTION");
            assert(w0 == old(writer)@ + encode_utf8(csv_header().push('\n')));
            assert(self@.take(0) =~= Seq::<TxModel>::empty());
            assert(w0 + csv_bytes(self@.take(0)) =~= w0);
        }
        let mut i: usize = 0;
        while i < self.transactions.len()
            invariant
                0 <= i <= self@.len(),
                self@ == models(self.transactions@),
                w0 == old(writer)@ + encode_utf8(csv_header().push('\n')),
                writer@ == w0 + csv_bytes(self@.take(i as int)),
            decreases self@.len() - i,
        {
            let cur_tx = &self.transactions[i];
            assert(cur_tx@ == self@[i as int]);
            if let Err(e) = cur_tx.write_as_csv_to_writer(writer) {
                return Err(e);
            }
            proof {
                lemma_joined_push(
                    self@.take(i as int),
                    self@[i as int],
                    |t: TxModel| encode_utf8(csv_line(t)),
                );
                assert(self@.take(i + 1) =~= self@.take(i as int).push(self@[i as int]));
            }
            i = i + 1;
        }
        assert(self@.take(i as int) =~= self@);
        assert(writer@ =~= old(writer)@ + csv_report_bytes(self@));
        Ok(())
    }
}

impl TextFormatIO<Report> for Report {
    /// Reads text records until the input ends; the first record that
    /// cannot be read ends the reading with its error.
    fn new_from_text_reader(reader: &mut ByteReader) -> (r: Result<Report, ParserError>)
        ensures
            match text_records(old(reader).remaining()) {
                Ok(ts) => r matches Ok(rep) && rep@ == ts,
                Err(e) => r matches Err(x) && x@ == e,
            },
            final(reader).remaining() == old(reader).remaining().skip(
                text_records_used(old(reader).remaining()) as int,
            ),
            text_records(old(reader).remaining()) is Ok ==> final(reader).remaining().len() == 0,
    {
        let ghost s0 = reader.remaining();
        let ghost mut consumed: int = 0;
        let mut report = Report::new();
        assert(s0.skip(0) =~= s0);
        loop
            invariant
                s0 == old(reader).remaining(),
                0 <= consumed <= s0.len(),
                reader.remaining() == s0.skip(consumed),
                text_records(s0) == after(report@, text_records(reader.remaining())),
                text_records_used(s0) == consumed + text_records_used(reader.remaining()),
            decreases reader.remaining().len(),
        {
            let ghost s = reader.remaining();
            let ghost k = text_read(s).1;
            proof {
                lemma_text_read_used(s, no_fields());
            }
            match Transaction::new_from_text_reader(reader) {
                Ok(new_transaction) => {
                    proof {
                        lemma_after_push(report@, new_transaction@, text_records(reader.remaining()));
                        assert(s0.skip(consumed).skip(k as int) =~= s0.skip(consumed + k));
                        consumed = consumed + k;
                    }
                    report.add_transaction(new_transaction);
                },
                Err(ParserError::EOFEncountered) => {
                    assert(report@ + Seq::<TxModel>::empty() =~= report@);
                    assert(s0.skip(consumed).skip(k as int) =~= s0.skip(consumed + k));
                    return Ok(report);
                },
                Err(e) => {
                    assert(s0.skip(consumed).skip(k as int) =~= s0.skip(consumed + k));
                    return Err(e);
                },
            }
        }
    }

    /// Writes the text record of every transaction, in order; the report is
    /// left as it was.
    fn write_as_text_to_writer(&mut self, writer: &mut Vec<u8>) -> (r: Result<(), ParserError>)
        ensures
            r is Ok,
            final(self)@ == old(self)@,
            final(writer)@ == old(writer)@ + text_bytes(old(self)@),
    {
        let ghost w0 = writer@;
        let ghost ts = self@;
        let mut i: usize = 0;
        while i < self.transactions.len()
            invariant
                0 <= i <= ts.len(),
                ts == old(self)@,
                ts == models(self.transactions@),
                w0 == old(writer)@,
                writer@ == w0 + text_bytes(ts.take(i as int)),
            decreases ts.len() - i,
        {
            let cur_tx = &self.transactions[i];
            assert(cur_tx@ == ts[i as int]);
            cur_tx.write_text(writer);
            proof {
                lemma_joined_push(
                    ts.take(i as int),
                    ts[i as int],
                    |t: TxModel| encode_utf8(text_record(t)),
                );
                assert(ts.take(i + 1) =~= ts.take(i as int).push(ts[i as int]));
            }
            i = i + 1;
        }
        assert(ts.take(i as int) =~= ts);
        Ok(())
    }
}

/// A report written in the binary format reads back as the same report,
/// whenever the size of each record fits in its four bytes.
pub proof fn law_bin_report_roundtrip(ts: Seq<TxModel>)
    requires
        forall|i: int|
            0 <= i < ts.len() ==> 46 + encode_utf8(#[trigger] ts[i].description).len()
                < 0x1_0000_0000,
    ensures
        bin_records(bin_bytes(ts)) == Ok::<Seq<TxModel>, ErrorModel>(ts),
    decreases ts.len(),
{
    if ts.len() == 0 {
        assert(bin_bytes(ts) =~= Seq::<u8>::empty());
        assert(bin_records(bin_bytes(ts)) == Ok::<Seq<TxModel>, ErrorModel>(Seq::empty()));
        assert(ts =~= Seq::<TxModel>::empty());
    } else {
        let rest = bin_bytes(ts.drop_first());
        let rec = bin_record(ts[0]);
        assert(46 + encode_utf8(ts[0].description).len() < 0x1_0000_0000);
        law_bin_roundtrip(ts[0], rest);
        assert(bin_bytes(ts) == rec + rest);
        assert((rec + rest).skip(rec.len() as int) =~= rest);
        law_bin_report_roundtrip(ts.drop_first());
        assert(seq![ts[0]] + ts.drop_first() =~= ts);
    }
}

/// Comma-separated lines read back as the transactions they were written
/// from.
proof fn lemma_csv_records_roundtrip(ts: Seq<TxModel>)
    requires
        forall|i: int| 0 <= i < ts.len() ==> csv_safe(#[trigger] ts[i]),
    ensures
        csv_records(csv_bytes(ts)) == Ok::<Seq<TxModel>, ErrorModel>(ts),
    decreases ts.len(),
{
    if ts.len() == 0 {
        assert(csv_bytes(ts) =~= Seq::<u8>::empty());
        assert(csv_records(csv_bytes(ts)) == Ok::<Seq<TxModel>, ErrorModel>(Seq::empty()));
        assert(ts =~= Seq::<TxModel>::empty());
    } else {
        let rest = csv_bytes(ts.drop_first());
        let line = encode_utf8(csv_line(ts[0]));
        assert(csv_safe(ts[0]));
        law_csv_roundtrip(ts[0], rest);
        assert(csv_bytes(ts) == line + rest);
        assert((line + rest).skip(line.len() as int) =~= rest);
        lemma_csv_records_roundtrip(ts.drop_first());
        assert(seq![ts[0]] + ts.drop_first() =~= ts);
    }
}

/// Comma-separated lines after any one-line header read back as the
/// transactions they were written from, whenever no description holds a
/// comma or a newline or ends in whitespace, and no type or status is
/// unknown.
pub proof fn law_csv_report_roundtrip(header: Seq<char>, ts: Seq<TxModel>)
    requires
        no_char(header, '\n'),
        forall|i: int| 0 <= i < ts.len() ==> csv_safe(#[trigger] ts[i]),
    ensures
        csv_report(encode_utf8(header.push('\n')) + csv_bytes(ts)) == Ok::<
            Seq<TxModel>,
            ErrorModel,
        >(ts),
{
    let h = encode_utf8(header.push('\n'));
    lemma_line_of_text(header, csv_bytes(ts));
    assert((h + csv_bytes(ts)).skip(h.len() as int) =~= csv_bytes(ts));
    lemma_csv_records_roundtrip(ts);
}

/// The header line holds no newline.
proof fn lemma_csv_header_one_line()
    ensures
        no_char(csv_header(), '\n'),
{
    reveal_strlit("TX_ID,TX_TYPE,FROM_USER_ID,TO_USER_ID,AMOUNT,TIMESTAMP,STATUS,DESCRIPTION");
}

/// A report written in the comma-separated format reads back as the same
/// report, whenever no description holds a comma or a newline or ends in
/// whitespace, and no type or status is unknown.
pub proof fn law_csv_report_written_reads_back(ts: Seq<TxModel>)
    requires
        forall|i: int| 0 <= i < ts.len() ==> csv_safe(#[trigger] ts[i]),
    ensures
        csv_report(csv_report_bytes(ts)) == Ok::<Seq<TxModel>, ErrorModel>(ts),
{
    lemma_csv_header_one_line();
    law_csv_report_roundtrip(csv_header(), ts);
}

/// A report written in the text format reads back as the same report,
/// whenever every transaction's record reads back as itself.
pub proof fn law_text_report_roundtrip(ts: Seq<TxModel>)
    requires
        forall|i: int| 0 <= i < ts.len() ==> text_safe(#[trigger] ts[i]),
    ensures
        text_records(text_bytes(ts)) == Ok::<Seq<TxModel>, ErrorModel>(ts),
    decreases ts.len(),
{
    if ts.len() == 0 {
        assert(text_bytes(ts) =~= Seq::<u8>::empty());
        assert(text_read(Seq::<u8>::empty()).0 == Err::<TxModel, ErrorModel>(
            ErrorModel::EOFEncountered,
        ));
        assert(ts =~= Seq::<TxModel>::empty());
    } else {
        let rest = text_bytes(ts.drop_first());
        let rec = encode_utf8(text_record(ts[0]));
        assert(text_safe(ts[0]));
        law_text_roundtrip(ts[0], rest);
        assert(text_bytes(ts) == rec + rest);
        assert((rec + rest).skip(rec.len() as int) =~= rest);
        law_text_report_roundtrip(ts.drop_first());
        assert(seq![ts[0]] + ts.drop_first() =~= ts);
    }
}

} // verus!
