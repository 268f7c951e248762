//! The key-value text format of a transaction: one `KEY: value` line per
//! field, records separated by blank lines, `#` lines ignored.
use vstd::prelude::*;
use vstd::utf8::{encode_utf8, decode_utf8, valid_utf8};
use crate::chars::{
    trim, trim_start, split_pat, no_char, no_pair, is_digit, lemma_trim_line, lemma_split_pat_cons, lemma_split_pat_none, lemma_parse_decimal, lemma_decimal, lemma_decimal_no, decimal, trimmed, split_on_pair, views, push_decimal, is_ws,
};
use crate::error::{ParserError, ErrorModel};
use crate::text_format::TextFormatIO;
use crate::reader::{ByteReader, line_len, lemma_line_len_bound};
use crate::strings::{lemma_line_of_text, lemma_encode_concat, str_from_utf8, chars_of, string_from_chars, chars_eq, push_str, push_char};
use crate::transaction::{
    Transaction, TransactionType, TransactionStatus, TxModel, u64_field, parse_u64_field,
    parse_type_label, parse_status_label,
};

verus! {

/// The keys of the text format, in field order.
pub open spec fn field_name(i: int) -> Seq<char> {
    if i == 0 {
        seq!['T', 'X', '_', 'I', 'D']
    } else if i == 1 {
        seq!['T', 'X', '_', 'T', 'Y', 'P', 'E']
    } else if i == 2 {
        seq!['F', 'R', 'O', 'M', '_', 'U', 'S', 'E', 'R', '_', 'I', 'D']
    } else if i == 3 {
        seq!['T', 'O', '_', 'U', 'S', 'E', 'R', '_', 'I', 'D']
    } else if i == 4 {
        seq!['A', 'M', 'O', 'U', 'N', 'T']
    } else if i == 5 {
        seq!['T', 'I', 'M', 'E', 'S', 'T', 'A', 'M', 'P']
    } else if i == 6 {
        seq!['S', 'T', 'A', 'T', 'U', 'S']
    } else {
        seq!['D', 'E', 'S', 'C', 'R', 'I', 'P', 'T', 'I', 'O', 'N']
    }
}

/// The position of a key among the fields, if it is one.
pub open spec fn field_index(name: Seq<char>) -> Option<int> {
    if name == field_name(0) {
        Some(0)
    } else if name == field_name(1) {
        Some(1)
    } else if name == field_name(2) {
        Some(2)
    } else if name == field_name(3) {
        Some(3)
    } else if name == field_name(4) {
        Some(4)
    } else if name == field_name(5) {
        Some(5)
    } else if name == field_name(6) {
        Some(6)
    } else if name == field_name(7) {
        Some(7)
    } else {
        None
    }
}

/// No field has a value yet.
pub open spec fn no_fields() -> Seq<Option<Seq<char>>> {
    Seq::new(8, |i: int| None::<Seq<char>>)
}

/// Some field has a value.
pub open spec fn has_any(m: Seq<Option<Seq<char>>>) -> bool {
    exists|i: int| 0 <= i < 8 && (#[trigger] m[i]) is Some
}

/// Every field has a value.
pub open spec fn has_all(m: Seq<Option<Seq<char>>>) -> bool {
    forall|i: int| 0 <= i < 8 ==> (#[trigger] m[i]) is Some
}

/// A numeric field: missing is `TextMissingField`, not a number is
/// `TextWrongFieldValue`.
pub open spec fn number_field(v: Option<Seq<char>>) -> Result<u64, ErrorModel> {
    match v {
        None => Err(ErrorModel::TextMissingField),
        Some(s) => match u64_field(s) {
            Some(x) => Ok(x),
            None => Err(ErrorModel::TextWrongFieldValue),
        },
    }
}

/// The type field: missing or unknown are both `TextWrongFieldValue`.
pub open spec fn type_field(v: Option<Seq<char>>) -> Result<TransactionType, ErrorModel> {
    match v {
        Some(s) if TransactionType::from_label(s) is Some => Ok(
            TransactionType::from_label(s)->0,
        ),
        _ => Err(ErrorModel::TextWrongFieldValue),
    }
}

/// The status field: missing is `TextMissingField`, unknown is
/// `TextWrongFieldValue`.
pub open spec fn status_field(v: Option<Seq<char>>) -> Result<TransactionStatus, ErrorModel> {
    match v {
        None => Err(ErrorModel::TextMissingField),
        Some(s) => match TransactionStatus::from_label(s) {
            Some(x) => Ok(x),
            None => Err(ErrorModel::TextWrongFieldValue),
        },
    }
}

/// The transaction that a set of field values makes, fields checked in order.
pub open spec fn fields_tx(m: Seq<Option<Seq<char>>>) -> Result<TxModel, ErrorModel> {
    if number_field(m[0]) is Err {
        Err(number_field(m[0])->Err_0)
    } else if type_field(m[1]) is Err {
        Err(ErrorModel::TextWrongFieldValue)
    } else if number_field(m[2]) is Err {
        Err(number_field(m[2])->Err_0)
    } else if number_field(m[3]) is Err {
        Err(number_field(m[3])->Err_0)
    } else if number_field(m[4]) is Err {
        Err(number_field(m[4])->Err_0)
    } else if number_field(m[5]) is Err {
        Err(number_field(m[5])->Err_0)
    } else if status_field(m[6]) is Err {
        Err(status_field(m[6])->Err_0)
    } else if m[7] is None {
        Err(ErrorModel::TextMissingField)
    } else {
        Ok(
            TxModel {
                tx_id: number_field(m[0])->Ok_0,
                tx_type: type_field(m[1])->Ok_0,
                from_user_id: number_field(m[2])->Ok_0,
                to_user_id: number_field(m[3])->Ok_0,
                amount: number_field(m[4])->Ok_0,
                timestamp: number_field(m[5])->Ok_0,
                status: status_field(m[6])->Ok_0,
                description: m[7]->0,
            },
        )
    }
}

/// What reading one record of the text format from the front of `s` gives,
/// with the values `m` gathered so far, and the number of bytes taken.
pub open spec fn text_read_from(s: Seq<u8>, m: Seq<Option<Seq<char>>>) -> (
    Result<TxModel, ErrorModel>,
    nat,
)
    decreases s.len(),
{
    let n = line_len(s);
    if n == 0 {
        (
            if has_any(m) {
                Err(ErrorModel::TextTxReadError)
            } else {
                Err(ErrorModel::EOFEncountered)
            },
            0,
        )
    } else if !valid_utf8(s.take(n as int)) {
        (Err(ErrorModel::TextLineReadError), n)
    } else {
        proof {
            lemma_line_len_bound(s);
        }
        let line = decode_utf8(s.take(n as int));
        let t = trim(line);
        if t.len() > 0 {
            if line[0] == '#' {
                let (r, k) = text_read_from(s.skip(n as int), m);
                (r, n + k)
            } else {
                let toks = split_pat(t, ':', ' ');
                if toks.len() != 2 {
                    (Err(ErrorModel::TextWrongLineFormat(line)), n)
                } else if field_index(toks[0]) is None {
                    (Err(ErrorModel::TextWrongFieldName(toks[0])), n)
                } else {
                    let (r, k) = text_read_from(
                        s.skip(n as int),
                        m.update(field_index(toks[0])->0, Some(toks[1])),
                    );
                    (r, n + k)
                }
            }
        } else if has_any(m) {
            if has_all(m) {
                (fields_tx(m), n)
            } else {
                (Err(ErrorModel::TextMissingRequiredFields), n)
            }
        } else {
            let (r, k) = text_read_from(s.skip(n as int), m);
            (r, n + k)
        }
    }
}

/// What reading one record of the text format from the front of `s` gives.
pub open spec fn text_read(s: Seq<u8>) -> (Result<TxModel, ErrorModel>, nat) {
    text_read_from(s, no_fields())
}

/// The comment line that opens every written record.
pub open spec fn comment_line() -> Seq<char> {
    seq![
        '#',
        ' ',
        'З',
        'а',
        'п',
        'и',
        'с',
        'ь',
        ' ',
        'о',
        ' ',
        'т',
        'р',
        'а',
        'н',
        'з',
        'а',
        'к',
        'ц',
        'и',
        'и',
        '\n',
    ]
}

/// One `KEY: value` line.
pub open spec fn field_line(i: int, value: Seq<char>) -> Seq<char> {
    field_name(i) + seq![':', ' '] + value + seq!['\n']
}

/// The text record of a transaction: the comment line, the eight fields in
/// order, and a blank line.
pub open spec fn text_record(t: TxModel) -> Seq<char> {
    comment_line() + field_line(0, decimal(t.tx_id as nat)) + field_line(1, t.tx_type.label())
        + field_line(2, decimal(t.from_user_id as nat)) + field_line(
        3,
        decimal(t.to_user_id as nat),
    ) + field_line(4, decimal(t.amount as nat)) + field_line(5, decimal(t.timestamp as nat))
        + field_line(6, t.status.label()) + field_line(7, t.description) + seq!['\n']
}

/// The field values of one text record being read.
pub struct TxFields {
    slots: Vec<Option<String>>,
}

/// A value as characters.
pub open spec fn opt_view(o: Option<String>) -> Option<Seq<char>> {
    match o {
        Some(s) => Some(s@),
        None => None,
    }
}

impl View for TxFields {
    type V = Seq<Option<Seq<char>>>;

    closed spec fn view(&self) -> Seq<Option<Seq<char>>> {
        self.slots@.map_values(|o: Option<String>| opt_view(o))
    }
}

impl TxFields {
    /// Well-formed: one slot per field.
    pub closed spec fn wf(&self) -> bool {
        self.slots@.len() == 8
    }

    /// No value for any field.
    pub fn new() -> (r: Self)
        ensures
            r.wf(),
            r@ == no_fields(),
    {
        let mut slots: Vec<Option<String>> = Vec::new();
        let mut i: usize = 0;
        while i < 8
            invariant
                i <= 8,
                slots@.len() == i,
                forall|j: int| 0 <= j < i ==> slots@[j] is None,
            decreases 8 - i,
        {
            slots.push(None);
            i = i + 1;
        }
        let r = TxFields { slots };
        assert(r@ =~= no_fields());
        r
    }

    /// Sets the value of field `i`.
    pub fn insert(&mut self, i: usize, value: String)
        requires
            old(self).wf(),
            i < 8,
        ensures
            final(self).wf(),
            final(self)@ == old(self)@.update(i as int, Some(value@)),
    {
        let ghost v = value@;
        self.slots.set(i, Some(value));
        assert(self@ =~= old(self)@.update(i as int, Some(v)));
    }

    /// The value of field `i`.
    pub fn get(&self, i: usize) -> (r: Option<&String>)
        requires
            self.wf(),
            i < 8,
        ensures
            match r {
                Some(v) => self@[i as int] == Some(v@),
                None => self@[i as int] is None,
            },
    {
        match &self.slots[i] {
            Some(s) => Some(s),
            None => None,
        }
    }

    /// Whether no field has a value.
    pub fn is_empty(&self) -> (r: bool)
        requires
            self.wf(),
        ensures
            r == !has_any(self@),
    {
        let mut i: usize = 0;
        while i < 8
            invariant
                i <= 8,
                self.slots@.len() == 8,
                forall|j: int| 0 <= j < i ==> (#[trigger] self@[j]) is None,
            decreases 8 - i,
        {
            if self.slots[i].is_some() {
                assert(self@[i as int] is Some);
                return false;
            }
            i = i + 1;
        }
        true
    }

    /// Whether every field has a value.
    pub fn has_all_fields(&self) -> (r: bool)
        requires
            self.wf(),
        ensures
            r == has_all(self@),
    {
        let mut i: usize = 0;
        while i < 8
            invariant
                i <= 8,
                self.slots@.len() == 8,
                forall|j: int| 0 <= j < i ==> (#[trigger] self@[j]) is Some,
            decreases 8 - i,
        {
            if self.slots[i].is_none() {
                assert(self@[i as int] is None);
                return false;
            }
            i = i + 1;
        }
        true
    }
}

/// The position of the key `cs` among the fields, if it is one.
pub fn field_index_of(cs: &[char]) -> (r: Option<usize>)
    ensures
        match field_index(cs@) {
            Some(i) => r == Some(i as usize),
            None => r is None,
        },
{
    let n0 = ['T', 'X', '_', 'I', 'D'];
    let n1 = ['T', 'X', '_', 'T', 'Y', 'P', 'E'];
    let n2 = ['F', 'R', 'O', 'M', '_', 'U', 'S', 'E', 'R', '_', 'I', 'D'];
    let n3 = ['T', 'O', '_', 'U', 'S', 'E', 'R', '_', 'I', 'D'];
    let n4 = ['A', 'M', 'O', 'U', 'N', 'T'];
    let n5 = ['T', 'I', 'M', 'E', 'S', 'T', 'A', 'M', 'P'];
    let n6 = ['S', 'T', 'A', 'T', 'U', 'S'];
    let n7 = ['D', 'E', 'S', 'C', 'R', 'I', 'P', 'T', 'I', 'O', 'N'];
    assert(n0@ =~= field_name(0));
    assert(n1@ =~= field_name(1));
    assert(n2@ =~= field_name(2));
    assert(n3@ =~= field_name(3));
    assert(n4@ =~= field_name(4));
    assert(n5@ =~= field_name(5));
    assert(n6@ =~= field_name(6));
    assert(n7@ =~= field_name(7));
    if chars_eq(cs, &n0) {
        Some(0)
    } else if chars_eq(cs, &n1) {
        Some(1)
    } else if chars_eq(cs, &n2) {
        Some(2)
    } else if chars_eq(cs, &n3) {
        Some(3)
    } else if chars_eq(cs, &n4) {
        Some(4)
    } else if chars_eq(cs, &n5) {
        Some(5)
    } else if chars_eq(cs, &n6) {
        Some(6)
    } else if chars_eq(cs, &n7) {
        Some(7)
    } else {
        None
    }
}

/// A numeric field of a text record.
fn number_field_of(fields: &TxFields, i: usize) -> (r: Result<u64, ParserError>)
    requires
        fields.wf(),
        i < 8,
    ensures
        match number_field(fields@[i as int]) {
            Ok(v) => r == Ok::<u64, ParserError>(v),
            Err(e) => r matches Err(x) && x@ == e,
        },
{
    match fields.get(i) {
        None => Err(ParserError::TextMissingField),
        Some(v) => {
            let cs = chars_of(v.as_str());
            match parse_u64_field(cs.as_slice()) {
                Some(x) => Ok(x),
                None => Err(ParserError::TextWrongFieldValue),
            }
        },
    }
}

/// The key of field `i` with the `": "` that follows it.
fn key_of(i: usize) -> (r: &'static str)
    requires
        i < 8,
    ensures
        r@ == field_name(i as int) + seq![':', ' '],
{
    if i == 0 {
        proof {
            reveal_strlit("TX_ID: ");
        }
        assert("TX_ID: "@ =~= field_name(0) + seq![':', ' ']);
        "TX_ID: "
    } else if i == 1 {
        proof {
            reveal_strlit("TX_TYPE: ");
        }
        assert("TX_TYPE: "@ =~= field_name(1) + seq![':', ' ']);
        "TX_TYPE: "
    } else if i == 2 {
        proof {
            reveal_strlit("FROM_USER_ID: ");
        }
        assert("FROM_USER_ID: "@ =~= field_name(2) + seq![':', ' ']);
        "FROM_USER_ID: "
    } else if i == 3 {
        proof {
            reveal_strlit("TO_USER_ID: ");
        }
        assert("TO_USER_ID: "@ =~= field_name(3) + seq![':', ' ']);
        "TO_USER_ID: "
    } else if i == 4 {
        proof {
            reveal_strlit("AMOUNT: ");
        }
        assert("AMOUNT: "@ =~= field_name(4) + seq![':', ' ']);
        "AMOUNT: "
    } else if i == 5 {
        proof {
            reveal_strlit("TIMESTAMP: ");
        }
        assert("TIMESTAMP: "@ =~= field_name(5) + seq![':', ' ']);
        "TIMESTAMP: "
    } else if i == 6 {
        proof {
            reveal_strlit("STATUS: ");
        }
        assert("STATUS: "@ =~= field_name(6) + seq![':', ' ']);
        "STATUS: "
    } else {
        proof {
            reveal_strlit("DESCRIPTION: ");
        }
        assert("DESCRIPTION: "@ =~= field_name(7) + seq![':', ' ']);
        "DESCRIPTION: "
    }
}

/// Appends the line of field `i` with a numeric value.
fn push_number_line(out: &mut String, i: usize, v: u64)
    requires
        i < 8,
    ensures
        final(out)@ == old(out)@ + field_line(i as int, decimal(v as nat)),
{
    push_str(out, key_of(i));
    push_decimal(out, v);
    push_char(out, '\n');
    assert(out@ =~= old(out)@ + field_line(i as int, decimal(v as nat)));
}

/// Appends the line of field `i` with a text value.
fn push_text_line(out: &mut String, i: usize, v: &str)
    requires
        i < 8,
    ensures
        final(out)@ == old(out)@ + field_line(i as int, v@),
{
    push_str(out, key_of(i));
    push_str(out, v);
    push_char(out, '\n');
    assert(out@ =~= old(out)@ + field_line(i as int, v@));
}

impl Transaction {
    /// The transaction that the field values of a text record make; the
    /// fields are checked in order, and the first missing or malformed one
    /// decides the error.
    pub fn tx_from_tx_hashmap(tx_hashmap: &TxFields) -> (r: Result<Transaction, ParserError>)
        requires
            tx_hashmap.wf(),
        ensures
            match fields_tx(tx_hashmap@) {
                Ok(t) => r matches Ok(x) && x@ == t,
                Err(e) => r matches Err(x) && x@ == e,
            },
    {
        let tx_id = number_field_of(tx_hashmap, 0)?;
        let tx_type = match tx_hashmap.get(1) {
            Some(v) => match parse_type_label(chars_of(v.as_str()).as_slice()) {
                Some(t) => t,
                None => {
                    return Err(ParserError::TextWrongFieldValue);
                },
            },
            None => {
                return Err(ParserError::TextWrongFieldValue);
            },
        };
        let from_user_id = number_field_of(tx_hashmap, 2)?;
        let to_user_id = number_field_of(tx_hashmap, 3)?;
        let amount = number_field_of(tx_hashmap, 4)?;
        let timestamp = number_field_of(tx_hashmap, 5)?;
        let status = match tx_hashmap.get(6) {
            Some(v) => match parse_status_label(chars_of(v.as_str()).as_slice()) {
                Some(t) => t,
                None => {
                    return Err(ParserError::TextWrongFieldValue);
                },
            },
            None => {
                return Err(ParserError::TextMissingField);
            },
        };
        let description = match tx_hashmap.get(7) {
            Some(v) => v.clone(),
            None => {
                return Err(ParserError::TextMissingField);
            },
        };
        Ok(
            Transaction::new(
                tx_id,
                tx_type,
                from_user_id,
                to_user_id,
                amount,
                timestamp,
                status,
                description,
            ),
        )
    }

    /// The text record of the transaction.
    pub fn as_str(&self) -> (r: String)
        ensures
            r@ == text_record(self@),
    {
        let ghost t = self@;
        let mut out = String::new();
        proof {
            reveal_strlit("# Запись о транзакции\n");
        }
        push_str(&mut out, "# Запись о транзакции\n");
        let ghost p0 = out@;
        push_number_line(&mut out, 0, self.tx_id());
        let ghost p1 = out@;
        push_text_line(&mut out, 1, self.tx_type().as_label());
        let ghost p2 = out@;
        push_number_line(&mut out, 2, self.from_user_id());
        let ghost p3 = out@;
        push_number_line(&mut out, 3, self.to_user_id());
        let ghost p4 = out@;
        push_number_line(&mut out, 4, self.amount());
        let ghost p5 = out@;
        push_number_line(&mut out, 5, self.timestamp());
        let ghost p6 = out@;
        push_text_line(&mut out, 6, self.status().as_label());
        let ghost p7 = out@;
        push_text_line(&mut out, 7, self.description());
        let ghost p8 = out@;
        push_char(&mut out, '\n');
        proof {
            assert(p0 =~= comment_line());
            assert(p1 == comment_line() + field_line(0, decimal(t.tx_id as nat)));
            assert(p2 == p1 + field_line(1, t.tx_type.label()));
            assert(p8 == p7 + field_line(7, t.description));
            assert(out@ == p8.push('\n'));
            assert(out@ =~= text_record(t));
        }
        out
    }

    /// Reads one record of the text format: `#` lines and blank lines before
    /// it are skipped, its fields may come in any order (a repeated field
    /// keeps its last value), and a blank line ends it.
    pub fn read_text(reader: &mut ByteReader) -> (r: Result<Transaction, ParserError>)
        ensures
            ({
                let (res, used) = text_read(old(reader).remaining());
                &&& final(reader).remaining() == old(reader).remaining().skip(used as int)
                &&& match res {
                    Ok(t) => r matches Ok(x) && x@ == t,
                    Err(e) => r matches Err(x) && x@ == e,
                }
            }),
    {
        let ghost s0 = reader.remaining();
        let ghost mut used: nat = 0;
        let mut fields = TxFields::new();
        assert(s0.skip(0) =~= s0);
        loop
            invariant
                s0 == old(reader).remaining(),
                fields.wf(),
                used <= s0.len(),
                reader.remaining() == s0.skip(used as int),
                text_read(s0).0 == text_read_from(reader.remaining(), fields@).0,
                text_read(s0).1 == used + text_read_from(reader.remaining(), fields@).1,
            decreases reader.remaining().len(),
        {
            let ghost cur = reader.remaining();
            let ghost m = fields@;
            let line = reader.read_line();
            let ghost n = line_len(cur);
            proof {
                lemma_line_len_bound(cur);
                assert(s0.skip(used as int).skip(n as int) =~= s0.skip((used + n) as int));
            }
            if line.len() == 0 {
                assert(cur.skip(0) =~= cur);
                assert(n == 0);
                if !fields.is_empty() {
                    assert(text_read_from(cur, m) == (
                        Err::<TxModel, ErrorModel>(ErrorModel::TextTxReadError),
                        0nat,
                    ));
                    return Err(ParserError::TextTxReadError);
                }
                assert(text_read_from(cur, m) == (
                    Err::<TxModel, ErrorModel>(ErrorModel::EOFEncountered),
                    0nat,
                ));
                return Err(ParserError::EOFEncountered);
            }
            let text = match str_from_utf8(line.as_slice()) {
                Some(t) => t,
                None => {
                    assert(text_read_from(cur, m) == (
                        Err::<TxModel, ErrorModel>(ErrorModel::TextLineReadError),
                        n,
                    ));
                    return Err(ParserError::TextLineReadError);
                },
            };
            proof {
                vstd::utf8::encode_utf8_decode_utf8(text@);
            }
            let ghost linec = decode_utf8(cur.take(n as int));
            let chars = chars_of(text);
            let t = trimmed(chars.as_slice());
            assert(chars@ == linec);
            if t.len() > 0 {
                if chars.len() == 0 {
                    assert(trim(chars@) =~= Seq::<char>::empty());
                }
                if chars[0] == '#' {
                    assert(text_read_from(cur, m).0 == text_read_from(cur.skip(n as int), m).0);
                    assert(text_read_from(cur, m).1 == n + text_read_from(
                        cur.skip(n as int),
                        m,
                    ).1);
                    proof {
                        used = used + n;
                    }
                    continue ;
                }
                let toks = split_on_pair(t.as_slice(), ':', ' ');
                if toks.len() != 2 {
                    assert(text_read_from(cur, m) == (
                        Err::<TxModel, ErrorModel>(ErrorModel::TextWrongLineFormat(linec)),
                        n,
                    ));
                    return Err(ParserError::TextWrongLineFormat(text.to_owned()));
                }
                assert(views(toks@)[0] == toks@[0]@);
                assert(views(toks@)[1] == toks@[1]@);
                let idx = match field_index_of(toks[0].as_slice()) {
                    Some(i) => i,
                    None => {
                        assert(text_read_from(cur, m) == (
                            Err::<TxModel, ErrorModel>(
                                ErrorModel::TextWrongFieldName(toks@[0]@),
                            ),
                            n,
                        ));
                        return Err(
                            ParserError::TextWrongFieldName(string_from_chars(toks[0].as_slice())),
                        );
                    },
                };
                let value = string_from_chars(toks[1].as_slice());
                fields.insert(idx, value);
                assert(text_read_from(cur, m).0 == text_read_from(cur.skip(n as int), fields@).0);
                assert(text_read_from(cur, m).1 == n + text_read_from(
                    cur.skip(n as int),
                    fields@,
                ).1);
                proof {
                    used = used + n;
                }
            } else if !fields.is_empty() {
                if fields.has_all_fields() {
                    assert(text_read_from(cur, m) == (fields_tx(m), n));
                    return Transaction::tx_from_tx_hashmap(&fields);
                }
                assert(text_read_from(cur, m) == (
                    Err::<TxModel, ErrorModel>(ErrorModel::TextMissingRequiredFields),
                    n,
                ));
                return Err(ParserError::TextMissingRequiredFields);
            } else {
                assert(text_read_from(cur, m).0 == text_read_from(cur.skip(n as int), m).0);
                assert(text_read_from(cur, m).1 == n + text_read_from(cur.skip(n as int), m).1);
                proof {
                    used = used + n;
                }
            }
        }
    }

    /// Appends the text record of the transaction to `writer`.
    pub fn write_text(&self, writer: &mut Vec<u8>)
        ensures
            final(writer)@ == old(writer)@ + encode_utf8(text_record(self@)),
    {
        let text = self.as_str();
        writer.extend_from_slice(text.as_str().as_bytes());
    }
}

/// A transaction whose text record reads back as itself: its type and
/// status have names that are read back, and its description is not empty,
/// holds no newline and no `": "`, and does not end in whitespace.
pub open spec fn text_safe(t: TxModel) -> bool {
    &&& t.tx_type != TransactionType::Unknown
    &&& t.status != TransactionStatus::Unknown
    &&& field_value_ok(t.description)
}

/// A value that a `KEY: value` line carries back unchanged.
pub open spec fn field_value_ok(v: Seq<char>) -> bool {
    &&& v.len() > 0
    &&& no_char(v, '\n')
    &&& !is_ws(v.last())
    &&& no_pair(v, ':', ' ')
}

/// Reading a `KEY: value` line records the value and goes on.
proof fn lemma_text_field_step(i: int, v: Seq<char>, rest: Seq<u8>, m: Seq<Option<Seq<char>>>)
    requires
        0 <= i < 8,
        field_value_ok(v),
    ensures
        ({
            let line = encode_utf8(field_line(i, v));
            let (r, k) = text_read_from(rest, m.update(i, Some(v)));
            text_read_from(line + rest, m) == (r, line.len() + k)
        }),
{
    let name = field_name(i);
    let x = name + seq![':', ' '] + v;
    assert(field_line(i, v) =~= x.push('\n'));
    assert(no_char(x, '\n')) by {
        assert forall|j: int| 0 <= j < x.len() implies #[trigger] x[j] != '\n' by {
            if j >= name.len() + 2 {
                assert(x[j] == v[j - name.len() - 2]);
            }
        }
    }
    lemma_line_of_text(x, rest);
    let bytes = encode_utf8(x.push('\n')) + rest;
    let n = line_len(bytes);
    assert(bytes.skip(n as int) =~= rest);
    assert(x[0] == name[0]);
    assert(x.last() == v.last());
    lemma_trim_line(x);
    assert(no_char(name, ':'));
    lemma_split_pat_cons(name, v, ':', ' ');
    lemma_split_pat_none(v, ':', ' ');
    assert(split_pat(x, ':', ' ') =~= seq![name, v]);
    assert(field_index(name) == Some(i));
    lemma_line_len_bound(bytes);
}

/// Reading the opening comment line goes on unchanged.
proof fn lemma_text_comment_step(rest: Seq<u8>, m: Seq<Option<Seq<char>>>)
    ensures
        ({
            let line = encode_utf8(comment_line());
            let (r, k) = text_read_from(rest, m);
            text_read_from(line + rest, m) == (r, line.len() + k)
        }),
{
    let c = comment_line().drop_last();
    assert(comment_line() =~= c.push('\n'));
    assert(no_char(c, '\n'));
    lemma_line_of_text(c, rest);
    let bytes = encode_utf8(c.push('\n')) + rest;
    let n = line_len(bytes);
    assert(bytes.skip(n as int) =~= rest);
    assert(!is_ws(c[0]));
    assert(!is_ws(c.last()));
    lemma_trim_line(c);
    lemma_line_len_bound(bytes);
}

/// The blank line after all fields ends the record.
proof fn lemma_text_end_step(rest: Seq<u8>, m: Seq<Option<Seq<char>>>)
    requires
        m.len() == 8,
        has_all(m),
    ensures
        text_read_from(encode_utf8(seq!['\n']) + rest, m) == (
            fields_tx(m),
            encode_utf8(seq!['\n']).len(),
        ),
{
    lemma_line_of_text(Seq::<char>::empty(), rest);
    assert(Seq::<char>::empty().push('\n') =~= seq!['\n']);
    assert(trim(seq!['\n']) =~= Seq::<char>::empty()) by {
        assert(('\n' as u32) == 10);
        assert(trim_start(seq!['\n']) == trim_start(seq!['\n'].drop_first()));
        assert(seq!['\n'].drop_first() =~= Seq::<char>::empty());
    }
    assert(m[0] is Some);
    assert(has_any(m));
}

/// The values a text record of `t` fills in.
pub open spec fn record_fields(t: TxModel) -> Seq<Option<Seq<char>>> {
    seq![
        Some(decimal(t.tx_id as nat)),
        Some(t.tx_type.label()),
        Some(decimal(t.from_user_id as nat)),
        Some(decimal(t.to_user_id as nat)),
        Some(decimal(t.amount as nat)),
        Some(decimal(t.timestamp as nat)),
        Some(t.status.label()),
        Some(t.description),
    ]
}

/// The values of a text record make the transaction back.
proof fn lemma_record_fields(t: TxModel)
    requires
        text_safe(t),
    ensures
        has_all(record_fields(t)),
        fields_tx(record_fields(t)) == Ok::<TxModel, ErrorModel>(t),
{
    lemma_parse_decimal(t.tx_id as nat, u64::MAX as nat);
    lemma_parse_decimal(t.from_user_id as nat, u64::MAX as nat);
    lemma_parse_decimal(t.to_user_id as nat, u64::MAX as nat);
    lemma_parse_decimal(t.amount as nat, u64::MAX as nat);
    lemma_parse_decimal(t.timestamp as nat, u64::MAX as nat);
    let r = fields_tx(record_fields(t));
    assert(r matches Ok(u) && u =~= t);
}

/// Decimal forms and names are values that lines carry back.
proof fn lemma_record_values_ok(t: TxModel)
    requires
        text_safe(t),
    ensures
        field_value_ok(decimal(t.tx_id as nat)),
        field_value_ok(t.tx_type.label()),
        field_value_ok(decimal(t.from_user_id as nat)),
        field_value_ok(decimal(t.to_user_id as nat)),
        field_value_ok(decimal(t.amount as nat)),
        field_value_ok(decimal(t.timestamp as nat)),
        field_value_ok(t.status.label()),
        field_value_ok(t.description),
{
    lemma_decimal_value_ok(t.tx_id as nat);
    lemma_decimal_value_ok(t.from_user_id as nat);
    lemma_decimal_value_ok(t.to_user_id as nat);
    lemma_decimal_value_ok(t.amount as nat);
    lemma_decimal_value_ok(t.timestamp as nat);
}

/// A decimal form is a value that a line carries back.
proof fn lemma_decimal_value_ok(n: nat)
    ensures
        field_value_ok(decimal(n)),
{
    lemma_decimal(n);
    lemma_decimal_no(n, '\n');
    assert(is_digit(decimal(n).last()));
    assert forall|i: int| 0 <= i < decimal(n).len() - 1 implies !(#[trigger] decimal(n)[i] == ':'
        && decimal(n)[i + 1] == ' ') by {
        assert(is_digit(decimal(n)[i]));
    }
}

/// The value of field `k` in the text record of `t`.
spec fn rec_value(t: TxModel, k: int) -> Seq<char> {
    record_fields(t)[k]->0
}

/// The bytes of the record lines from field `k` on, then the blank line and
/// `rest`.
spec fn rec_bytes_from(t: TxModel, rest: Seq<u8>, k: int) -> Seq<u8>
    decreases 8 - k,
{
    if k >= 8 {
        encode_utf8(seq!['\n']) + rest
    } else {
        encode_utf8(field_line(k, rec_value(t, k))) + rec_bytes_from(t, rest, k + 1)
    }
}

/// The values gathered after the first `k` field lines.
spec fn rec_map(t: TxModel, k: int) -> Seq<Option<Seq<char>>>
    decreases k,
{
    if k <= 0 {
        no_fields()
    } else {
        rec_map(t, k - 1).update(k - 1, Some(rec_value(t, k - 1)))
    }
}

/// The gathered values always cover the eight fields.
proof fn lemma_rec_map_len(t: TxModel, k: int)
    requires
        k <= 8,
    ensures
        rec_map(t, k).len() == 8,
    decreases k,
{
    if k > 0 {
        lemma_rec_map_len(t, k - 1);
        assert(rec_map(t, k) == rec_map(t, k - 1).update(k - 1, Some(rec_value(t, k - 1))));
    } else {
        assert(rec_map(t, k) == no_fields());
    }
}

/// After all eight lines, the gathered values are the record's.
proof fn lemma_rec_map_full(t: TxModel)
    ensures
        rec_map(t, 8) == record_fields(t),
{
    reveal_with_fuel(rec_map, 9);
    assert(rec_map(t, 8) =~= record_fields(t));
}

/// Reading from field line `k` on finishes the record.
proof fn lemma_text_lines_from(t: TxModel, rest: Seq<u8>, k: int)
    requires
        text_safe(t),
        0 <= k <= 8,
    ensures
        rec_map(t, k).len() == 8,
        rec_bytes_from(t, rest, k).len() > rest.len(),
        text_read_from(rec_bytes_from(t, rest, k), rec_map(t, k)) == (
            Ok::<TxModel, ErrorModel>(t),
            (rec_bytes_from(t, rest, k).len() - rest.len()) as nat,
        ),
    decreases 8 - k,
{
    lemma_rec_map_len(t, k);
    if k == 8 {
        lemma_rec_map_full(t);
        lemma_record_fields(t);
        lemma_text_end_step(rest, rec_map(t, 8));
        let nl = encode_utf8(seq!['\n']);
        assert(rec_bytes_from(t, rest, 8) == nl + rest);
        assert(text_read_from(nl + rest, record_fields(t)) == (
            Ok::<TxModel, ErrorModel>(t),
            nl.len(),
        ));
        assert((rec_bytes_from(t, rest, 8).len() - rest.len()) as nat == nl.len());
    } else {
        lemma_text_lines_from(t, rest, k + 1);
        lemma_record_values_ok(t);
        assert(field_value_ok(rec_value(t, k)));
        let line = encode_utf8(field_line(k, rec_value(t, k)));
        let next = rec_bytes_from(t, rest, k + 1);
        lemma_text_field_step(k, rec_value(t, k), next, rec_map(t, k));
        assert(rec_map(t, k).update(k, Some(rec_value(t, k))) == rec_map(t, k + 1));
        assert(rec_bytes_from(t, rest, k) == line + next);
        let inner = text_read_from(next, rec_map(t, k + 1));
        assert(inner == (Ok::<TxModel, ErrorModel>(t), (next.len() - rest.len()) as nat));
        assert(text_read_from(line + next, rec_map(t, k)) == (inner.0, line.len() + inner.1));
    }
}

/// A text record reads back as the transaction it was written from, and
/// the reader takes exactly the record, whatever follows it.
pub proof fn law_text_roundtrip(t: TxModel, rest: Seq<u8>)
    requires
        text_safe(t),
    ensures
        text_read(encode_utf8(text_record(t)) + rest) == (
            Ok::<TxModel, ErrorModel>(t),
            encode_utf8(text_record(t)).len(),
        ),
{
    lemma_text_record_layout(t, rest);
    lemma_text_lines_from(t, rest, 0);
    assert(rec_map(t, 0) == no_fields());
    let c = encode_utf8(comment_line());
    let r0 = rec_bytes_from(t, rest, 0);
    lemma_text_comment_step(r0, no_fields());
    let inner = text_read_from(r0, no_fields());
    assert(inner == (Ok::<TxModel, ErrorModel>(t), (r0.len() - rest.len()) as nat));
    assert(text_read_from(c + r0, no_fields()) == (inner.0, c.len() + inner.1));
    assert(encode_utf8(text_record(t)).len() == c.len() + r0.len() - rest.len());
}

/// The bytes of a text record followed by `rest`, line by line.
#[verifier::rlimit(100)]
proof fn lemma_text_record_layout(t: TxModel, rest: Seq<u8>)
    ensures
        encode_utf8(text_record(t)) + rest == encode_utf8(comment_line()) + rec_bytes_from(
            t,
            rest,
            0,
        ),
{
    lemma_text_record_bytes(t);
    let r8 = rec_bytes_from(t, rest, 8);
    let r7 = rec_bytes_from(t, rest, 7);
    let r6 = rec_bytes_from(t, rest, 6);
    let r5 = rec_bytes_from(t, rest, 5);
    let r4 = rec_bytes_from(t, rest, 4);
    let r3 = rec_bytes_from(t, rest, 3);
    let r2 = rec_bytes_from(t, rest, 2);
    let r1 = rec_bytes_from(t, rest, 1);
    let r0 = rec_bytes_from(t, rest, 0);
    assert(r8 == encode_utf8(seq!['\n']) + rest);
    assert(r7 == encode_utf8(field_line(7, t.description)) + r8);
    assert(r6 == encode_utf8(field_line(6, t.status.label())) + r7);
    assert(r5 == encode_utf8(field_line(5, decimal(t.timestamp as nat))) + r6);
    assert(r4 == encode_utf8(field_line(4, decimal(t.amount as nat))) + r5);
    assert(r3 == encode_utf8(field_line(3, decimal(t.to_user_id as nat))) + r4);
    assert(r2 == encode_utf8(field_line(2, decimal(t.from_user_id as nat))) + r3);
    assert(r1 == encode_utf8(field_line(1, t.tx_type.label())) + r2);
    assert(r0 == encode_utf8(field_line(0, decimal(t.tx_id as nat))) + r1);
    assert(encode_utf8(text_record(t)) + rest =~= encode_utf8(comment_line()) + r0);
}

/// The bytes of a text record, line by line.
proof fn lemma_text_record_bytes(t: TxModel)
    ensures
        encode_utf8(text_record(t)) == encode_utf8(comment_line()) + encode_utf8(
            field_line(0, decimal(t.tx_id as nat)),
        ) + encode_utf8(field_line(1, t.tx_type.label())) + encode_utf8(
            field_line(2, decimal(t.from_user_id as nat)),
        ) + encode_utf8(field_line(3, decimal(t.to_user_id as nat))) + encode_utf8(
            field_line(4, decimal(t.amount as nat)),
        ) + encode_utf8(field_line(5, decimal(t.timestamp as nat))) + encode_utf8(
            field_line(6, t.status.label()),
        ) + encode_utf8(field_line(7, t.description)) + encode_utf8(seq!['\n']),
{
    let a0 = comment_line();
    let a1 = a0 + field_line(0, decimal(t.tx_id as nat));
    let a2 = a1 + field_line(1, t.tx_type.label());
    let a3 = a2 + field_line(2, decimal(t.from_user_id as nat));
    let a4 = a3 + field_line(3, decimal(t.to_user_id as nat));
    let a5 = a4 + field_line(4, decimal(t.amount as nat));
    let a6 = a5 + field_line(5, decimal(t.timestamp as nat));
    let a7 = a6 + field_line(6, t.status.label());
    let a8 = a7 + field_line(7, t.description);
    lemma_encode_concat(a0, field_line(0, decimal(t.tx_id as nat)));
    lemma_encode_concat(a1, field_line(1, t.tx_type.label()));
    lemma_encode_concat(a2, field_line(2, decimal(t.from_user_id as nat)));
    lemma_encode_concat(a3, field_line(3, decimal(t.to_user_id as nat)));
    lemma_encode_concat(a4, field_line(4, decimal(t.amount as nat)));
    lemma_encode_concat(a5, field_line(5, decimal(t.timestamp as nat)));
    lemma_encode_concat(a6, field_line(6, t.status.label()));
    lemma_encode_concat(a7, field_line(7, t.description));
    lemma_encode_concat(a8, seq!['\n']);
}

/// A text read takes no more than its input, takes something whenever it
/// gives a transaction, and takes everything when it meets the end.
pub proof fn lemma_text_read_used(s: Seq<u8>, m: Seq<Option<Seq<char>>>)
    ensures
        text_read_from(s, m).1 <= s.len(),
        text_read_from(s, m).0 is Ok ==> text_read_from(s, m).1 > 0,
        text_read_from(s, m).0 == Err::<TxModel, ErrorModel>(ErrorModel::EOFEncountered)
            ==> text_read_from(s, m).1 == s.len(),
    decreases s.len(),
{
    lemma_line_len_bound(s);
    let n = line_len(s);
    if n > 0 && valid_utf8(s.take(n as int)) {
        let line = decode_utf8(s.take(n as int));
        let t = trim(line);
        if t.len() > 0 {
            if line[0] == '#' {
                lemma_text_read_used(s.skip(n as int), m);
            } else {
                let toks = split_pat(t, ':', ' ');
                if toks.len() == 2 && field_index(toks[0]) is Some {
                    lemma_text_read_used(
                        s.skip(n as int),
                        m.update(field_index(toks[0])->0, Some(toks[1])),
                    );
                }
            }
        } else if !has_any(m) {
            lemma_text_read_used(s.skip(n as int), m);
        }
    }
}

impl TextFormatIO<Transaction> for Transaction {
    /// Reads one text record (see `read_text`).
    fn new_from_text_reader(reader: &mut ByteReader) -> (r: Result<Transaction, ParserError>)
        ensures
            ({
                let (res, used) = text_read(old(reader).remaining());
                &&& final(reader).remaining() == old(reader).remaining().skip(used as int)
                &&& match res {
                    Ok(t) => r matches Ok(x) && x@ == t,
                    Err(e) => r matches Err(x) && x@ == e,
                }
            }),
    {
        Transaction::read_text(reader)
    }

    /// Appends the text record; writing to memory does not fail and the
    /// transaction is left as it was.
    fn write_as_text_to_writer(&mut self, writer: &mut Vec<u8>) -> (r: Result<(), ParserError>)
        ensures
            r is Ok,
            final(self)@ == old(self)@,
            final(writer)@ == old(writer)@ + encode_utf8(text_record(old(self)@)),
    {
        self.write_text(writer);
        Ok(())
    }
}

} // verus!
