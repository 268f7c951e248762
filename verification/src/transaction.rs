//! A single financial transaction and its three encodings.
use vstd::prelude::*;
use vstd::utf8::{encode_utf8, decode_utf8, valid_utf8};
use crate::bytes::{be_bytes, be_value, push_be, pow256, lemma_pow256_values, lemma_be_bytes_mod, lemma_be_value_bytes, lemma_be_bytes_len, lemma_be_roundtrip, read_be_u32_at, read_be_u64_at, read_be_i64_at};
use crate::error::{ParserError, ErrorModel};
use crate::reader::ByteReader;
use crate::strings::{lemma_line_of_text, str_from_utf8, chars_of, string_from_chars, chars_eq, push_str, push_char};
use crate::chars::{no_char, lemma_no_char_concat, is_ws, is_digit, lemma_decimal, lemma_decimal_no, lemma_parse_decimal, lemma_trim_line, lemma_split_on_none, lemma_split_on_cons, trim, split_on, parse_uint_spec, decimal, trimmed, split_on_char, parse_uint, push_decimal, views};
use crate::reader::{line_len, lemma_line_len_bound};
use crate::bin_format::BinFormatIO;
use crate::csv_format::CsvFormatIO;

verus! {

/// Kind of a transaction.
#[derive(Debug, Clone, Copy, PartialEq, Eq, Structural)]
pub enum TransactionType {
    Deposit,
    Withdrawal,
    Transfer,
    Unknown,
}

/// Outcome of a transaction.
#[derive(Debug, Clone, Copy, PartialEq, Eq, Structural)]
pub enum TransactionStatus {
    Success,
    Failure,
    Pending,
    Unknown,
}

impl TransactionType {
    /// The byte that stands for the type in the binary format.
    pub open spec fn code(self) -> u8 {
        match self {
            TransactionType::Deposit => 0,
            TransactionType::Transfer => 1,
            TransactionType::Withdrawal => 2,
            TransactionType::Unknown => 255,
        }
    }

    /// The type that a byte of the binary format stands for.
    pub open spec fn from_code(b: u8) -> Self {
        match b {
            0 => TransactionType::Deposit,
            1 => TransactionType::Transfer,
            2 => TransactionType::Withdrawal,
            _ => TransactionType::Unknown,
        }
    }

    /// The name of the type in the text formats.
    pub open spec fn label(self) -> Seq<char> {
        match self {
            TransactionType::Deposit => seq!['D', 'E', 'P', 'O', 'S', 'I', 'T'],
            TransactionType::Withdrawal => seq!['W', 'I', 'T', 'H', 'D', 'R', 'A', 'W', 'A', 'L'],
            TransactionType::Transfer => seq!['T', 'R', 'A', 'N', 'S', 'F', 'E', 'R'],
            TransactionType::Unknown => seq!['U', 'N', 'K', 'N', 'O', 'W', 'N'],
        }
    }

    /// The type named `s` in the text formats; the unknown type has no name
    /// that is read back.
    pub open spec fn from_label(s: Seq<char>) -> Option<Self> {
        if s == TransactionType::Deposit.label() {
            Some(TransactionType::Deposit)
        } else if s == TransactionType::Withdrawal.label() {
            Some(TransactionType::Withdrawal)
        } else if s == TransactionType::Transfer.label() {
            Some(TransactionType::Transfer)
        } else {
            None
        }
    }

    /// The type for a byte of the binary format: 0, 1 and 2 are deposit,
    /// transfer and withdrawal, every other byte is unknown.
    pub fn from_u8(bin_value: u8) -> (r: Self)
        ensures
            r == Self::from_code(bin_value),
    {
        match bin_value {
            0 => TransactionType::Deposit,
            1 => TransactionType::Transfer,
            2 => TransactionType::Withdrawal,
            _ => TransactionType::Unknown,
        }
    }

    /// The byte for the type in the binary format.
    pub fn to_u8(&self) -> (r: u8)
        ensures
            r == self.code(),
    {
        match self {
            TransactionType::Deposit => 0,
            TransactionType::Transfer => 1,
            TransactionType::Withdrawal => 2,
            TransactionType::Unknown => 255,
        }
    }

    /// The name of the type in the text formats.
    pub fn as_label(&self) -> (r: &'static str)
        ensures
            r@ == self.label(),
    {
        match self {
            TransactionType::Deposit => {
                proof {
                    reveal_strlit("DEPOSIT");
                }
                "DEPOSIT"
            },
            TransactionType::Withdrawal => {
                proof {
                    reveal_strlit("WITHDRAWAL");
                }
                "WITHDRAWAL"
            },
            TransactionType::Transfer => {
                proof {
                    reveal_strlit("TRANSFER");
                }
                "TRANSFER"
            },
            TransactionType::Unknown => {
                proof {
                    reveal_strlit("UNKNOWN");
                }
                "UNKNOWN"
            },
        }
    }
}

impl TransactionStatus {
    /// The byte that stands for the status in the binary format.
    pub open spec fn code(self) -> u8 {
        match self {
            TransactionStatus::Success => 0,
            TransactionStatus::Failure => 1,
            TransactionStatus::Pending => 2,
            TransactionStatus::Unknown => 255,
        }
    }

    /// The status that a byte of the binary format stands for.
    pub open spec fn from_code(b: u8) -> Self {
        match b {
            0 => TransactionStatus::Success,
            1 => TransactionStatus::Failure,
            2 => TransactionStatus::Pending,
            _ => TransactionStatus::Unknown,
        }
    }

    /// The name of the status in the text formats (the unknown status is
    /// written `UNKONWN`).
    pub open spec fn label(self) -> Seq<char> {
        match self {
            TransactionStatus::Success => seq!['S', 'U', 'C', 'C', 'E', 'S', 'S'],
            TransactionStatus::Failure => seq!['F', 'A', 'I', 'L', 'U', 'R', 'E'],
            TransactionStatus::Pending => seq!['P', 'E', 'N', 'D', 'I', 'N', 'G'],
            TransactionStatus::Unknown => seq!['U', 'N', 'K', 'O', 'N', 'W', 'N'],
        }
    }

    /// The status named `s` in the text formats; the unknown status has no
    /// name that is read back.
    pub open spec fn from_label(s: Seq<char>) -> Option<Self> {
        if s == TransactionStatus::Success.label() {
            Some(TransactionStatus::Success)
        } else if s == TransactionStatus::Failure.label() {
            Some(TransactionStatus::Failure)
        } else if s == TransactionStatus::Pending.label() {
            Some(TransactionStatus::Pending)
        } else {
            None
        }
    }

    /// The status for a byte of the binary format: 0, 1 and 2 are success,
    /// failure and pending, every other byte is unknown.
    pub fn from_u8(bin_value: u8) -> (r: Self)
        ensures
            r == Self::from_code(bin_value),
    {
        match bin_value {
            0 => TransactionStatus::Success,
            1 => TransactionStatus::Failure,
            2 => TransactionStatus::Pending,
            _ => TransactionStatus::Unknown,
        }
    }

    /// The byte for the status in the binary format.
    pub fn to_u8(&self) -> (r: u8)
        ensures
            r == self.code(),
    {
        match self {
            TransactionStatus::Success => 0,
            TransactionStatus::Failure => 1,
            TransactionStatus::Pending => 2,
            TransactionStatus::Unknown => 255,
        }
    }

    /// The name of the status in the text formats.
    pub fn as_label(&self) -> (r: &'static str)
        ensures
            r@ == self.label(),
    {
        match self {
            TransactionStatus::Success => {
                proof {
                    reveal_strlit("SUCCESS");
                }
                "SUCCESS"
            },
            TransactionStatus::Failure => {
                proof {
                    reveal_strlit("FAILURE");
                }
                "FAILURE"
            },
            TransactionStatus::Pending => {
                proof {
                    reveal_strlit("PENDING");
                }
                "PENDING"
            },
            TransactionStatus::Unknown => {
                proof {
                    reveal_strlit("UNKONWN");
                }
                "UNKONWN"
            },
        }
    }
}

/// Every type survives its byte in the binary format.
pub proof fn law_type_code_roundtrip(t: TransactionType)
    ensures
        TransactionType::from_code(t.code()) == t,
{
}

/// Every byte of a known type survives the type it stands for.
pub proof fn law_type_byte_roundtrip(b: u8)
    requires
        b <= 2,
    ensures
        TransactionType::from_code(b).code() == b,
{
}

/// Every status survives its byte in the binary format.
pub proof fn law_status_code_roundtrip(s: TransactionStatus)
    ensures
        TransactionStatus::from_code(s.code()) == s,
{
}

/// Every byte of a known status survives the status it stands for.
pub proof fn law_status_byte_roundtrip(b: u8)
    requires
        b <= 2,
    ensures
        TransactionStatus::from_code(b).code() == b,
{
}

/// One transaction of a report.
#[derive(Debug, PartialEq, Clone)]
pub struct Transaction {
    tx_id: u64,
    tx_type: TransactionType,
    from_user_id: u64,
    to_user_id: u64,
    amount: u64,
    timestamp: u64,
    status: TransactionStatus,
    description: String,
}

/// The header of a binary record: the magic bytes and the size of the body.
pub struct BinTransactionHeader {
    _magic: [u8; 4],
    _record_size: u32,
}

/// The fixed part of a binary record body, before the description bytes.
pub struct BinTransactionBodyFixed {
    _tx_id: u64,
    _tx_type: u8,
    _from_user_id: u64,
    _to_user_id: u64,
    _amount: i64,
    _timestamp: u64,
    _status: u8,
    _desc_len: u32,
}

/// A binary record without its description.
pub struct _BinaryTransaction {
    pub header: BinTransactionHeader,
    pub body: BinTransactionBodyFixed,
}

impl _BinaryTransaction {
    /// The size of a binary record without its description: the packed
    /// header and fixed body, field by field.
    pub fn _size_without_description() -> (r: usize)
        ensures
            r == 8 + bin_body_fixed_len(),
    {
        let header: usize = 4 + 4;
        let body: usize = 8 + 1 + 8 + 8 + 8 + 8 + 1 + 4;
        header + body
    }
}

/// A transaction as a value, its description as characters.
#[verifier::ext_equal]
pub struct TxModel {
    pub tx_id: u64,
    pub tx_type: TransactionType,
    pub from_user_id: u64,
    pub to_user_id: u64,
    pub amount: u64,
    pub timestamp: u64,
    pub status: TransactionStatus,
    pub description: Seq<char>,
}

impl View for Transaction {
    type V = TxModel;

    closed spec fn view(&self) -> TxModel {
        TxModel {
            tx_id: self.tx_id,
            tx_type: self.tx_type,
            from_user_id: self.from_user_id,
            to_user_id: self.to_user_id,
            amount: self.amount,
            timestamp: self.timestamp,
            status: self.status,
            description: self.description@,
        }
    }
}

/// The magic bytes `YPBN` that open every binary record.
pub open spec fn bin_magic() -> Seq<u8> {
    seq![0x59u8, 0x50u8, 0x42u8, 0x4Eu8]
}

/// Size of the fixed part of a binary record body: identifier, type,
/// sender, receiver, amount, timestamp, status and description length.
pub open spec fn bin_body_fixed_len() -> nat {
    46
}

/// The binary record of a transaction: magic, record size and body, all
/// integers big-endian; the record size and the description length are
/// written in four bytes, so only their low 32 bits are kept.
pub open spec fn bin_record(t: TxModel) -> Seq<u8> {
    let desc = encode_utf8(t.description);
    bin_magic() + be_bytes(46 + desc.len(), 4) + be_bytes(t.tx_id as nat, 8) + seq![
        t.tx_type.code(),
    ] + be_bytes(t.from_user_id as nat, 8) + be_bytes(t.to_user_id as nat, 8) + be_bytes(
        t.amount as nat,
        8,
    ) + be_bytes(t.timestamp as nat, 8) + seq![t.status.code()] + be_bytes(desc.len(), 4) + desc
}

/// What reading one binary record from the front of `s` gives, with the
/// number of bytes taken from `s`.
pub open spec fn bin_read(s: Seq<u8>) -> (Result<TxModel, ErrorModel>, nat) {
    if s.len() < 8 {
        (Err(ErrorModel::EOFEncountered), s.len())
    } else if s.take(4) != bin_magic() {
        (Err(ErrorModel::BinWrongMagicEncountered), 8)
    } else {
        let size = be_value(s.subrange(4, 8));
        if s.len() - 8 < size {
            (Err(ErrorModel::BinTxReadError), s.len())
        } else {
            let body = s.subrange(8, 8 + size as int);
            let desc_len = be_value(body.subrange(42, 46));
            if size < 46 {
                (Err(ErrorModel::BinReadLessThanBody), 8 + size)
            } else if 46 + desc_len > size {
                (Err(ErrorModel::BinReadDescLenIsExcessive), 8 + size)
            } else if !valid_utf8(body.subrange(46, 46 + desc_len as int)) {
                (Err(ErrorModel::BinReadNonUtf8Symbols), 8 + size)
            } else {
                (
                    Ok(
                        TxModel {
                            tx_id: be_value(body.subrange(0, 8)) as u64,
                            tx_type: TransactionType::from_code(body[8]),
                            from_user_id: be_value(body.subrange(9, 17)) as u64,
                            to_user_id: be_value(body.subrange(17, 25)) as u64,
                            amount: be_value(body.subrange(25, 33)) as u64,
                            timestamp: be_value(body.subrange(33, 41)) as u64,
                            status: TransactionStatus::from_code(body[41]),
                            description: decode_utf8(body.subrange(46, 46 + desc_len as int)),
                        },
                    ),
                    8 + size,
                )
            }
        }
    }
}

/// A copy of `v[a..b]`.
pub fn sub_bytes(v: &[u8], a: usize, b: usize) -> (r: Vec<u8>)
    requires
        a <= b <= v@.len(),
    ensures
        r@ == v@.subrange(a as int, b as int),
{
    let mut r: Vec<u8> = Vec::new();
    let mut i = a;
    while i < b
        invariant
            a <= i <= b <= v@.len(),
            r@ == v@.subrange(a as int, i as int),
        decreases b - i,
    {
        r.push(v[i]);
        i = i + 1;
        assert(r@ =~= v@.subrange(a as int, i as int));
    }
    r
}

impl Transaction {
    /// A transaction with the given fields.
    pub fn new(
        tx_id: u64,
        tx_type: TransactionType,
        from_user_id: u64,
        to_user_id: u64,
        amount: u64,
        timestamp: u64,
        status: TransactionStatus,
        description: String,
    ) -> (r: Self)
        ensures
            r@ == (TxModel {
                tx_id,
                tx_type,
                from_user_id,
                to_user_id,
                amount,
                timestamp,
                status,
                description: description@,
            }),
    {
        Transaction {
            tx_id,
            tx_type,
            from_user_id,
            to_user_id,
            amount,
            timestamp,
            status,
            description,
        }
    }

    /// The identifier.
    pub fn tx_id(&self) -> (r: u64)
        ensures
            r == self@.tx_id,
    {
        self.tx_id
    }

    /// The type.
    pub fn tx_type(&self) -> (r: TransactionType)
        ensures
            r == self@.tx_type,
    {
        self.tx_type
    }

    /// The sending user.
    pub fn from_user_id(&self) -> (r: u64)
        ensures
            r == self@.from_user_id,
    {
        self.from_user_id
    }

    /// The receiving user.
    pub fn to_user_id(&self) -> (r: u64)
        ensures
            r == self@.to_user_id,
    {
        self.to_user_id
    }

    /// The amount, in the smallest unit of money.
    pub fn amount(&self) -> (r: u64)
        ensures
            r == self@.amount,
    {
        self.amount
    }

    /// The time of the transaction.
    pub fn timestamp(&self) -> (r: u64)
        ensures
            r == self@.timestamp,
    {
        self.timestamp
    }

    /// The status.
    pub fn status(&self) -> (r: TransactionStatus)
        ensures
            r == self@.status,
    {
        self.status
    }

    /// The description.
    pub fn description(&self) -> (r: &str)
        ensures
            r@ == self@.description,
    {
        self.description.as_str()
    }

    /// Whether two transactions are equal in every field.
    pub fn same_as(&self, other: &Transaction) -> (r: bool)
        ensures
            r == (self@ == other@),
    {
        let r = self.tx_id == other.tx_id && self.tx_type == other.tx_type && self.from_user_id
            == other.from_user_id && self.to_user_id == other.to_user_id && self.amount
            == other.amount && self.timestamp == other.timestamp && self.status == other.status
            && self.description == other.description;
        proof {
            if r {
                assert(self@ =~= other@);
            }
        }
        r
    }

    /// Appends the binary record of the transaction to `writer`.
    #[verifier::rlimit(40)]
    pub fn write_bin(&self, writer: &mut Vec<u8>)
        ensures
            final(writer)@ == old(writer)@ + bin_record(self@),
    {
        let desc = self.description.as_str().as_bytes();
        let desc_len = desc.len();
        writer.push(0x59);
        writer.push(0x50);
        writer.push(0x42);
        writer.push(0x4E);
        let record_size: u64 = (desc_len as u64) % 0x1_0000_0000 + 46;
        proof {
            lemma_pow256_values();
            lemma_be_bytes_mod(record_size as nat, 4);
            lemma_be_bytes_mod((46 + desc_len) as nat, 4);
            assert(record_size as nat % pow256(4) == (46 + desc_len) as nat % pow256(4));
        }
        push_be(writer, record_size, 4);
        push_be(writer, self.tx_id, 8);
        writer.push(self.tx_type.to_u8());
        push_be(writer, self.from_user_id, 8);
        push_be(writer, self.to_user_id, 8);
        push_be(writer, self.amount, 8);
        push_be(writer, self.timestamp, 8);
        writer.push(self.status.to_u8());
        push_be(writer, desc_len as u64, 4);
        writer.extend_from_slice(desc);
        assert(writer@ =~= old(writer)@ + bin_record(self@));
    }

    /// Appends the comma-separated line of the transaction to `writer`.
    pub fn write_csv(&self, writer: &mut Vec<u8>)
        ensures
            final(writer)@ == old(writer)@ + encode_utf8(csv_line(self@)),
    {
        let mut line = String::new();
        push_decimal(&mut line, self.tx_id);
        push_char(&mut line, ',');
        push_str(&mut line, self.tx_type.as_label());
        push_char(&mut line, ',');
        push_decimal(&mut line, self.from_user_id);
        push_char(&mut line, ',');
        push_decimal(&mut line, self.to_user_id);
        push_char(&mut line, ',');
        push_decimal(&mut line, self.amount);
        push_char(&mut line, ',');
        push_decimal(&mut line, self.timestamp);
        push_char(&mut line, ',');
        push_str(&mut line, self.status.as_label());
        push_char(&mut line, ',');
        push_str(&mut line, self.description.as_str());
        push_char(&mut line, '\n');
        assert(line@ =~= csv_line(self@));
        writer.extend_from_slice(line.as_str().as_bytes());
    }

    /// Reads one line of the comma-separated format.
    pub fn read_csv(reader: &mut ByteReader) -> (r: Result<Transaction, ParserError>)
        ensures
            ({
                let (res, used) = csv_read(old(reader).remaining());
                &&& final(reader).remaining() == old(reader).remaining().skip(used as int)
                &&& match res {
                    Ok(t) => r matches Ok(x) && x@ == t,
                    Err(e) => r matches Err(x) && x@ == e,
                }
            }),
    {
        let ghost s = reader.remaining();
        let line = reader.read_line();
        if line.len() == 0 {
            proof {
                lemma_line_len_bound(s);
                assert(s.skip(0) =~= s);
            }
            return Err(ParserError::EOFEncountered);
        }
        let text = match str_from_utf8(line.as_slice()) {
            Some(t) => t,
            None => {
                return Err(ParserError::CsvLineReadError);
            },
        };
        proof {
            vstd::utf8::encode_utf8_decode_utf8(text@);
        }
        let chars = chars_of(text);
        let t = trimmed(chars.as_slice());
        let cols = split_on_char(t.as_slice(), ',');
        if cols.len() != 8 {
            return Err(ParserError::CsvWrongTransactionFormat(text.to_owned()));
        }
        assert(views(cols@)[0] == cols@[0]@);
        assert(views(cols@)[1] == cols@[1]@);
        assert(views(cols@)[2] == cols@[2]@);
        assert(views(cols@)[3] == cols@[3]@);
        assert(views(cols@)[4] == cols@[4]@);
        assert(views(cols@)[5] == cols@[5]@);
        assert(views(cols@)[6] == cols@[6]@);
        assert(views(cols@)[7] == cols@[7]@);
        let tx_id = match parse_u64_field(cols[0].as_slice()) {
            Some(v) => v,
            None => {
                return Err(ParserError::CsvU64IsNotParsed(string_from_chars(cols[0].as_slice())));
            },
        };
        let tx_type = match parse_type_label(cols[1].as_slice()) {
            Some(v) => v,
            None => {
                return Err(ParserError::CsvUnknownTxType(string_from_chars(cols[1].as_slice())));
            },
        };
        let from_user_id = match parse_u64_field(cols[2].as_slice()) {
            Some(v) => v,
            None => {
                return Err(ParserError::CsvU64IsNotParsed(string_from_chars(cols[2].as_slice())));
            },
        };
        let to_user_id = match parse_u64_field(cols[3].as_slice()) {
            Some(v) => v,
            None => {
                return Err(ParserError::CsvU64IsNotParsed(string_from_chars(cols[3].as_slice())));
            },
        };
        let amount = match parse_u64_field(cols[4].as_slice()) {
            Some(v) => v,
            None => {
                return Err(ParserError::CsvU64IsNotParsed(string_from_chars(cols[4].as_slice())));
            },
        };
        let timestamp = match parse_u64_field(cols[5].as_slice()) {
            Some(v) => v,
            None => {
                return Err(ParserError::CsvU64IsNotParsed(string_from_chars(cols[5].as_slice())));
            },
        };
        let status = match parse_status_label(cols[6].as_slice()) {
            Some(v) => v,
            None => {
                return Err(
                    ParserError::CsvUnknownTxStatus(string_from_chars(cols[6].as_slice())),
                );
            },
        };
        let description = string_from_chars(cols[7].as_slice());
        Ok(
            Transaction::new(
                tx_id,
                tx_type,
                from_user_id,
                to_user_id,
                amount,
                timestamp,
                status,
                description,
            ),
        )
    }

    /// Reads one binary record.
    pub fn read_bin(reader: &mut ByteReader) -> (r: Result<Transaction, ParserError>)
        ensures
            ({
                let (res, used) = bin_read(old(reader).remaining());
                &&& final(reader).remaining() == old(reader).remaining().skip(used as int)
                &&& match res {
                    Ok(t) => r matches Ok(x) && x@ == t,
                    Err(e) => r matches Err(x) && x@ == e,
                }
            }),
    {
        let ghost s = reader.remaining();
        let header = match reader.read_exact(8) {
            Some(h) => h,
            None => {
                assert(s.skip(s.len() as int) =~= Seq::<u8>::empty());
                return Err(ParserError::EOFEncountered);
            },
        };
        assert(header@ =~= s.take(8));
        if !(header[0] == 0x59 && header[1] == 0x50 && header[2] == 0x42 && header[3] == 0x4E) {
            assert(s.take(4) != bin_magic()) by {
                if s.take(4) == bin_magic() {
                    assert(s.take(4)[0] == header@[0]);
                    assert(s.take(4)[1] == header@[1]);
                    assert(s.take(4)[2] == header@[2]);
                    assert(s.take(4)[3] == header@[3]);
                }
            }
            return Err(ParserError::BinWrongMagicEncountered);
        }
        assert(s.take(4) =~= bin_magic());
        let record_size = read_be_u32_at(&header, 4) as usize;
        assert(header@.subrange(4, 8) =~= s.subrange(4, 8));
        let ghost rest = reader.remaining();
        let body = match reader.read_exact(record_size) {
            Some(b) => b,
            None => {
                assert(s.skip(s.len() as int) =~= Seq::<u8>::empty());
                return Err(ParserError::BinTxReadError);
            },
        };
        assert(s.skip(8 + record_size) =~= rest.skip(record_size as int));
        assert(body@ =~= s.subrange(8, 8 + record_size));
        if body.len() < 46 {
            return Err(ParserError::BinReadLessThanBody);
        }
        let tx_id = read_be_u64_at(&body, 0);
        let tx_type = body[8];
        let from_user_id = read_be_u64_at(&body, 9);
        let to_user_id = read_be_u64_at(&body, 17);
        let amount = read_be_i64_at(&body, 25);
        let timestamp = read_be_u64_at(&body, 33);
        let status = body[41];
        let desc_len = read_be_u32_at(&body, 42);
        if 46 + (desc_len as u64) > body.len() as u64 {
            return Err(ParserError::BinReadDescLenIsExcessive);
        }
        let desc_bytes = sub_bytes(&body, 46, 46 + desc_len as usize);
        let description = match str_from_utf8(&desc_bytes) {
            Some(d) => d.to_owned(),
            None => {
                return Err(ParserError::BinReadNonUtf8Symbols);
            },
        };
        proof {
            lemma_be_value_bytes(body@.subrange(25, 33));
            lemma_pow256_values();
            lemma_u64_i64_bits(be_value(body@.subrange(25, 33)));
            vstd::utf8::encode_utf8_decode_utf8(description@);
        }
        Ok(
            Transaction::new(
                tx_id,
                TransactionType::from_u8(tx_type),
                from_user_id,
                to_user_id,
                amount as u64,
                timestamp,
                TransactionStatus::from_u8(status),
                description,
            ),
        )
    }
}

/// The comma-separated line of a transaction, ended by a newline.
pub open spec fn csv_line(t: TxModel) -> Seq<char> {
    decimal(t.tx_id as nat) + seq![','] + t.tx_type.label() + seq![','] + decimal(
        t.from_user_id as nat,
    ) + seq![','] + decimal(t.to_user_id as nat) + seq![','] + decimal(t.amount as nat) + seq![
        ',',
    ] + decimal(t.timestamp as nat) + seq![','] + t.status.label() + seq![','] + t.description
        + seq!['\n']
}

/// An unsigned 64-bit field of the text formats.
pub open spec fn u64_field(s: Seq<char>) -> Option<u64> {
    match parse_uint_spec(s, u64::MAX as nat) {
        Some(v) => Some(v as u64),
        None => None,
    }
}

/// What one line of the comma-separated format gives: the line is trimmed
/// and split at commas into exactly eight columns.
pub open spec fn csv_parse_line(line: Seq<char>) -> Result<TxModel, ErrorModel> {
    let cols = split_on(trim(line), ',');
    if cols.len() != 8 {
        Err(ErrorModel::CsvWrongTransactionFormat(line))
    } else if u64_field(cols[0]) is None {
        Err(ErrorModel::CsvU64IsNotParsed(cols[0]))
    } else if TransactionType::from_label(cols[1]) is None {
        Err(ErrorModel::CsvUnknownTxType(cols[1]))
    } else if u64_field(cols[2]) is None {
        Err(ErrorModel::CsvU64IsNotParsed(cols[2]))
    } else if u64_field(cols[3]) is None {
        Err(ErrorModel::CsvU64IsNotParsed(cols[3]))
    } else if u64_field(cols[4]) is None {
        Err(ErrorModel::CsvU64IsNotParsed(cols[4]))
    } else if u64_field(cols[5]) is None {
        Err(ErrorModel::CsvU64IsNotParsed(cols[5]))
    } else if TransactionStatus::from_label(cols[6]) is None {
        Err(ErrorModel::CsvUnknownTxStatus(cols[6]))
    } else {
        Ok(
            TxModel {
                tx_id: u64_field(cols[0])->0,
                tx_type: TransactionType::from_label(cols[1])->0,
                from_user_id: u64_field(cols[2])->0,
                to_user_id: u64_field(cols[3])->0,
                amount: u64_field(cols[4])->0,
                timestamp: u64_field(cols[5])->0,
                status: TransactionStatus::from_label(cols[6])->0,
                description: cols[7],
            },
        )
    }
}

/// What reading one line of the comma-separated format from the front of
/// `s` gives, with the number of bytes taken.
pub open spec fn csv_read(s: Seq<u8>) -> (Result<TxModel, ErrorModel>, nat) {
    let n = line_len(s);
    if n == 0 {
        (Err(ErrorModel::EOFEncountered), 0)
    } else if !valid_utf8(s.take(n as int)) {
        (Err(ErrorModel::CsvLineReadError), n)
    } else {
        (csv_parse_line(decode_utf8(s.take(n as int))), n)
    }
}

/// The type named by `cs`, if any.
pub fn parse_type_label(cs: &[char]) -> (r: Option<TransactionType>)
    ensures
        r == TransactionType::from_label(cs@),
{
    let deposit = ['D', 'E', 'P', 'O', 'S', 'I', 'T'];
    let withdrawal = ['W', 'I', 'T', 'H', 'D', 'R', 'A', 'W', 'A', 'L'];
    let transfer = ['T', 'R', 'A', 'N', 'S', 'F', 'E', 'R'];
    assert(deposit@ =~= TransactionType::Deposit.label());
    assert(withdrawal@ =~= TransactionType::Withdrawal.label());
    assert(transfer@ =~= TransactionType::Transfer.label());
    if chars_eq(cs, &deposit) {
        Some(TransactionType::Deposit)
    } else if chars_eq(cs, &withdrawal) {
        Some(TransactionType::Withdrawal)
    } else if chars_eq(cs, &transfer) {
        Some(TransactionType::Transfer)
    } else {
        None
    }
}

/// The status named by `cs`, if any.
pub fn parse_status_label(cs: &[char]) -> (r: Option<TransactionStatus>)
    ensures
        r == TransactionStatus::from_label(cs@),
{
    let success = ['S', 'U', 'C', 'C', 'E', 'S', 'S'];
    let failure = ['F', 'A', 'I', 'L', 'U', 'R', 'E'];
    let pending = ['P', 'E', 'N', 'D', 'I', 'N', 'G'];
    assert(success@ =~= TransactionStatus::Success.label());
    assert(failure@ =~= TransactionStatus::Failure.label());
    assert(pending@ =~= TransactionStatus::Pending.label());
    if chars_eq(cs, &success) {
        Some(TransactionStatus::Success)
    } else if chars_eq(cs, &failure) {
        Some(TransactionStatus::Failure)
    } else if chars_eq(cs, &pending) {
        Some(TransactionStatus::Pending)
    } else {
        None
    }
}

/// An unsigned 64-bit field.
pub fn parse_u64_field(cs: &[char]) -> (r: Option<u64>)
    ensures
        r == u64_field(cs@),
{
    parse_uint(cs, u64::MAX)
}

/// The names of types and statuses hold neither commas nor newlines.
proof fn lemma_label_chars(t: TransactionType, s: TransactionStatus)
    ensures
        no_char(t.label(), ','),
        no_char(t.label(), '\n'),
        no_char(s.label(), ','),
        no_char(s.label(), '\n'),
{
}

/// A transaction whose comma-separated line reads back as itself: its type
/// and status have names that are read back, and its description holds no
/// comma and no newline and does not end in whitespace (which the reader
/// trims).
pub open spec fn csv_safe(t: TxModel) -> bool {
    &&& t.tx_type != TransactionType::Unknown
    &&& t.status != TransactionStatus::Unknown
    &&& forall|i: int|
        0 <= i < t.description.len() ==> #[trigger] t.description[i] != ',' && t.description[i]
            != '\n'
    &&& t.description.len() > 0 ==> !is_ws(t.description.last())
}

/// The fields of a line, right-nested.
spec fn csv_tail(t: TxModel, k: nat) -> Seq<char>
    decreases 8 - k,
{
    if k >= 7 {
        t.description
    } else {
        csv_piece(t, k) + (seq![','] + csv_tail(t, k + 1))
    }
}

/// The `k`-th field of a line, `k < 8`.
spec fn csv_piece(t: TxModel, k: nat) -> Seq<char> {
    if k == 0 {
        decimal(t.tx_id as nat)
    } else if k == 1 {
        t.tx_type.label()
    } else if k == 2 {
        decimal(t.from_user_id as nat)
    } else if k == 3 {
        decimal(t.to_user_id as nat)
    } else if k == 4 {
        decimal(t.amount as nat)
    } else if k == 5 {
        decimal(t.timestamp as nat)
    } else if k == 6 {
        t.status.label()
    } else {
        t.description
    }
}

/// No field holds a comma or a newline.
proof fn lemma_csv_piece(t: TxModel, k: nat)
    requires
        csv_safe(t),
        k < 8,
    ensures
        no_char(csv_piece(t, k), ','),
        no_char(csv_piece(t, k), '\n'),
{
    lemma_label_chars(t.tx_type, t.status);
    lemma_decimal_no(t.tx_id as nat, ',');
    lemma_decimal_no(t.from_user_id as nat, ',');
    lemma_decimal_no(t.to_user_id as nat, ',');
    lemma_decimal_no(t.amount as nat, ',');
    lemma_decimal_no(t.timestamp as nat, ',');
    lemma_decimal_no(t.tx_id as nat, '\n');
    lemma_decimal_no(t.from_user_id as nat, '\n');
    lemma_decimal_no(t.to_user_id as nat, '\n');
    lemma_decimal_no(t.amount as nat, '\n');
    lemma_decimal_no(t.timestamp as nat, '\n');
}

/// The tail of a line from field `k` holds no newline and splits into the
/// fields from `k` on.
proof fn lemma_csv_tail(t: TxModel, k: nat)
    requires
        csv_safe(t),
        k <= 7,
    ensures
        no_char(csv_tail(t, k), '\n'),
        split_on(csv_tail(t, k), ',') == Seq::new(
            (8 - k) as nat,
            |i: int| csv_piece(t, (k + i) as nat),
        ),
    decreases 8 - k,
{
    if k == 7 {
        lemma_split_on_none(t.description, ',');
        assert(Seq::new(1, |i: int| csv_piece(t, (k + i) as nat)) =~= seq![t.description]);
    } else {
        lemma_csv_tail(t, k + 1);
        lemma_csv_piece(t, k);
        let p = csv_piece(t, k);
        let r = csv_tail(t, k + 1);
        assert(no_char(seq![','], '\n'));
        lemma_no_char_concat(seq![','], r, '\n');
        lemma_no_char_concat(p, seq![','] + r, '\n');
        lemma_split_on_cons(p, r, ',');
        assert(p + seq![','] + r =~= csv_tail(t, k));
        assert(Seq::new((8 - k) as nat, |i: int| csv_piece(t, (k + i) as nat)) =~= seq![p]
            + Seq::new((8 - (k + 1)) as nat, |i: int| csv_piece(t, (k + 1 + i) as nat)));
    }
}

/// The line is its right-nested fields and a newline; it starts with a
/// digit and its last field character is no whitespace.
#[verifier::rlimit(100)]
proof fn lemma_csv_shape(t: TxModel)
    requires
        csv_safe(t),
    ensures
        csv_line(t) == csv_tail(t, 0).push('\n'),
        csv_tail(t, 0).len() > 0,
        !is_ws(csv_tail(t, 0)[0]),
        !is_ws(csv_tail(t, 0).last()),
{
    let x = csv_tail(t, 0);
    let c = seq![','];
    assert(csv_tail(t, 7) == t.description);
    assert(csv_tail(t, 6) == t.status.label() + (c + csv_tail(t, 7)));
    assert(csv_tail(t, 5) == decimal(t.timestamp as nat) + (c + csv_tail(t, 6)));
    assert(csv_tail(t, 4) == decimal(t.amount as nat) + (c + csv_tail(t, 5)));
    assert(csv_tail(t, 3) == decimal(t.to_user_id as nat) + (c + csv_tail(t, 4)));
    assert(csv_tail(t, 2) == decimal(t.from_user_id as nat) + (c + csv_tail(t, 3)));
    assert(csv_tail(t, 1) == t.tx_type.label() + (c + csv_tail(t, 2)));
    assert(x == decimal(t.tx_id as nat) + (c + csv_tail(t, 1)));
    assert(csv_line(t) =~= x.push('\n'));
    lemma_decimal(t.tx_id as nat);
    assert(x[0] == decimal(t.tx_id as nat)[0]);
    assert(is_digit(x[0]));
    if t.description.len() > 0 {
        assert(x.last() == t.description.last());
    } else {
        assert(x.last() == ',');
    }
}

/// The line's fields hold no newline, and parse back as the transaction.
proof fn lemma_csv_fields(t: TxModel)
    requires
        csv_safe(t),
    ensures
        no_char(csv_tail(t, 0), '\n'),
        csv_line(t) == csv_tail(t, 0).push('\n'),
        csv_parse_line(csv_tail(t, 0).push('\n')) == Ok::<TxModel, ErrorModel>(t),
{
    let x = csv_tail(t, 0);
    lemma_csv_shape(t);
    lemma_csv_tail(t, 0);
    lemma_trim_line(x);
    lemma_parse_decimal(t.tx_id as nat, u64::MAX as nat);
    lemma_parse_decimal(t.from_user_id as nat, u64::MAX as nat);
    lemma_parse_decimal(t.to_user_id as nat, u64::MAX as nat);
    lemma_parse_decimal(t.amount as nat, u64::MAX as nat);
    lemma_parse_decimal(t.timestamp as nat, u64::MAX as nat);
    let cols = split_on(trim(x.push('\n')), ',');
    assert(cols.len() == 8);
    assert(cols[0] == csv_piece(t, 0));
    assert(cols[1] == csv_piece(t, 1));
    assert(cols[2] == csv_piece(t, 2));
    assert(cols[3] == csv_piece(t, 3));
    assert(cols[4] == csv_piece(t, 4));
    assert(cols[5] == csv_piece(t, 5));
    assert(cols[6] == csv_piece(t, 6));
    assert(cols[7] == csv_piece(t, 7));
    let r = csv_parse_line(x.push('\n'));
    assert(r matches Ok(u) && u =~= t);
}

/// A comma-separated line reads back as the transaction it was written
/// from, and the reader takes exactly that line, whatever follows it.
pub proof fn law_csv_roundtrip(t: TxModel, rest: Seq<u8>)
    requires
        csv_safe(t),
    ensures
        csv_read(encode_utf8(csv_line(t)) + rest) == (
            Ok::<TxModel, ErrorModel>(t),
            encode_utf8(csv_line(t)).len(),
        ),
{
    lemma_csv_fields(t);
    let x = csv_tail(t, 0);
    lemma_line_of_text(x, rest);
}

/// A binary record reads back as the transaction it was written from, and
/// the reader takes exactly the record, whatever follows it; this holds
/// whenever the record size fits in its four bytes.
pub proof fn law_bin_roundtrip(t: TxModel, rest: Seq<u8>)
    requires
        46 + encode_utf8(t.description).len() < 0x1_0000_0000,
    ensures
        bin_read(bin_record(t) + rest) == (Ok::<TxModel, ErrorModel>(t), bin_record(t).len()),
{
    let desc = encode_utf8(t.description);
    let l = desc.len();
    let size = 46 + l;
    lemma_pow256_values();
    lemma_be_bytes_len(size, 4);
    lemma_be_bytes_len(t.tx_id as nat, 8);
    lemma_be_bytes_len(t.from_user_id as nat, 8);
    lemma_be_bytes_len(t.to_user_id as nat, 8);
    lemma_be_bytes_len(t.amount as nat, 8);
    lemma_be_bytes_len(t.timestamp as nat, 8);
    lemma_be_bytes_len(l, 4);
    lemma_be_roundtrip(size, 4);
    lemma_be_roundtrip(t.tx_id as nat, 8);
    lemma_be_roundtrip(t.from_user_id as nat, 8);
    lemma_be_roundtrip(t.to_user_id as nat, 8);
    lemma_be_roundtrip(t.amount as nat, 8);
    lemma_be_roundtrip(t.timestamp as nat, 8);
    lemma_be_roundtrip(l, 4);
    vstd::utf8::encode_utf8_valid_utf8(t.description);
    vstd::utf8::encode_utf8_decode_utf8(t.description);
    let rec = bin_record(t);
    let s = rec + rest;
    assert(rec.len() == 54 + l);
    assert(s.take(4) =~= bin_magic());
    assert(s.subrange(4, 8) =~= be_bytes(size, 4));
    let body = s.subrange(8, 8 + size as int);
    assert(body.subrange(0, 8) =~= be_bytes(t.tx_id as nat, 8));
    assert(body[8] == t.tx_type.code());
    assert(body.subrange(9, 17) =~= be_bytes(t.from_user_id as nat, 8));
    assert(body.subrange(17, 25) =~= be_bytes(t.to_user_id as nat, 8));
    assert(body.subrange(25, 33) =~= be_bytes(t.amount as nat, 8));
    assert(body.subrange(33, 41) =~= be_bytes(t.timestamp as nat, 8));
    assert(body[41] == t.status.code());
    assert(body.subrange(42, 46) =~= be_bytes(l, 4));
    assert(body.subrange(46, 46 + l as int) =~= desc);
    let r = bin_read(s).0;
    assert(r matches Ok(u) && u =~= t);
}

/// Reading a `u64` as an `i64` and back keeps its bits.
proof fn lemma_u64_i64_bits(v: nat)
    requires
        v < 0x1_0000_0000_0000_0000,
    ensures
        (((v as u64) as i64) as u64) == v,
{
    let x = v as u64;
    assert(((x as i64) as u64) == x) by (bit_vector);
}

impl BinFormatIO<Transaction> for Transaction {
    /// Reads one binary record (see `read_bin`).
    fn new_from_bin_reader(reader: &mut ByteReader) -> (r: Result<Transaction, ParserError>)
        ensures
            ({
                let (res, used) = bin_read(old(reader).remaining());
                &&& final(reader).remaining() == old(reader).remaining().skip(used as int)
                &&& match res {
                    Ok(t) => r matches Ok(x) && x@ == t,
                    Err(e) => r matches Err(x) && x@ == e,
                }
            }),
    {
        Transaction::read_bin(reader)
    }

    /// Appends the binary record; writing to memory does not fail.
    fn write_as_bin_to_writer(&self, writer: &mut Vec<u8>) -> (r: Result<(), ParserError>)
        ensures
            r is Ok,
            final(writer)@ == old(writer)@ + bin_record(self@),
    {
        self.write_bin(writer);
        Ok(())
    }
}

impl CsvFormatIO<Transaction> for Transaction {
    /// Reads one comma-separated line (see `read_csv`).
    fn new_from_csv_reader(reader: &mut ByteReader) -> (r: Result<Transaction, ParserError>)
        ensures
            ({
                let (res, used) = csv_read(old(reader).remaining());
                &&& final(reader).remaining() == old(reader).remaining().skip(used as int)
                &&& match res {
                    Ok(t) => r matches Ok(x) && x@ == t,
                    Err(e) => r matches Err(x) && x@ == e,
                }
            }),
    {
        Transaction::read_csv(reader)
    }

    /// Appends the comma-separated line; writing to memory does not fail.
    fn write_as_csv_to_writer(&self, writer: &mut Vec<u8>) -> (r: Result<(), ParserError>)
        ensures
            r is Ok,
            final(writer)@ == old(writer)@ + encode_utf8(csv_line(self@)),
    {
        self.write_csv(writer);
        Ok(())
    }
}

} // verus!
