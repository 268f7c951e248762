use parser::bin_format::BinFormatIO;
use parser::csv_format::CsvFormatIO;
use parser::error::ParserError;
use parser::reader::ByteReader;
use parser::text_format::TextFormatIO;
use parser::text_record::TxFields;
use parser::transaction::{Transaction, TransactionStatus, TransactionType};

const CSV_CONTENT_STR_BAD: &str =
    "1,DEPOSIT,100,200,1000,123456789,SUCCESS,Test transaction,,,,,,,,,,,,,,,,,,,,,,,,,,,\n";
const CSV_CONTENT_STR_BAD_2: &str =
    "1,UNKONWN OPERATION,100,200,1000,123456789,SUCCESS,Test transaction\n";

const TEXT_CONTENT_STR_BAD: &str = " 
WRONG FIELD NAME: \"Record number 2\"
TIMESTAMP: 1633036920000
STATUS: PENDING
AMOUNT: 200
TX_ID: 1000000000000001
TX_TYPE: TRANSFER
FROM_USER_ID: 9223372036854775807
TO_USER_ID: 9223372036854775807";

const TEXT_CONTENT_STR_BAD_2: &str = " 
# Record 2 (TRANSFER)
DESCRIPTION: \"Record number 2\" DESCRIPTION 2: \"Rust is a fantastic language\"
TIMESTAMP: 1633036920000
STATUS: PENDING
AMOUNT: 200
TX_ID: 1000000000000001
TX_TYPE: TRANSFER
FROM_USER_ID: 9223372036854775807
TO_USER_ID: 9223372036854775807";

const SOURCE_TX_STR: &str = "1,DEPOSIT,3,5,100,1579303033,FAILURE,\"Test CSV record\"";

fn source_tx() -> Transaction {
    Transaction::new(
        1,
        TransactionType::Deposit,
        3,
        5,
        100,
        1579303033,
        TransactionStatus::Failure,
        "\"Test CSV record\"".to_string(),
    )
}

fn reader_of(s: &str) -> ByteReader {
    ByteReader::new(s.as_bytes().to_vec())
}

#[test]
fn test_bin_tx_to_buf_to_tx() {
    let source_tx = source_tx();
    let mut buffer = Vec::new();
    assert_eq!(source_tx.write_as_bin_to_writer(&mut buffer), Ok(()));
    let mut reader = ByteReader::new(buffer);
    let read_tx = Transaction::new_from_bin_reader(&mut reader)
        .expect("Транзакция не прочиталась из строки");
    println!("Исходная и прочитанная транзакции: \n{} {}", source_tx.as_str(), read_tx.as_str());
    assert_eq!(source_tx, read_tx);
}

#[test]
fn test_csv_tx_to_string_to_tx() {
    let source_tx = source_tx();
    let mut buffer = Vec::new();
    assert_eq!(source_tx.write_as_csv_to_writer(&mut buffer), Ok(()));
    let csv_string = String::from_utf8(buffer).expect("Встречены не UTF-8 символы");
    println!("CSV в строке: {}", csv_string);
    assert!(csv_string.starts_with(SOURCE_TX_STR));
    let mut reader = reader_of(&csv_string);
    let read_tx = Transaction::new_from_csv_reader(&mut reader)
        .expect("Транзакция не прочиталась из строки");
    assert_eq!(source_tx, read_tx);
}

#[test]
fn test_tx_to_bin_to_csv_roundtrip() {
    let source_tx = source_tx();

    let mut bin_buffer = Vec::new();
    let write_result = source_tx.write_as_bin_to_writer(&mut bin_buffer);
    assert_eq!(write_result, Ok(()));
    let mut bin_reader = ByteReader::new(bin_buffer);
    let mut tx_from_bin = Transaction::new_from_bin_reader(&mut bin_reader)
        .expect("Не прочиталось из буфера");
    assert_eq!(source_tx, tx_from_bin);

    let mut csv_buffer = Vec::new();
    let csv_write_result = tx_from_bin.write_as_csv_to_writer(&mut csv_buffer);
    assert_eq!(csv_write_result, Ok(()));
    let csv_string = String::from_utf8(csv_buffer).expect("Не UTF-8 символы");
    let mut csv_reader = reader_of(&csv_string);
    let tx_from_csv = Transaction::new_from_csv_reader(&mut csv_reader)
        .expect("Не прочитано из CSV");
    assert_eq!(tx_from_bin, tx_from_csv);

    let mut txt_buffer = Vec::new();
    let txt_write_result = tx_from_bin.write_as_text_to_writer(&mut txt_buffer);
    assert_eq!(txt_write_result, Ok(()));
    let txt_string = String::from_utf8(txt_buffer).expect("Не UTF-8 символы");
    let mut txt_reader = reader_of(&txt_string);
    let tx_from_txt = Transaction::new_from_text_reader(&mut txt_reader)
        .expect("Не прочитано из CSV");
    assert_eq!(source_tx, tx_from_txt)
}

#[test]
fn test_bin_bad_magic() {
    let source_tx = source_tx();
    let mut buffer = Vec::new();
    assert_eq!(source_tx.write_as_bin_to_writer(&mut buffer), Ok(()));
    buffer[0] = 0x40;
    let mut reader = ByteReader::new(buffer);
    assert_eq!(
        Transaction::new_from_bin_reader(&mut reader),
        Err(ParserError::BinWrongMagicEncountered)
    );
}

#[test]
fn test_bin_bad_description_len() {
    let source_tx = source_tx();
    let mut buffer = Vec::new();
    assert_eq!(source_tx.write_as_bin_to_writer(&mut buffer), Ok(()));
    buffer[50] = 255;
    buffer[51] = 255;
    buffer[52] = 255;
    buffer[53] = 255;
    let mut reader = ByteReader::new(buffer);
    assert_eq!(
        Transaction::new_from_bin_reader(&mut reader),
        Err(ParserError::BinReadDescLenIsExcessive)
    );
}

#[test]
fn test_csv_too_much_commas() {
    let mut reader = reader_of(CSV_CONTENT_STR_BAD);
    assert_eq!(
        Transaction::new_from_csv_reader(&mut reader),
        Err(ParserError::CsvWrongTransactionFormat(CSV_CONTENT_STR_BAD.to_string()))
    );
}

#[test]
fn test_csv_wrong_tx_type() {
    let mut reader = reader_of(CSV_CONTENT_STR_BAD_2);
    assert_eq!(
        Transaction::new_from_csv_reader(&mut reader),
        Err(ParserError::CsvUnknownTxType("UNKONWN OPERATION".to_string()))
    );
}

#[test]
fn test_text_wrong_record_key() {
    let mut reader = reader_of(TEXT_CONTENT_STR_BAD);
    assert_eq!(
        Transaction::new_from_text_reader(&mut reader),
        Err(ParserError::TextWrongFieldName("WRONG FIELD NAME".to_string()))
    );
}

#[test]
fn test_text_record_format() {
    let mut reader = reader_of(TEXT_CONTENT_STR_BAD_2);
    assert_eq!(
        Transaction::new_from_text_reader(&mut reader),
        Err(ParserError::TextWrongLineFormat(
            "DESCRIPTION: \"Record number 2\" DESCRIPTION 2: \"Rust is a fantastic language\"\n"
                .to_string()
        ))
    );
}

#[test]
fn binary_record_size_without_description() {
    assert_eq!(parser::transaction::_BinaryTransaction::_size_without_description(), 54);
    let tx = source_tx();
    let mut buffer = Vec::new();
    tx.write_as_bin_to_writer(&mut buffer).unwrap();
    assert_eq!(buffer.len(), 54 + tx.description().len());
}

#[test]
fn transaction_from_field_values() {
    let values = ["7", "TRANSFER", "1", "2", "300", "1700000000", "PENDING", "rent"];
    let mut fields = TxFields::new();
    assert!(fields.is_empty());
    for (i, v) in values.iter().enumerate() {
        fields.insert(i, v.to_string());
    }
    assert!(fields.has_all_fields());
    assert_eq!(fields.get(4), Some(&"300".to_string()));
    let tx = Transaction::tx_from_tx_hashmap(&fields).unwrap();
    assert_eq!(tx.tx_id(), 7);
    assert_eq!(tx.tx_type(), TransactionType::Transfer);
    assert_eq!(tx.status(), TransactionStatus::Pending);
    assert_eq!(tx.description(), "rent");

    fields.insert(0, "seven".to_string());
    assert_eq!(Transaction::tx_from_tx_hashmap(&fields), Err(ParserError::TextWrongFieldValue));
    let mut partial = TxFields::new();
    partial.insert(1, "DEPOSIT".to_string());
    assert_eq!(Transaction::tx_from_tx_hashmap(&partial), Err(ParserError::TextMissingField));
}

fn bin_of(tx: &Transaction) -> Vec<u8> {
    let mut buffer = Vec::new();
    tx.write_as_bin_to_writer(&mut buffer).unwrap();
    buffer
}

#[test]
fn bin_record_errors() {
    let buffer = bin_of(&source_tx());

    let mut empty = ByteReader::new(Vec::new());
    assert_eq!(Transaction::new_from_bin_reader(&mut empty), Err(ParserError::EOFEncountered));

    let truncated = buffer[..buffer.len() - 1].to_vec();
    assert_eq!(
        Transaction::new_from_bin_reader(&mut ByteReader::new(truncated)),
        Err(ParserError::BinTxReadError)
    );

    let mut short_body = vec![0x59, 0x50, 0x42, 0x4E, 0, 0, 0, 10];
    short_body.extend_from_slice(&[0u8; 10]);
    assert_eq!(
        Transaction::new_from_bin_reader(&mut ByteReader::new(short_body)),
        Err(ParserError::BinReadLessThanBody)
    );

    let mut bad_utf8 = buffer.clone();
    bad_utf8[54] = 0xff;
    assert_eq!(
        Transaction::new_from_bin_reader(&mut ByteReader::new(bad_utf8)),
        Err(ParserError::BinReadNonUtf8Symbols)
    );
}

#[test]
fn text_record_errors() {
    let mut missing = reader_of("TX_ID: 1\nAMOUNT: 2\n\n");
    assert_eq!(
        Transaction::new_from_text_reader(&mut missing),
        Err(ParserError::TextMissingRequiredFields)
    );
    let mut bad_line = ByteReader::new(vec![b'T', 0xff, b'\n']);
    assert_eq!(
        Transaction::new_from_text_reader(&mut bad_line),
        Err(ParserError::TextLineReadError)
    );
    let mut only_comments = reader_of("# nothing here\n\n   \n");
    assert_eq!(
        Transaction::new_from_text_reader(&mut only_comments),
        Err(ParserError::EOFEncountered)
    );
    let mut empty_csv = reader_of("");
    assert_eq!(Transaction::new_from_csv_reader(&mut empty_csv), Err(ParserError::EOFEncountered));
}

#[test]
fn bin_amount_keeps_its_bits() {
    let tx = Transaction::new(
        u64::MAX,
        TransactionType::Withdrawal,
        0,
        u64::MAX,
        u64::MAX,
        0,
        TransactionStatus::Success,
        "Ω".to_string(),
    );
    let mut reader = ByteReader::new(bin_of(&tx));
    assert_eq!(Transaction::new_from_bin_reader(&mut reader), Ok(tx));
}
