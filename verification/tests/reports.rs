use parser::bin_format::BinFormatIO;
use parser::converter::{convert_report, validate_format, ConvertError};
use parser::csv_format::CsvFormatIO;
use parser::error::ParserError;
use parser::reader::ByteReader;
use parser::report::Report;
use parser::text_format::TextFormatIO;
use parser::transaction::{Transaction, TransactionStatus, TransactionType};

const CSV_REPORT: &str = "TX_ID,TX_TYPE,FROM_USER_ID,TO_USER_ID,AMOUNT,TIMESTAMP,STATUS,DESCRIPTION
1,DEPOSIT,100,200,1000,123456789,SUCCESS,Test transaction
2,TRANSFER,100,0,500,123456790,FAILURE,Withdrawal
";

const TEXT_REPORT: &str = "
# Record 1 (DEPOSIT)
TX_TYPE: DEPOSIT
TO_USER_ID: 9223372036854775807
FROM_USER_ID: 0
TIMESTAMP: 1633036860000
DESCRIPTION: \"Record number 1\"
TX_ID: 1000000000000000
AMOUNT: 100
STATUS: FAILURE

# Record 2 (TRANSFER)
DESCRIPTION: \"Record number 2\"
TIMESTAMP: 1633036920000
STATUS: PENDING
AMOUNT: 200
TX_ID: 1000000000000001
TX_TYPE: TRANSFER
FROM_USER_ID: 9223372036854775807
TO_USER_ID: 9223372036854775807

";

fn reader_of(s: &str) -> ByteReader {
    ByteReader::new(s.as_bytes().to_vec())
}

fn sample_report_from_csv() -> Report {
    Report::new_from_csv_reader(&mut reader_of(CSV_REPORT)).expect("CSV report")
}

#[test]
fn csv_report_skips_header_and_reads_every_line() {
    let report = sample_report_from_csv();
    let txs = report.get_transactions();
    assert_eq!(txs.len(), 2);
    assert_eq!(
        txs[0],
        Transaction::new(
            1,
            TransactionType::Deposit,
            100,
            200,
            1000,
            123456789,
            TransactionStatus::Success,
            "Test transaction".to_string()
        )
    );
    assert_eq!(txs[1].tx_type(), TransactionType::Transfer);
    assert_eq!(txs[1].status(), TransactionStatus::Failure);
    assert_eq!(txs[1].description(), "Withdrawal");
}

#[test]
fn text_report_reads_records_in_any_field_order() {
    let report = Report::new_from_text_reader(&mut reader_of(TEXT_REPORT)).expect("text report");
    let txs = report.get_transactions();
    assert_eq!(txs.len(), 2);
    assert_eq!(txs[0].tx_id(), 1000000000000000);
    assert_eq!(txs[0].to_user_id(), 9223372036854775807);
    assert_eq!(txs[0].description(), "\"Record number 1\"");
    assert_eq!(txs[1].status(), TransactionStatus::Pending);
    assert_eq!(txs[1].amount(), 200);
}

#[test]
fn text_report_without_a_final_blank_line_fails() {
    let trimmed = TEXT_REPORT.trim_end();
    assert_eq!(
        Report::new_from_text_reader(&mut reader_of(trimmed)).err(),
        Some(ParserError::TextTxReadError)
    );
}

#[test]
fn report_roundtrips_through_every_format() {
    let report = sample_report_from_csv();

    let mut bin = Vec::new();
    assert_eq!(report.write_as_bin_to_writer(&mut bin), Ok(()));
    let from_bin = Report::new_from_bin_reader(&mut ByteReader::new(bin)).expect("bin");
    assert_eq!(report.compare_full(&from_bin), Ok(()));

    let mut text_source = Report::new_from_bin_reader(&mut {
        let mut b = Vec::new();
        report.write_as_bin_to_writer(&mut b).unwrap();
        ByteReader::new(b)
    })
    .unwrap();
    let mut text = Vec::new();
    assert_eq!(text_source.write_as_text_to_writer(&mut text), Ok(()));
    let from_text = Report::new_from_text_reader(&mut ByteReader::new(text)).expect("text");
    assert_eq!(report.compare_full(&from_text), Ok(()));

    let mut csv = Vec::new();
    assert_eq!(report.write_as_csv_to_writer(&mut csv), Ok(()));
    let from_csv = Report::new_from_csv_reader(&mut ByteReader::new(csv)).expect("csv");
    assert_eq!(report.compare_full(&from_csv), Ok(()));
}

#[test]
fn csv_report_written_starts_with_its_header_and_reads_back() {
    let report = sample_report_from_csv();
    let mut csv = Vec::new();
    assert_eq!(report.write_as_csv_to_writer(&mut csv), Ok(()));
    assert_eq!(String::from_utf8(csv.clone()).unwrap(), CSV_REPORT);

    let mut one = Report::new();
    one.get_transactions_mut().push(Transaction::new(
        5,
        TransactionType::Withdrawal,
        7,
        0,
        250,
        1700000000,
        TransactionStatus::Pending,
        "cash".to_string(),
    ));
    let mut written = Vec::new();
    assert_eq!(one.write_as_csv_to_writer(&mut written), Ok(()));
    let back = Report::new_from_csv_reader(&mut ByteReader::new(written)).expect("csv");
    assert_eq!(back.get_transactions(), one.get_transactions());

    let mut empty = Vec::new();
    assert_eq!(Report::new().write_as_csv_to_writer(&mut empty), Ok(()));
    let none = Report::new_from_csv_reader(&mut ByteReader::new(empty)).unwrap();
    assert_eq!(none.get_transactions().len(), 0);
}

#[test]
fn compare_full_reports_lengths_then_first_difference() {
    let report = sample_report_from_csv();
    let empty = Report::new();
    assert_eq!(report.compare_full(&empty), Err(ParserError::ReportLengthsAreNotEqual(2, 0)));

    let other_csv = CSV_REPORT.replace("Withdrawal", "Other");
    let other = Report::new_from_csv_reader(&mut reader_of(&other_csv)).unwrap();
    let expected = Err(ParserError::NonEqualTransactionFound(
        report.get_transactions()[1].as_str(),
        other.get_transactions()[1].as_str(),
    ));
    assert_eq!(report.compare_full(&other), expected);
    assert_eq!(Report::new().compare_full(&Report::new()), Ok(()));
}

#[test]
fn transaction_text_record_layout() {
    let tx = Transaction::new(
        7,
        TransactionType::Withdrawal,
        1,
        2,
        3,
        4,
        TransactionStatus::Pending,
        "note".to_string(),
    );
    assert_eq!(
        tx.as_str(),
        "# Запись о транзакции\nTX_ID: 7\nTX_TYPE: WITHDRAWAL\nFROM_USER_ID: 1\nTO_USER_ID: 2\nAMOUNT: 3\nTIMESTAMP: 4\nSTATUS: PENDING\nDESCRIPTION: note\n\n"
    );
}

#[test]
fn bin_report_stops_at_first_bad_record() {
    let report = sample_report_from_csv();
    let mut bin = Vec::new();
    report.write_as_bin_to_writer(&mut bin).unwrap();
    let second = bin.len() / 2;
    let mut broken = bin.clone();
    let first_len = 8 + 46 + "Test transaction".len();
    broken[first_len] = b'X';
    assert!(second > 0);
    assert_eq!(
        Report::new_from_bin_reader(&mut ByteReader::new(broken)).err(),
        Some(ParserError::BinWrongMagicEncountered)
    );
    // A trailing piece shorter than a header ends the report.
    bin.extend_from_slice(&[1, 2, 3]);
    let again = Report::new_from_bin_reader(&mut ByteReader::new(bin)).unwrap();
    assert_eq!(again.get_transactions().len(), 2);
}

#[test]
fn csv_report_errors() {
    assert_eq!(
        Report::new_from_csv_reader(&mut ByteReader::new(vec![0xff, b'\n'])).err(),
        Some(ParserError::CsvLineReadError)
    );
    let bad = "H\n1,DEPOSIT,x,2,3,4,SUCCESS,d\n";
    assert_eq!(
        Report::new_from_csv_reader(&mut reader_of(bad)).err(),
        Some(ParserError::CsvU64IsNotParsed("x".to_string()))
    );
    let bad_status = "H\n1,DEPOSIT,1,2,3,4,DONE,d\n";
    assert_eq!(
        Report::new_from_csv_reader(&mut reader_of(bad_status)).err(),
        Some(ParserError::CsvUnknownTxStatus("DONE".to_string()))
    );
    let empty = Report::new_from_csv_reader(&mut reader_of("")).unwrap();
    assert_eq!(empty.get_transactions().len(), 0);
}

#[test]
fn get_transactions_mut_changes_the_report() {
    let mut report = sample_report_from_csv();
    report.get_transactions_mut().pop();
    assert_eq!(report.get_transactions().len(), 1);
}

#[test]
fn validate_format_accepts_any_case() {
    assert_eq!(validate_format("CSV", "input"), Ok(()));
    assert_eq!(validate_format("txt", "output"), Ok(()));
    assert_eq!(validate_format("Bin", "input"), Ok(()));
    assert_eq!(
        validate_format("xml", "input"),
        Err("Неверный формат 'xml' для input. Поддерживаемые форматы: csv, txt, bin".to_string())
    );
}

#[test]
fn convert_csv_to_text_and_back() {
    let text = match convert_report("CSV", "txt", CSV_REPORT.as_bytes().to_vec()) {
        Ok(bytes) => bytes,
        Err(_) => panic!("conversion failed"),
    };
    let report = Report::new_from_text_reader(&mut ByteReader::new(text)).unwrap();
    assert_eq!(report.compare_full(&sample_report_from_csv()), Ok(()));
}

#[test]
fn convert_reports_wrong_formats_and_read_errors() {
    match convert_report("xml", "csv", Vec::new()) {
        Err(ConvertError::WrongFormat(m)) => assert_eq!(m, "Неверный формат: xml"),
        _ => panic!("expected a format error"),
    }
    match convert_report("txt", "CSV", TEXT_REPORT.as_bytes().to_vec()) {
        Err(ConvertError::WrongFormat(m)) => assert_eq!(m, "Неверный формат: txt"),
        _ => panic!("expected a format error"),
    }
    match convert_report("bin", "csv", vec![0, 0, 0, 0, 0, 0, 0, 0]) {
        Err(ConvertError::Parser(e)) => assert_eq!(e, ParserError::BinWrongMagicEncountered),
        _ => panic!("expected a read error"),
    }
    match convert_report("bin", "csv", Vec::new()) {
        Ok(bytes) => assert_eq!(
            bytes,
            b"TX_ID,TX_TYPE,FROM_USER_ID,TO_USER_ID,AMOUNT,TIMESTAMP,STATUS,DESCRIPTION\n".to_vec()
        ),
        Err(_) => panic!("an empty binary input is an empty report"),
    }
}

#[test]
fn error_messages() {
    assert_eq!(ParserError::EOFEncountered.message(), "Конец файла");
    assert_eq!(
        ParserError::CsvUnknownTxType("X".to_string()).message(),
        "Поле типа не распарсено X"
    );
    assert_eq!(
        ParserError::ReportLengthsAreNotEqual(3, 10).message(),
        "Разные длины полученных отчётов: 3 и 10"
    );
    assert_eq!(
        ParserError::NonEqualTransactionFound("a".to_string(), "b".to_string()).message(),
        "Найдены отличающиеся транзакции:\n Исходный отчёт: \na Сравниваемый отчёт: \nb"
    );
    assert_eq!(
        ConvertError::Parser(ParserError::BinWrongMagicEncountered).message(),
        "Встретилось неверное Magic, конец обработки"
    );
    assert_eq!(ConvertError::WrongFormat("w".to_string()).message(), "w");
}
