//! The errors of reading, writing and comparing reports.
use vstd::prelude::*;
use crate::chars::{decimal, push_decimal};
use crate::strings::push_str;

verus! {

/// What can go wrong while reading, writing or comparing reports.
#[derive(PartialEq, Debug)]
pub enum ParserError {
    CsvLineReadError,
    CsvWrongTransactionFormat(String),
    CsvTxWriteError,
    CsvU64IsNotParsed(String),
    CsvUnknownTxType(String),
    CsvUnknownTxStatus(String),
    BinTxWriteError,
    BinTxReadError,
    BinWrongMagicEncountered,
    BinReadLessThanBody,
    BinReadDescLenIsExcessive,
    BinReadNonUtf8Symbols,
    TextLineReadError,
    TextTxWriteError,
    TextTxReadError,
    TextMissingField,
    TextMissingFieldValue,
    TextWrongFieldValue,
    TextWrongLineFormat(String),
    TextWrongFieldName(String),
    TextMissingRequiredFields,
    ReportLengthsAreNotEqual(usize, usize),
    NonEqualTransactionFound(String, String),
    EOFEncountered,
}

/// A `ParserError` with its texts taken as character sequences.
pub enum ErrorModel {
    CsvLineReadError,
    CsvWrongTransactionFormat(Seq<char>),
    CsvTxWriteError,
    CsvU64IsNotParsed(Seq<char>),
    CsvUnknownTxType(Seq<char>),
    CsvUnknownTxStatus(Seq<char>),
    BinTxWriteError,
    BinTxReadError,
    BinWrongMagicEncountered,
    BinReadLessThanBody,
    BinReadDescLenIsExcessive,
    BinReadNonUtf8Symbols,
    TextLineReadError,
    TextTxWriteError,
    TextTxReadError,
    TextMissingField,
    TextMissingFieldValue,
    TextWrongFieldValue,
    TextWrongLineFormat(Seq<char>),
    TextWrongFieldName(Seq<char>),
    TextMissingRequiredFields,
    ReportLengthsAreNotEqual(nat, nat),
    NonEqualTransactionFound(Seq<char>, Seq<char>),
    EOFEncountered,
}

impl View for ParserError {
    type V = ErrorModel;

    open spec fn view(&self) -> ErrorModel {
        match self {
            ParserError::CsvLineReadError => ErrorModel::CsvLineReadError,
            ParserError::CsvWrongTransactionFormat(s) => ErrorModel::CsvWrongTransactionFormat(s@),
            ParserError::CsvTxWriteError => ErrorModel::CsvTxWriteError,
            ParserError::CsvU64IsNotParsed(s) => ErrorModel::CsvU64IsNotParsed(s@),
            ParserError::CsvUnknownTxType(s) => ErrorModel::CsvUnknownTxType(s@),
            ParserError::CsvUnknownTxStatus(s) => ErrorModel::CsvUnknownTxStatus(s@),
            ParserError::BinTxWriteError => ErrorModel::BinTxWriteError,
            ParserError::BinTxReadError => ErrorModel::BinTxReadError,
            ParserError::BinWrongMagicEncountered => ErrorModel::BinWrongMagicEncountered,
            ParserError::BinReadLessThanBody => ErrorModel::BinReadLessThanBody,
            ParserError::BinReadDescLenIsExcessive => ErrorModel::BinReadDescLenIsExcessive,
            ParserError::BinReadNonUtf8Symbols => ErrorModel::BinReadNonUtf8Symbols,
            ParserError::TextLineReadError => ErrorModel::TextLineReadError,
            ParserError::TextTxWriteError => ErrorModel::TextTxWriteError,
            ParserError::TextTxReadError => ErrorModel::TextTxReadError,
            ParserError::TextMissingField => ErrorModel::TextMissingField,
            ParserError::TextMissingFieldValue => ErrorModel::TextMissingFieldValue,
            ParserError::TextWrongFieldValue => ErrorModel::TextWrongFieldValue,
            ParserError::TextWrongLineFormat(s) => ErrorModel::TextWrongLineFormat(s@),
            ParserError::TextWrongFieldName(s) => ErrorModel::TextWrongFieldName(s@),
            ParserError::TextMissingRequiredFields => ErrorModel::TextMissingRequiredFields,
            ParserError::ReportLengthsAreNotEqual(a, b) => ErrorModel::ReportLengthsAreNotEqual(
                *a as nat,
                *b as nat,
            ),
            ParserError::NonEqualTransactionFound(a, b) => ErrorModel::NonEqualTransactionFound(
                a@,
                b@,
            ),
            ParserError::EOFEncountered => ErrorModel::EOFEncountered,
        }
    }
}

/// The text that describes an error to the user.
pub open spec fn error_text(e: ErrorModel) -> Seq<char> {
    match e {
        ErrorModel::CsvLineReadError => "Ошибка чтения csv-строки"@,
        ErrorModel::CsvWrongTransactionFormat(s) => "Встречена транзакция с неверным форматом "@ + s,
        ErrorModel::CsvTxWriteError => "Ошибка записи csv-строки"@,
        ErrorModel::CsvU64IsNotParsed(s) => "Поле значения не распарсено "@ + s,
        ErrorModel::CsvUnknownTxType(s) => "Поле типа не распарсено "@ + s,
        ErrorModel::CsvUnknownTxStatus(s) => "Поле статуса не распарсено "@ + s,
        ErrorModel::BinTxWriteError => "Ошибка записи bin-данных"@,
        ErrorModel::BinTxReadError => "Ошибка чтения bin-данных"@,
        ErrorModel::BinWrongMagicEncountered => "Встретилось неверное Magic, конец обработки"@,
        ErrorModel::BinReadLessThanBody => "Прочитано меньше данных, чем указанная длина Body"@,
        ErrorModel::BinReadDescLenIsExcessive => "Указана слишком большая длина Description, выходящая за рамки Body"@,
        ErrorModel::BinReadNonUtf8Symbols => "Встречены не UTF-8 символы"@,
        ErrorModel::TextLineReadError => "Ошибка чтения текстовой строки"@,
        ErrorModel::TextTxWriteError => "Ошибка записи текстовой строки"@,
        ErrorModel::TextTxReadError => "Ошибка чтения текстовой строки"@,
        ErrorModel::TextMissingField => "Отсутствует поле"@,
        ErrorModel::TextMissingFieldValue => "Отсутствует значение"@,
        ErrorModel::TextWrongFieldValue => "Ошибка парсинга значения"@,
        ErrorModel::TextWrongLineFormat(s) => "Неверный формат строки: "@ + s,
        ErrorModel::TextWrongFieldName(s) => "Встречено недопустимое слово "@ + s,
        ErrorModel::TextMissingRequiredFields => "Не все поля присутствуют в транзакции"@,
        ErrorModel::EOFEncountered => "Конец файла"@,
        ErrorModel::ReportLengthsAreNotEqual(a, b) => "Разные длины полученных отчётов: "@ + decimal(a)
            + " и "@ + decimal(b),
        ErrorModel::NonEqualTransactionFound(a, b) => "Найдены отличающиеся транзакции:\n Исходный отчёт: \n"@
            + a + " Сравниваемый отчёт: \n"@ + b,
    }
}

impl ParserError {
    /// The text that describes the error to the user.
    pub fn message(&self) -> (r: String)
        ensures
            r@ == error_text(self@),
    {
        match self {
            ParserError::CsvLineReadError => "Ошибка чтения csv-строки".to_owned(),
            ParserError::CsvWrongTransactionFormat(s) => {
                let mut m = "Встречена транзакция с неверным форматом ".to_owned();
                push_str(&mut m, s.as_str());
                m
            },
            ParserError::CsvTxWriteError => "Ошибка записи csv-строки".to_owned(),
            ParserError::CsvU64IsNotParsed(s) => {
                let mut m = "Поле значения не распарсено ".to_owned();
                push_str(&mut m, s.as_str());
                m
            },
            ParserError::CsvUnknownTxType(s) => {
                let mut m = "Поле типа не распарсено ".to_owned();
                push_str(&mut m, s.as_str());
                m
            },
            ParserError::CsvUnknownTxStatus(s) => {
                let mut m = "Поле статуса не распарсено ".to_owned();
                push_str(&mut m, s.as_str());
                m
            },
            ParserError::BinTxWriteError => "Ошибка записи bin-данных".to_owned(),
            ParserError::BinTxReadError => "Ошибка чтения bin-данных".to_owned(),
            ParserError::BinWrongMagicEncountered => "Встретилось неверное Magic, конец обработки".to_owned(),
            ParserError::BinReadLessThanBody => "Прочитано меньше данных, чем указанная длина Body".to_owned(),
            ParserError::BinReadDescLenIsExcessive => "Указана слишком большая длина Description, выходящая за рамки Body".to_owned(),
            ParserError::BinReadNonUtf8Symbols => "Встречены не UTF-8 символы".to_owned(),
            ParserError::TextLineReadError => "Ошибка чтения текстовой строки".to_owned(),
            ParserError::TextTxWriteError => "Ошибка записи текстовой строки".to_owned(),
            ParserError::TextTxReadError => "Ошибка чтения текстовой строки".to_owned(),
            ParserError::TextMissingField => "Отсутствует поле".to_owned(),
            ParserError::TextMissingFieldValue => "Отсутствует значение".to_owned(),
            ParserError::TextWrongFieldValue => "Ошибка парсинга значения".to_owned(),
            ParserError::TextWrongLineFormat(s) => {
                let mut m = "Неверный формат строки: ".to_owned();
                push_str(&mut m, s.as_str());
                m
            },
            ParserError::TextWrongFieldName(s) => {
                let mut m = "Встречено недопустимое слово ".to_owned();
                push_str(&mut m, s.as_str());
                m
            },
            ParserError::TextMissingRequiredFields => "Не все поля присутствуют в транзакции".to_owned(),
            ParserError::EOFEncountered => "Конец файла".to_owned(),
            ParserError::ReportLengthsAreNotEqual(a, b) => {
                let mut m = "Разные длины полученных отчётов: ".to_owned();
                push_decimal(&mut m, *a as u64);
                push_str(&mut m, " и ");
                push_decimal(&mut m, *b as u64);
                m
            },
            ParserError::NonEqualTransactionFound(a, b) => {
                let mut m = "Найдены отличающиеся транзакции:\n Исходный отчёт: \n".to_owned();
                push_str(&mut m, a.as_str());
                push_str(&mut m, " Сравниваемый отчёт: \n");
                push_str(&mut m, b.as_str());
                m
            },
        }
    }
}

} // verus!
