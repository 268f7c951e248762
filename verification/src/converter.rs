//! The format converter: a report read in one format is written in another.
use vstd::prelude::*;
use vstd::utf8::encode_utf8;
use crate::bin_format::BinFormatIO;
use crate::csv_format::CsvFormatIO;
use crate::error::{ErrorModel, ParserError, error_text};
use crate::reader::ByteReader;
use crate::report::{
    Report, csv_report, bin_records, text_records, csv_report_bytes, bin_bytes, text_bytes,
    law_bin_report_roundtrip, law_csv_report_written_reads_back, law_text_report_roundtrip,
};
use crate::strings::{lowercase, to_lowercase, str_eq, push_str};
use crate::text_format::TextFormatIO;
use crate::text_record::text_safe;
use crate::transaction::{TxModel, csv_safe};

verus! {

/// Whether a lowercased format name is one of the three formats.
pub open spec fn supported(lowered: Seq<char>) -> bool {
    lowered == "csv"@ || lowered == "txt"@ || lowered == "bin"@
}

/// The message for a format name that is not supported, given what the
/// name was meant for (input or output).
pub open spec fn format_error_text(format: Seq<char>, in_or_out_type: Seq<char>) -> Seq<char> {
    "Неверный формат '"@ + format + "' для "@ + in_or_out_type
        + ". Поддерживаемые форматы: csv, txt, bin"@
}

/// Whether a lowercased format name is `csv`, `txt` or `bin`.
pub fn is_supported_format(lowered: &str) -> (r: bool)
    ensures
        r == supported(lowered@),
{
    str_eq(lowered, "csv") || str_eq(lowered, "txt") || str_eq(lowered, "bin")
}

/// The message for an unsupported format name.
pub fn format_error_message(format: &str, in_or_out_type: &str) -> (r: String)
    ensures
        r@ == format_error_text(format@, in_or_out_type@),
{
    let mut msg = String::new();
    push_str(&mut msg, "Неверный формат '");
    push_str(&mut msg, format);
    push_str(&mut msg, "' для ");
    push_str(&mut msg, in_or_out_type);
    push_str(&mut msg, ". Поддерживаемые форматы: csv, txt, bin");
    assert(msg@ =~= format_error_text(format@, in_or_out_type@));
    msg
}

/// Checks a format name, in any letter case; `in_or_out_type` says what it
/// is for and goes into the message.
pub fn validate_format(format: &str, in_or_out_type: &str) -> (r: Result<(), String>)
    ensures
        supported(lowercase(format@)) ==> r is Ok,
        !supported(lowercase(format@)) ==> (r matches Err(m) && m@ == format_error_text(
            format@,
            in_or_out_type@,
        )),
{
    let lowered = to_lowercase(format);
    if is_supported_format(lowered.as_str()) {
        Ok(())
    } else {
        Err(format_error_message(format, in_or_out_type))
    }
}

/// Why a conversion failed.
pub enum ConvertError {
    /// A format name that cannot be used, with the message.
    WrongFormat(String),
    /// The input could not be read.
    Parser(ParserError),
}

/// A `ConvertError` with its texts as character sequences.
pub enum ConvertErrorModel {
    WrongFormat(Seq<char>),
    Parser(ErrorModel),
}

impl View for ConvertError {
    type V = ConvertErrorModel;

    open spec fn view(&self) -> ConvertErrorModel {
        match self {
            ConvertError::WrongFormat(m) => ConvertErrorModel::WrongFormat(m@),
            ConvertError::Parser(e) => ConvertErrorModel::Parser(e@),
        }
    }
}

impl ConvertError {
    /// The text that describes the failure to the user.
    pub fn message(&self) -> (r: String)
        ensures
            r@ == match self@ {
                ConvertErrorModel::WrongFormat(m) => m,
                ConvertErrorModel::Parser(e) => error_text(e),
            },
    {
        match self {
            ConvertError::WrongFormat(m) => m.clone(),
            ConvertError::Parser(e) => e.message(),
        }
    }
}

/// The message for a format that the converter cannot use; it names the
/// input format in both directions.
pub open spec fn wrong_format_text(input_format: Seq<char>) -> Seq<char> {
    "Неверный формат: "@ + input_format
}

/// What reading a report in the (lowercased) format gives, if the format
/// is one of the three.
pub open spec fn read_as(lowered: Seq<char>, data: Seq<u8>) -> Option<
    Result<Seq<TxModel>, ErrorModel>,
> {
    if lowered == "txt"@ {
        Some(text_records(data))
    } else if lowered == "bin"@ {
        Some(bin_records(data))
    } else if lowered == "csv"@ {
        Some(csv_report(data))
    } else {
        None
    }
}

/// The bytes of a report written in the format, if it is one of the three
/// (the name is taken as it is written).
pub open spec fn write_as(format: Seq<char>, ts: Seq<TxModel>) -> Option<Seq<u8>> {
    if format == "csv"@ {
        Some(csv_report_bytes(ts))
    } else if format == "txt"@ {
        Some(text_bytes(ts))
    } else if format == "bin"@ {
        Some(bin_bytes(ts))
    } else {
        None
    }
}

/// What converting `data` gives: read in the lowercased input format, then
/// written in the output format.
pub open spec fn conversion(
    lowered_input: Seq<char>,
    input_format: Seq<char>,
    output_format: Seq<char>,
    data: Seq<u8>,
) -> Result<Seq<u8>, ConvertErrorModel> {
    match read_as(lowered_input, data) {
        None => Err(ConvertErrorModel::WrongFormat(wrong_format_text(input_format))),
        Some(Err(e)) => Err(ConvertErrorModel::Parser(e)),
        Some(Ok(ts)) => match write_as(output_format, ts) {
            None => Err(ConvertErrorModel::WrongFormat(wrong_format_text(input_format))),
            Some(bytes) => Ok(bytes),
        },
    }
}

/// The result of a conversion as values.
pub open spec fn conversion_view(r: Result<Vec<u8>, ConvertError>) -> Result<
    Seq<u8>,
    ConvertErrorModel,
> {
    match r {
        Ok(v) => Ok(v@),
        Err(e) => Err(e@),
    }
}

/// Converts `input` from the format `lowered_input` (the input format name
/// already lowercased) to `output_format`.
pub fn convert_lowered(
    lowered_input: &str,
    input_format: &str,
    output_format: &str,
    input: Vec<u8>,
) -> (r: Result<Vec<u8>, ConvertError>)
    ensures
        conversion_view(r) == conversion(lowered_input@, input_format@, output_format@, input@),
{
    let ghost data = input@;
    let mut reader = ByteReader::new(input);
    let read = if str_eq(lowered_input, "txt") {
        Report::new_from_text_reader(&mut reader)
    } else if str_eq(lowered_input, "bin") {
        Report::new_from_bin_reader(&mut reader)
    } else if str_eq(lowered_input, "csv") {
        Report::new_from_csv_reader(&mut reader)
    } else {
        let mut msg = String::new();
        push_str(&mut msg, "Неверный формат: ");
        push_str(&mut msg, input_format);
        return Err(ConvertError::WrongFormat(msg));
    };
    let mut report = match read {
        Ok(report) => report,
        Err(e) => {
            return Err(ConvertError::Parser(e));
        },
    };
    let mut out: Vec<u8> = Vec::new();
    let written = if str_eq(output_format, "csv") {
        report.write_as_csv_to_writer(&mut out)
    } else if str_eq(output_format, "txt") {
        report.write_as_text_to_writer(&mut out)
    } else if str_eq(output_format, "bin") {
        report.write_as_bin_to_writer(&mut out)
    } else {
        let mut msg = String::new();
        push_str(&mut msg, "Неверный формат: ");
        push_str(&mut msg, input_format);
        return Err(ConvertError::WrongFormat(msg));
    };
    match written {
        Ok(()) => {
            assert(out@ =~= write_as(output_format@, report@)->0);
            Ok(out)
        },
        Err(e) => Err(ConvertError::Parser(e)),
    }
}

/// Converts `input` from `input_format` (in any letter case) to
/// `output_format` (as written).
pub fn convert_report(input_format: &str, output_format: &str, input: Vec<u8>) -> (r: Result<
    Vec<u8>,
    ConvertError,
>)
    ensures
        conversion_view(r) == conversion(
            lowercase(input_format@),
            input_format@,
            output_format@,
            input@,
        ),
{
    let lowered = to_lowercase(input_format);
    convert_lowered(lowered.as_str(), input_format, output_format, input)
}

/// A converted report reads back, in the format it was converted to, as
/// the transactions read from the input. Each format asks that its records
/// read back as themselves.
pub proof fn law_conversion_reads_back(
    lowered_input: Seq<char>,
    input_format: Seq<char>,
    output_format: Seq<char>,
    data: Seq<u8>,
    ts: Seq<TxModel>,
)
    requires
        read_as(lowered_input, data) == Some(Ok::<Seq<TxModel>, ErrorModel>(ts)),
        output_format == "txt"@ || output_format == "bin"@ || output_format == "csv"@,
        output_format == "txt"@ ==> forall|i: int| 0 <= i < ts.len() ==> text_safe(#[trigger] ts[i]),
        output_format == "bin"@ ==> forall|i: int|
            0 <= i < ts.len() ==> 46 + encode_utf8(#[trigger] ts[i].description).len()
                < 0x1_0000_0000,
        output_format == "csv"@ ==> forall|i: int| 0 <= i < ts.len() ==> csv_safe(#[trigger] ts[i]),
    ensures
        conversion(lowered_input, input_format, output_format, data) matches Ok(bytes)
            && read_as(output_format, bytes) == Some(Ok::<Seq<TxModel>, ErrorModel>(ts)),
{
    lemma_format_names();
    let out = if output_format == "csv"@ {
        csv_report_bytes(ts)
    } else if output_format == "txt"@ {
        text_bytes(ts)
    } else {
        bin_bytes(ts)
    };
    assert(write_as(output_format, ts) == Some(out));
    assert(conversion(lowered_input, input_format, output_format, data) == Ok::<
        Seq<u8>,
        ConvertErrorModel,
    >(out));
    if output_format == "txt"@ {
        law_text_report_roundtrip(ts);
        assert(read_as(output_format, out) == Some(text_records(out)));
    } else if output_format == "bin"@ {
        law_bin_report_roundtrip(ts);
        assert(read_as(output_format, out) == Some(bin_records(out)));
    } else {
        law_csv_report_written_reads_back(ts);
        assert(read_as(output_format, out) == Some(csv_report(out)));
    }
}

/// The three format names differ.
proof fn lemma_format_names()
    ensures
        "txt"@ != "bin"@,
        "txt"@ != "csv"@,
        "bin"@ != "csv"@,
{
    reveal_strlit("txt");
    reveal_strlit("bin");
    reveal_strlit("csv");
    assert("txt"@[0] != "bin"@[0]);
    assert("txt"@[0] != "csv"@[0]);
    assert("bin"@[0] != "csv"@[0]);
}

} // verus!
