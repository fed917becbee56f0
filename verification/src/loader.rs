//! Recognizing log file contents: formats that cannot be read, and the
//! decoding of text logs.

use vstd::prelude::*;

use crate::text::{decode_utf8_lossy, utf8_lossy};

verus! {

/// What `encoding_rs::UTF_16LE.decode` makes of a byte sequence: the
/// decoded text and whether malformed sequences were replaced.
pub uninterp spec fn utf16le_decode(bytes: Seq<u8>) -> (Seq<char>, bool);

/// What `encoding_rs::UTF_16BE.decode` makes of a byte sequence: the
/// decoded text and whether malformed sequences were replaced.
pub uninterp spec fn utf16be_decode(bytes: Seq<u8>) -> (Seq<char>, bool);

/// Decodes UTF-16LE text (a leading byte order mark is removed).
///
/// Trusted: calls `encoding_rs::Encoding::decode` on `UTF_16LE`. The
/// contract claims only that the text and the error flag are a function of
/// the bytes.
#[verifier::external_body]
fn decode_utf16le(bytes: &[u8]) -> (res: (String, bool))
    ensures
        (res.0@, res.1) == utf16le_decode(bytes@),
{
    let (text, _, had_errors) = encoding_rs::UTF_16LE.decode(bytes);
    (text.into_owned(), had_errors)
}

/// Decodes UTF-16BE text (a leading byte order mark is removed).
///
/// Trusted: calls `encoding_rs::Encoding::decode` on `UTF_16BE`. The
/// contract claims only that the text and the error flag are a function of
/// the bytes.
#[verifier::external_body]
fn decode_utf16be(bytes: &[u8]) -> (res: (String, bool))
    ensures
        (res.0@, res.1) == utf16be_decode(bytes@),
{
    let (text, _, had_errors) = encoding_rs::UTF_16BE.decode(bytes);
    (text.into_owned(), had_errors)
}

/// Why the text of a log file cannot be decoded.
#[derive(Clone, Copy, Debug, PartialEq, Eq)]
pub enum TextDecodeError {
    /// A UTF-16LE byte order mark, but malformed UTF-16LE.
    Utf16LeMalformed,
    /// A UTF-16BE byte order mark, but malformed UTF-16BE.
    Utf16BeMalformed,
}

impl TextDecodeError {
    /// The text that describes the error.
    pub fn message(&self) -> (m: &'static str)
        ensures
            m@ == (match *self {
                TextDecodeError::Utf16LeMalformed =>
                    "File appears to be UTF-16 LE but has decoding errors"@,
                TextDecodeError::Utf16BeMalformed =>
                    "File appears to be UTF-16 BE but has decoding errors"@,
            }),
    {
        match *self {
            TextDecodeError::Utf16LeMalformed =>
                "File appears to be UTF-16 LE but has decoding errors",
            TextDecodeError::Utf16BeMalformed =>
                "File appears to be UTF-16 BE but has decoding errors",
        }
    }
}

/// The text of a log file: UTF-16 when it starts with a UTF-16 byte order
/// mark, UTF-8 otherwise (malformed sequences replaced).
pub open spec fn spec_log_text(data: Seq<u8>) -> Result<Seq<char>, TextDecodeError> {
    if data.len() >= 2 && data[0] == 0xFF && data[1] == 0xFE {
        let (text, had_errors) = utf16le_decode(data);
        if had_errors {
            Err(TextDecodeError::Utf16LeMalformed)
        } else {
            Ok(text)
        }
    } else if data.len() >= 2 && data[0] == 0xFE && data[1] == 0xFF {
        let (text, had_errors) = utf16be_decode(data);
        if had_errors {
            Err(TextDecodeError::Utf16BeMalformed)
        } else {
            Ok(text)
        }
    } else {
        Ok(utf8_lossy(data))
    }
}

/// Decodes the text of a log file: UTF-16 when it starts with a UTF-16 byte
/// order mark, UTF-8 otherwise (malformed sequences replaced).
pub fn decode_log_text(data: &[u8]) -> (res: Result<String, TextDecodeError>)
    ensures
        res matches Ok(s) ==> spec_log_text(data@) == Ok::<Seq<char>, TextDecodeError>(s@),
        res matches Err(e) ==> spec_log_text(data@) == Err::<Seq<char>, TextDecodeError>(e),
{
    if data.len() >= 2 && data[0] == 0xFF && data[1] == 0xFE {
        let (text, had_errors) = decode_utf16le(data);
        if had_errors {
            Err(TextDecodeError::Utf16LeMalformed)
        } else {
            Ok(text)
        }
    } else if data.len() >= 2 && data[0] == 0xFE && data[1] == 0xFF {
        let (text, had_errors) = decode_utf16be(data);
        if had_errors {
            Err(TextDecodeError::Utf16BeMalformed)
        } else {
            Ok(text)
        }
    } else {
        Ok(decode_utf8_lossy(data))
    }
}

/// Log formats that are recognized but cannot be read.
#[derive(Clone, Copy, Debug, PartialEq, Eq)]
pub enum ProprietaryFormat {
    /// Haltech .hlgzip (starts with "HEPS").
    HaltechHlgzip,
    /// AEM .daq (starts with "EMERALD").
    AemDaq,
}

impl ProprietaryFormat {
    /// The text that explains how to get a readable log instead.
    pub fn message(&self) -> (m: &'static str)
        ensures
            m@ == (match *self {
                ProprietaryFormat::HaltechHlgzip => "This is a Haltech .hlgzip file which uses proprietary compression.\n\nTo use this log in UltraLog, please export it as CSV from Haltech's ESP or NSP software:\n1. Open the .hlgzip file in Haltech ESP/NSP\n2. Go to File → Export → CSV\n3. Load the exported .csv file in UltraLog"@,
                ProprietaryFormat::AemDaq => "This is an AEM .daq file which uses a proprietary format.\n\nTo use this log in UltraLog, please export it as CSV from AEM's software:\n1. Open the .daq file in AEMdata or AEM Pro\n2. Go to File → Export → CSV\n3. Load the exported .csv file in UltraLog"@,
            }),
    {
        match *self {
            ProprietaryFormat::HaltechHlgzip => "This is a Haltech .hlgzip file which uses proprietary compression.\n\nTo use this log in UltraLog, please export it as CSV from Haltech's ESP or NSP software:\n1. Open the .hlgzip file in Haltech ESP/NSP\n2. Go to File → Export → CSV\n3. Load the exported .csv file in UltraLog",
            ProprietaryFormat::AemDaq => "This is an AEM .daq file which uses a proprietary format.\n\nTo use this log in UltraLog, please export it as CSV from AEM's software:\n1. Open the .daq file in AEMdata or AEM Pro\n2. Go to File → Export → CSV\n3. Load the exported .csv file in UltraLog",
        }
    }
}

/// The unreadable format that the data starts with, if any.
pub open spec fn spec_proprietary_format(data: Seq<u8>) -> Option<ProprietaryFormat> {
    if data.len() >= 4 && data.subrange(0, 4) == seq![0x48u8, 0x45u8, 0x50u8, 0x53u8] {
        Some(ProprietaryFormat::HaltechHlgzip)
    } else if data.len() >= 7 && data.subrange(0, 7) == seq![
        0x45u8,
        0x4Du8,
        0x45u8,
        0x52u8,
        0x41u8,
        0x4Cu8,
        0x44u8,
    ] {
        Some(ProprietaryFormat::AemDaq)
    } else {
        None
    }
}

/// Recognizes the log formats that cannot be read.
pub fn detect_proprietary_format(data: &[u8]) -> (res: Option<ProprietaryFormat>)
    ensures
        res == spec_proprietary_format(data@),
{
    if data.len() >= 4 {
        let heps = data[0] == 0x48 && data[1] == 0x45 && data[2] == 0x50 && data[3] == 0x53;
        assert(heps == (data@.subrange(0, 4) =~= seq![0x48u8, 0x45u8, 0x50u8, 0x53u8]));
        if heps {
            return Some(ProprietaryFormat::HaltechHlgzip);
        }
    }
    if data.len() >= 7 {
        let emerald = data[0] == 0x45 && data[1] == 0x4D && data[2] == 0x45 && data[3] == 0x52
            && data[4] == 0x41 && data[5] == 0x4C && data[6] == 0x44;
        assert(emerald == (data@.subrange(0, 7) =~= seq![
            0x45u8,
            0x4Du8,
            0x45u8,
            0x52u8,
            0x41u8,
            0x4Cu8,
            0x44u8,
        ]));
        if emerald {
            return Some(ProprietaryFormat::AemDaq);
        }
    }
    None
}

} // verus!
