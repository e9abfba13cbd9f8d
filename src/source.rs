//! PDF data handed in by a client, and its validation.
use vstd::prelude::*;

use vstd::string::StringExecFns;

use crate::error::Error;

verus! {

/// PDF bytes together with a name for where they came from.
pub struct ResolvedPdf {
    pub data: Vec<u8>,
    pub source_name: String,
}

/// Whether the bytes open with the PDF signature `%PDF`.
pub open spec fn pdf_header(data: Seq<u8>) -> bool {
    &&& data.len() >= 4
    &&& data[0] == 0x25u8
    &&& data[1] == 0x50u8
    &&& data[2] == 0x44u8
    &&& data[3] == 0x46u8
}

/// What decoding a string with base64's standard alphabet and padding
/// gives: the bytes, or nothing where the string is not valid base64.
pub uninterp spec fn standard_base64_decoding(s: Seq<char>) -> Option<Seq<u8>>;

/// Relies on base64's `Engine::decode` with the `STANDARD` engine: the
/// outcome depends on the input alone.
#[verifier::external_body]
fn decode_standard_base64(input: &str) -> (r: Result<Vec<u8>, base64::DecodeError>)
    ensures
        match r {
            Ok(d) => standard_base64_decoding(input@) == Some(d@),
            Err(_) => standard_base64_decoding(input@) is None,
        },
{
    base64::Engine::decode(&base64::engine::general_purpose::STANDARD, input)
}

/// Whether the bytes open with the PDF signature `%PDF`.
pub fn has_pdf_header(data: &[u8]) -> (r: bool)
    ensures
        r == pdf_header(data@),
{
    data.len() >= 4 && data[0] == 0x25u8 && data[1] == 0x50u8 && data[2] == 0x44u8 && data[3]
        == 0x46u8
}

/// The outcome owed for decoded base64 bytes `d`: the bytes named
/// `<base64>` when they carry the PDF signature, else an invalid-PDF error.
pub open spec fn decoded_outcome(d: Seq<u8>, r: Result<ResolvedPdf, Error>) -> bool {
    if pdf_header(d) {
        r matches Ok(p) && p.data@ == d && p.source_name@ == "<base64>"@
    } else {
        r matches Err(Error::InvalidPdf { reason }) && reason@
            == "Decoded data is not a valid PDF file"@
    }
}

/// Accepts decoded base64 bytes as a PDF when they carry its signature.
pub fn pdf_from_decoded(data: Vec<u8>) -> (r: Result<ResolvedPdf, Error>)
    ensures
        decoded_outcome(data@, r),
{
    if !has_pdf_header(data.as_slice()) {
        return Err(Error::InvalidPdf { reason: "Decoded data is not a valid PDF file".to_owned() });
    }
    Ok(ResolvedPdf { data, source_name: "<base64>".to_owned() })
}

/// Decodes base64 PDF data: a decoding error when the input is not valid
/// base64, else as [`pdf_from_decoded`].
pub fn resolve_base64(base64_data: &str) -> (r: Result<ResolvedPdf, Error>)
    ensures
        match standard_base64_decoding(base64_data@) {
            None => r matches Err(Error::Base64Decode(_)),
            Some(d) => decoded_outcome(d, r),
        },
{
    match decode_standard_base64(base64_data) {
        Ok(data) => pdf_from_decoded(data),
        Err(e) => Err(Error::Base64Decode(e)),
    }
}

/// Where a client's PDF comes from.
#[derive(Debug, Clone)]
pub enum PdfSource {
    Path { path: String },
    Base64 { base64: String },
    Url { url: String },
    CacheRef { cache_key: String },
}

/// The name shown for a source: the path or URL itself, `<base64>` for
/// inline data, `<cache:KEY>` for a cached document.
pub open spec fn source_name_of(source: &PdfSource) -> Seq<char> {
    match source {
        PdfSource::Path { path } => path@,
        PdfSource::Base64 { .. } => "<base64>"@,
        PdfSource::Url { url } => url@,
        PdfSource::CacheRef { cache_key } => "<cache:"@ + cache_key@ + ">"@,
    }
}

impl PdfSource {
    /// The name shown for this source.
    pub fn source_name(&self) -> (name: String)
        ensures
            name@ == source_name_of(self),
    {
        match self {
            PdfSource::Path { path } => path.clone(),
            PdfSource::Base64 { .. } => "<base64>".to_owned(),
            PdfSource::Url { url } => url.clone(),
            PdfSource::CacheRef { cache_key } => {
                let mut name = "<cache:".to_owned();
                name.append(cache_key.as_str());
                name.append(">");
                name
            },
        }
    }
}

} // verus!
