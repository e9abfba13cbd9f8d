//! The library's error type and the messages it shows to clients.
use vstd::prelude::*;
use vstd::string::StringExecFns;

use crate::strings::{decimal, decimal_string};

verus! {

/// Base64 decoding errors, carried through unchanged.
#[verifier::external_type_specification]
#[verifier::external_body]
pub struct ExDecodeError(base64::DecodeError);

/// I/O errors, carried through unchanged.
#[verifier::external_type_specification]
#[verifier::external_body]
pub struct ExIoError(std::io::Error);

/// Everything that can go wrong while serving a PDF request.
#[derive(Debug)]
pub enum Error {
    PdfNotFound { path: String },
    InvalidPdf { reason: String },
    PasswordRequired,
    IncorrectPassword,
    InvalidPageRange { range: String },
    PageOutOfBounds { page: u32, total: u32 },
    CacheKeyNotFound { key: String },
    SourceResolution { reason: String },
    Base64Decode(base64::DecodeError),
    HttpRequest { reason: String },
    Io(std::io::Error),
    Pdfium { reason: String },
    Serialization { reason: String },
    QpdfError { reason: String },
    PathAccessDenied { path: String },
    SsrfBlocked { url: String },
    DownloadTooLarge { size: u64, max_size: u64 },
    ImageDimensionExceeded { detail: String },
}

/// The message shown to a client for an error: internal details (paths,
/// library messages, sizes of the download) are left out.
pub open spec fn client_message_of(e: &Error) -> Seq<char> {
    match e {
        Error::PdfNotFound { .. } => "PDF not found"@,
        Error::InvalidPdf { .. } => "Invalid PDF file"@,
        Error::PasswordRequired => "PDF is password protected"@,
        Error::IncorrectPassword => "Incorrect password"@,
        Error::InvalidPageRange { range } => "Invalid page range: "@ + range@,
        Error::PageOutOfBounds { page, total } => "Page "@ + decimal(*page as nat)
            + " out of bounds (total: "@ + decimal(*total as nat) + ")"@,
        Error::CacheKeyNotFound { .. } => "Cache key not found"@,
        Error::SourceResolution { .. } => "Failed to resolve PDF source"@,
        Error::Base64Decode(_) => "Invalid base64 data"@,
        Error::HttpRequest { .. } => "HTTP request failed"@,
        Error::Io(_) => "I/O error"@,
        Error::Pdfium { .. } => "PDF processing error"@,
        Error::Serialization { .. } => "Serialization error"@,
        Error::QpdfError { .. } => "PDF processing error"@,
        Error::PathAccessDenied { .. } => "Access denied"@,
        Error::SsrfBlocked { .. } => "URL not allowed"@,
        Error::DownloadTooLarge { max_size, .. } => "Download exceeds maximum size of "@ + decimal(
            *max_size as nat,
        ) + " bytes"@,
        Error::ImageDimensionExceeded { detail } => "Image dimension exceeded: "@ + detail@,
    }
}

impl Error {
    /// The sanitised message for clients; full details belong in the logs.
    pub fn client_message(&self) -> (m: String)
        ensures
            m@ == client_message_of(self),
    {
        match self {
            Error::PdfNotFound { .. } => "PDF not found".to_owned(),
            Error::InvalidPdf { .. } => "Invalid PDF file".to_owned(),
            Error::PasswordRequired => "PDF is password protected".to_owned(),
            Error::IncorrectPassword => "Incorrect password".to_owned(),
            Error::InvalidPageRange { range } => {
                let mut m = "Invalid page range: ".to_owned();
                m.append(range.as_str());
                m
            },
            Error::PageOutOfBounds { page, total } => {
                let mut m = "Page ".to_owned();
                m.append(decimal_string(*page as u64).as_str());
                m.append(" out of bounds (total: ");
                m.append(decimal_string(*total as u64).as_str());
                m.append(")");
                m
            },
            Error::CacheKeyNotFound { .. } => "Cache key not found".to_owned(),
            Error::SourceResolution { .. } => "Failed to resolve PDF source".to_owned(),
            Error::Base64Decode(_) => "Invalid base64 data".to_owned(),
            Error::HttpRequest { .. } => "HTTP request failed".to_owned(),
            Error::Io(_) => "I/O error".to_owned(),
            Error::Pdfium { .. } => "PDF processing error".to_owned(),
            Error::Serialization { .. } => "Serialization error".to_owned(),
            Error::QpdfError { .. } => "PDF processing error".to_owned(),
            Error::PathAccessDenied { .. } => "Access denied".to_owned(),
            Error::SsrfBlocked { .. } => "URL not allowed".to_owned(),
            Error::DownloadTooLarge { max_size, .. } => {
                let mut m = "Download exceeds maximum size of ".to_owned();
                m.append(decimal_string(*max_size).as_str());
                m.append(" bytes");
                m
            },
            Error::ImageDimensionExceeded { detail } => {
                let mut m = "Image dimension exceeded: ".to_owned();
                m.append(detail.as_str());
                m
            },
        }
    }
}

} // verus!
