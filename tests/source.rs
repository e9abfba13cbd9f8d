use pdf_mcp_server::{
    color_to_hex, decimal_string, has_pdf_header, pdf_from_decoded, resolve_base64, Error, PdfSource,
};

#[test]
fn test_resolve_base64_invalid() {
    let result = resolve_base64("SGVsbG8gV29ybGQ="); // "Hello World"
    assert!(matches!(result, Err(Error::InvalidPdf { .. })));
}

#[test]
fn test_resolve_base64_invalid_base64() {
    let result = resolve_base64("not valid base64!!!");
    assert!(matches!(result, Err(Error::Base64Decode(_))));
}

#[test]
fn resolve_base64_accepts_pdf() {
    let resolved = resolve_base64("JVBERi0xLjQ=").unwrap();
    assert_eq!(resolved.data, b"%PDF-1.4".to_vec());
    assert_eq!(resolved.source_name, "<base64>");
}

#[test]
fn pdf_header_check() {
    assert!(has_pdf_header(b"%PDF-1.7"));
    assert!(has_pdf_header(b"%PDF"));
    assert!(!has_pdf_header(b"%PD"));
    assert!(!has_pdf_header(b"not a pdf"));
    assert!(!has_pdf_header(b""));
    match pdf_from_decoded(b"hello".to_vec()) {
        Err(Error::InvalidPdf { reason }) => assert_eq!(reason, "Decoded data is not a valid PDF file"),
        _ => panic!("expected an invalid-PDF error"),
    }
}

#[test]
fn client_messages() {
    assert_eq!(Error::PdfNotFound { path: "/secret/a.pdf".to_string() }.client_message(), "PDF not found");
    assert_eq!(Error::PasswordRequired.client_message(), "PDF is password protected");
    assert_eq!(
        Error::InvalidPageRange { range: "5-3".to_string() }.client_message(),
        "Invalid page range: 5-3"
    );
    assert_eq!(
        Error::PageOutOfBounds { page: 12, total: 10 }.client_message(),
        "Page 12 out of bounds (total: 10)"
    );
    assert_eq!(
        Error::DownloadTooLarge { size: 999, max_size: 104857600 }.client_message(),
        "Download exceeds maximum size of 104857600 bytes"
    );
    assert_eq!(Error::QpdfError { reason: "x".to_string() }.client_message(), "PDF processing error");
    assert_eq!(Error::SsrfBlocked { url: "http://10.0.0.1".to_string() }.client_message(), "URL not allowed");
    assert_eq!(
        Error::ImageDimensionExceeded { detail: "too wide".to_string() }.client_message(),
        "Image dimension exceeded: too wide"
    );
}

#[test]
fn decimal_rendering() {
    assert_eq!(decimal_string(0), "0");
    assert_eq!(decimal_string(7), "7");
    assert_eq!(decimal_string(10), "10");
    assert_eq!(decimal_string(18446744073709551615), "18446744073709551615");
}

#[test]
fn test_source_name() {
    assert_eq!(
        PdfSource::Path {
            path: "/test.pdf".to_string()
        }
        .source_name(),
        "/test.pdf"
    );
    assert_eq!(
        PdfSource::Base64 {
            base64: "...".to_string()
        }
        .source_name(),
        "<base64>"
    );
    assert_eq!(
        PdfSource::Url {
            url: "https://example.com/test.pdf".to_string()
        }
        .source_name(),
        "https://example.com/test.pdf"
    );
    assert_eq!(
        PdfSource::CacheRef {
            cache_key: "abc123".to_string()
        }
        .source_name(),
        "<cache:abc123>"
    );
}

#[test]
fn colour_hex() {
    assert_eq!(color_to_hex(255, 0, 128), "#FF0080");
    assert_eq!(color_to_hex(0, 0, 0), "#000000");
    assert_eq!(color_to_hex(10, 171, 9), "#0AAB09");
}
