use pdf_mcp_server::{
    accept_chunk, check_declared_length, check_downloaded, check_resolved_addresses, Error,
    IpAddress,
};

#[test]
fn ssrf_blocks_any_private_address() {
    let public = vec![IpAddress::V4([8, 8, 8, 8]), IpAddress::V4([1, 1, 1, 1])];
    assert!(check_resolved_addresses("https://example.com/a.pdf", &public).is_ok());
    assert!(check_resolved_addresses("https://example.com/a.pdf", &Vec::new()).is_ok());
    let mixed = vec![IpAddress::V4([8, 8, 8, 8]), IpAddress::V4([10, 0, 0, 1])];
    match check_resolved_addresses("http://intranet/a.pdf", &mixed) {
        Err(Error::SsrfBlocked { url }) => assert_eq!(url, "http://intranet/a.pdf"),
        _ => panic!("expected the request to be blocked"),
    }
}

#[test]
fn download_limits() {
    assert!(check_declared_length(None, 10).is_ok());
    assert!(check_declared_length(Some(10), 10).is_ok());
    assert!(matches!(
        check_declared_length(Some(11), 10),
        Err(Error::DownloadTooLarge { size: 11, max_size: 10 })
    ));
    assert_eq!(accept_chunk(4, 6, 10).unwrap(), 10);
    assert!(matches!(accept_chunk(4, 7, 10), Err(Error::DownloadTooLarge { size: 11, max_size: 10 })));
    assert!(matches!(
        accept_chunk(u64::MAX, 5, 10),
        Err(Error::DownloadTooLarge { size: u64::MAX, max_size: 10 })
    ));
}

#[test]
fn downloaded_bytes_must_be_pdf() {
    let ok = check_downloaded(b"%PDF-1.7 rest".to_vec(), "https://example.com/a.pdf").unwrap();
    assert_eq!(ok.source_name, "https://example.com/a.pdf");
    assert_eq!(ok.data, b"%PDF-1.7 rest".to_vec());
    match check_downloaded(b"<html>".to_vec(), "https://example.com/a.pdf") {
        Err(Error::InvalidPdf { reason }) => assert_eq!(reason, "Downloaded data is not a valid PDF file"),
        _ => panic!("expected an invalid-PDF error"),
    }
}
