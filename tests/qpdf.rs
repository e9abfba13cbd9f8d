use pdf_mcp_server::{Error, QpdfWrapper};

#[test]
fn split_command_line() {
    assert_eq!(
        QpdfWrapper::split_args("in.pdf", "out.pdf", "1-3", Some("pw")),
        vec!["--password=pw", "in.pdf", "--pages", ".", "1-3", "--", "--decrypt", "out.pdf"]
    );
    assert_eq!(QpdfWrapper::split_args("a", "b", "z-1", None)[0], "a");
}

#[test]
fn merge_command_line() {
    let inputs = vec!["a.pdf".to_string(), "b.pdf".to_string()];
    assert_eq!(
        QpdfWrapper::merge_args(&inputs, "out.pdf").unwrap(),
        vec!["--empty", "--pages", "a.pdf", "1-z", "b.pdf", "1-z", "--", "out.pdf"]
    );
    match QpdfWrapper::merge_args(&Vec::new(), "out.pdf") {
        Err(Error::QpdfError { reason }) => assert_eq!(reason, "No input PDFs provided"),
        _ => panic!("expected an error"),
    }
}

#[test]
fn encrypt_command_line() {
    assert_eq!(
        QpdfWrapper::encrypt_args("in", "out", "user", None, "low", false, true, None),
        vec!["in", "--encrypt", "user", "user", "256", "--print=low", "--extract=n", "--", "out"]
    );
    assert_eq!(
        QpdfWrapper::encrypt_args("in", "out", "u", Some("o"), "none", true, false, Some("old")),
        vec!["--password=old", "in", "--encrypt", "u", "o", "256", "--print=none", "--modify=none", "--", "out"]
    );
    assert_eq!(QpdfWrapper::encrypt_args("in", "out", "u", None, "whatever", true, true, None)[5], "--print=full");
}

#[test]
fn other_command_lines() {
    assert_eq!(
        QpdfWrapper::decrypt_args("in", "out", "s3"),
        vec!["--password=s3", "--decrypt", "in", "out"]
    );
    assert_eq!(
        QpdfWrapper::compress_args("in", "out", None, Some("disable"), Some(12)),
        vec![
            "in",
            "--object-streams=disable",
            "--recompress-flate",
            "--compression-level=9",
            "--optimize-images",
            "--remove-unreferenced-resources=yes",
            "--normalize-content=y",
            "--decrypt",
            "out"
        ]
    );
    let args = QpdfWrapper::compress_args("in", "out", Some("p"), Some("odd"), Some(0));
    assert_eq!(args[2], "--object-streams=generate");
    assert_eq!(args[4], "--compression-level=1");
    assert_eq!(QpdfWrapper::compress_args("in", "out", None, None, None)[3], "--compression-level=9");
    assert_eq!(QpdfWrapper::page_count_args("in", None), vec!["--show-npages", "in"]);
}

#[test]
fn run_outcomes() {
    assert!(QpdfWrapper::split_outcome(true, "anything", "1").is_ok());
    assert!(matches!(QpdfWrapper::split_outcome(false, "invalid password", "1"), Err(Error::IncorrectPassword)));
    assert!(matches!(
        QpdfWrapper::split_outcome(false, "bad page range 9", "9"),
        Err(Error::InvalidPageRange { .. })
    ));
    assert!(matches!(QpdfWrapper::split_outcome(false, "boom", "1"), Err(Error::QpdfError { .. })));
    assert!(QpdfWrapper::merge_outcome(false, "qpdf: operation succeeded with warnings").is_ok());
    assert!(QpdfWrapper::merge_outcome(false, "fatal").is_err());
    assert!(matches!(QpdfWrapper::protection_outcome(false, "password incorrect"), Err(Error::IncorrectPassword)));
    assert!(QpdfWrapper::tolerant_outcome(false, "operation succeeded with warnings").is_ok());
    assert!(matches!(QpdfWrapper::tolerant_outcome(false, "damaged"), Err(Error::QpdfError { .. })));
}

#[test]
fn page_count_output() {
    assert_eq!(QpdfWrapper::parse_page_count(" 12\n").unwrap(), 12);
    match QpdfWrapper::parse_page_count("twelve") {
        Err(Error::QpdfError { reason }) => assert_eq!(reason, "Failed to parse page count: twelve"),
        _ => panic!("expected an error"),
    }
}
