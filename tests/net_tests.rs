use ml2::net::{
    authorization_value, check_status, content_type, expected_bytes, parse_u64, DownloadProgress,
    DownloadTracker, Error,
};

#[test]
fn status_success_range() {
    assert_eq!(check_status(200), Ok(()));
    assert_eq!(check_status(204), Ok(()));
    assert_eq!(check_status(299), Ok(()));
    assert_eq!(check_status(404), Err(Error::StatusError(404)));
    assert_eq!(check_status(302), Err(Error::StatusError(302)));
    assert_eq!(check_status(199), Err(Error::StatusError(199)));
}

#[test]
fn authorization_header_value() {
    assert_eq!(authorization_value("SECRET-REDACTED"), "Token SECRET-REDACTED");
    assert_eq!(authorization_value(""), "Token ");
}

#[test]
fn parse_decimal_u64() {
    assert_eq!(parse_u64("0"), Ok(0));
    assert_eq!(parse_u64("1234"), Ok(1234));
    assert_eq!(parse_u64("+17"), Ok(17));
    assert_eq!(parse_u64("18446744073709551615"), Ok(u64::MAX));
    assert!(matches!(parse_u64("18446744073709551616"), Err(Error::GenericHttpError(_))));
    assert!(matches!(parse_u64(""), Err(Error::GenericHttpError(_))));
    assert!(matches!(parse_u64("+"), Err(Error::GenericHttpError(_))));
    assert!(matches!(parse_u64("12a"), Err(Error::GenericHttpError(_))));
    assert!(matches!(parse_u64("-1"), Err(Error::GenericHttpError(_))));
}

#[test]
fn content_length_header() {
    assert_eq!(expected_bytes(None), Ok(None));
    assert_eq!(expected_bytes(Some("2048")), Ok(Some(2048)));
    assert!(matches!(expected_bytes(Some("lots")), Err(Error::GenericHttpError(_))));
}

#[test]
fn content_type_header() {
    assert_eq!(content_type(Some("image/png")), Ok("image/png".to_string()));
    assert!(matches!(content_type(None), Err(Error::GenericHttpError(_))));
}

#[test]
fn tracker_reports_a_well_formed_stream() {
    let mut t = DownloadTracker::new();
    assert_eq!(t.current, DownloadProgress::Waiting());
    assert_eq!(t.start(), DownloadProgress::Started());
    t.set_expected(None);
    assert_eq!(
        t.receive(10),
        Ok(DownloadProgress::Receiving { expected_bytes: None, received_bytes: 10 })
    );
    assert_eq!(
        t.receive(5),
        Ok(DownloadProgress::Receiving { expected_bytes: None, received_bytes: 15 })
    );
    assert_eq!(t.finish(), DownloadProgress::Finished());
    assert_eq!(t.received_bytes, 15);
}

#[test]
fn tracker_with_known_size() {
    let mut t = DownloadTracker::new();
    t.start();
    t.set_expected(Some(100));
    assert_eq!(
        t.receive(100),
        Ok(DownloadProgress::Receiving { expected_bytes: Some(100), received_bytes: 100 })
    );
}

#[test]
fn tracker_overflow_changes_nothing() {
    let mut t = DownloadTracker::new();
    t.start();
    t.receive(u64::MAX).unwrap();
    assert!(matches!(t.receive(1), Err(Error::UnknownError(_))));
    assert_eq!(t.received_bytes, u64::MAX);
}

#[test]
fn tracker_without_content_finishes_from_waiting() {
    let mut t = DownloadTracker::new();
    assert_eq!(t.finish(), DownloadProgress::Finished());
    assert_eq!(t.current, DownloadProgress::Finished());
}
