use remi::response::{
    CertificateErrorKind, GeminiResponse, InputKind, PermanentFailureKind, RedirectionKind,
    TemporaryFailureKind,
};

#[test]
fn all_codes_classify_by_tens_digit() {
    for code in 10..=69 {
        let bytes = format!("{} meta\r\n", code).into_bytes();
        let resp = GeminiResponse::from_bytes(&bytes).expect("codes 10-69 must parse");
        match code / 10 {
            1 => assert!(matches!(resp, GeminiResponse::Input { .. }), "code {}", code),
            2 => assert!(matches!(resp, GeminiResponse::Success { .. }), "code {}", code),
            3 => assert!(matches!(resp, GeminiResponse::Redirection { .. }), "code {}", code),
            4 => assert!(
                matches!(resp, GeminiResponse::TemporaryFailure { .. }),
                "code {}",
                code
            ),
            5 => assert!(
                matches!(resp, GeminiResponse::PermanentFailure { .. }),
                "code {}",
                code
            ),
            6 => assert!(
                matches!(resp, GeminiResponse::ClientCertificate { .. }),
                "code {}",
                code
            ),
            _ => unreachable!(),
        }
    }
}

#[test]
fn codes_outside_range_fail() {
    for code in [0, 1, 5, 9, 70, 71, 80, 99] {
        let bytes = format!("{:02} meta\r\n", code).into_bytes();
        assert!(GeminiResponse::from_bytes(&bytes).is_err(), "code {:02}", code);
    }
}

#[test]
fn non_digit_prefix_fails() {
    assert!(GeminiResponse::from_bytes(b"ab meta\r\n").is_err());
    assert!(GeminiResponse::from_bytes(b"2x\r\n").is_err());
    assert!(GeminiResponse::from_bytes(b"x0\r\n").is_err());
    assert!(GeminiResponse::from_bytes(b"+9 meta\r\n").is_err());
    assert!(GeminiResponse::from_bytes(b" 20\r\n").is_err());
}

#[test]
fn short_input_fails() {
    assert!(GeminiResponse::from_bytes(b"").is_err());
    assert!(GeminiResponse::from_bytes(b"2").is_err());
}

#[test]
fn sub_kind_tables() {
    let kind_of = |code: u32| {
        GeminiResponse::from_bytes(format!("{}\r\n", code).as_bytes()).expect("must parse")
    };
    assert!(matches!(kind_of(10), GeminiResponse::Input { kind: InputKind::Basic, .. }));
    assert!(matches!(kind_of(11), GeminiResponse::Input { kind: InputKind::Sensitive, .. }));
    assert!(matches!(kind_of(15), GeminiResponse::Input { kind: InputKind::Basic, .. }));
    assert!(matches!(
        kind_of(30),
        GeminiResponse::Redirection { kind: RedirectionKind::Temporary, .. }
    ));
    assert!(matches!(
        kind_of(31),
        GeminiResponse::Redirection { kind: RedirectionKind::Permanent, .. }
    ));
    assert!(matches!(
        kind_of(39),
        GeminiResponse::Redirection { kind: RedirectionKind::Temporary, .. }
    ));
    assert!(matches!(
        kind_of(40),
        GeminiResponse::TemporaryFailure { kind: TemporaryFailureKind::Unspecified, .. }
    ));
    assert!(matches!(
        kind_of(41),
        GeminiResponse::TemporaryFailure { kind: TemporaryFailureKind::ServerUnavailable, .. }
    ));
    assert!(matches!(
        kind_of(42),
        GeminiResponse::TemporaryFailure { kind: TemporaryFailureKind::CGIError, .. }
    ));
    assert!(matches!(
        kind_of(43),
        GeminiResponse::TemporaryFailure { kind: TemporaryFailureKind::ProxyError, .. }
    ));
    assert!(matches!(
        kind_of(44),
        GeminiResponse::TemporaryFailure { kind: TemporaryFailureKind::SlowDown, .. }
    ));
    assert!(matches!(
        kind_of(45),
        GeminiResponse::TemporaryFailure { kind: TemporaryFailureKind::Unspecified, .. }
    ));
    assert!(matches!(
        kind_of(50),
        GeminiResponse::PermanentFailure { kind: PermanentFailureKind::General, .. }
    ));
    assert!(matches!(
        kind_of(51),
        GeminiResponse::PermanentFailure { kind: PermanentFailureKind::NotFound, .. }
    ));
    assert!(matches!(
        kind_of(52),
        GeminiResponse::PermanentFailure { kind: PermanentFailureKind::Gone, .. }
    ));
    assert!(matches!(
        kind_of(53),
        GeminiResponse::PermanentFailure { kind: PermanentFailureKind::ProxyRequestRefused, .. }
    ));
    assert!(matches!(
        kind_of(59),
        GeminiResponse::PermanentFailure { kind: PermanentFailureKind::BadRequest, .. }
    ));
    assert!(matches!(
        kind_of(55),
        GeminiResponse::PermanentFailure { kind: PermanentFailureKind::General, .. }
    ));
    assert!(matches!(
        kind_of(60),
        GeminiResponse::ClientCertificate { kind: CertificateErrorKind::CertificateRequired, .. }
    ));
    assert!(matches!(
        kind_of(61),
        GeminiResponse::ClientCertificate {
            kind: CertificateErrorKind::CertificateNotAuthorized,
            ..
        }
    ));
    assert!(matches!(
        kind_of(62),
        GeminiResponse::ClientCertificate { kind: CertificateErrorKind::CertificateNotValid, .. }
    ));
    assert!(matches!(
        kind_of(69),
        GeminiResponse::ClientCertificate { kind: CertificateErrorKind::CertificateRequired, .. }
    ));
}

#[test]
fn not_found_with_message() {
    let resp = GeminiResponse::from_bytes(b"51 not found\r\n").expect("must parse");
    match resp {
        GeminiResponse::PermanentFailure { kind, msg } => {
            assert_eq!(kind, PermanentFailureKind::NotFound);
            assert_eq!(msg, "not found");
        }
        other => panic!("expected a permanent failure, got {:?}", other),
    }
}

#[test]
fn success_with_body() {
    let resp = GeminiResponse::from_bytes(b"20 text/gemini\r\n# Hi\n").expect("must parse");
    match resp {
        GeminiResponse::Success { body } => assert_eq!(body, "# Hi\n"),
        other => panic!("expected success, got {:?}", other),
    }
}

#[test]
fn missing_terminator_gives_empty_meta_and_body() {
    let resp = GeminiResponse::from_bytes(b"20 hello there").expect("must parse");
    match resp {
        GeminiResponse::Success { body } => assert_eq!(body, ""),
        other => panic!("expected success, got {:?}", other),
    }
    let resp = GeminiResponse::from_bytes(b"10 prompt without end").expect("must parse");
    match resp {
        GeminiResponse::Input { prompt, .. } => assert_eq!(prompt, ""),
        other => panic!("expected input, got {:?}", other),
    }
}

#[test]
fn bare_code_parses_with_empty_payloads() {
    let resp = GeminiResponse::from_bytes(b"20").expect("must parse");
    assert!(matches!(resp, GeminiResponse::Success { body } if body.is_empty()));
    let resp = GeminiResponse::from_bytes(b"20\r\n").expect("must parse");
    assert!(matches!(resp, GeminiResponse::Success { body } if body.is_empty()));
}

#[test]
fn lone_carriage_return_fails() {
    assert!(GeminiResponse::from_bytes(b"20 ok\r").is_err());
    assert!(GeminiResponse::from_bytes(b"20 ok\rx").is_err());
}

#[test]
fn terminator_without_space_keeps_body() {
    let resp = GeminiResponse::from_bytes(b"20\r\nX").expect("must parse");
    match resp {
        GeminiResponse::Success { body } => assert_eq!(body, "X"),
        other => panic!("expected success, got {:?}", other),
    }
    let resp = GeminiResponse::from_bytes(b"20\r\n# Hi\n").expect("must parse");
    assert!(matches!(resp, GeminiResponse::Success { body } if body == "# Hi\n"));
}

#[test]
fn lone_carriage_return_right_after_code_fails() {
    assert!(GeminiResponse::from_bytes(b"20\r").is_err());
    assert!(GeminiResponse::from_bytes(b"20\rX").is_err());
}

#[test]
fn terminator_without_space_leaves_meta_empty() {
    let resp = GeminiResponse::from_bytes(b"51\r\nignored").expect("must parse");
    match resp {
        GeminiResponse::PermanentFailure { kind, msg } => {
            assert_eq!(kind, PermanentFailureKind::NotFound);
            assert_eq!(msg, "");
        }
        other => panic!("expected a permanent failure, got {:?}", other),
    }
}

#[test]
fn invalid_text_encoding_fails() {
    assert!(GeminiResponse::from_bytes(b"20 \xff\xfe\r\n").is_err());
    assert!(GeminiResponse::from_bytes(b"20 ok\r\n\xff").is_err());
}

#[test]
fn meta_starts_after_code_and_space_slot() {
    let resp = GeminiResponse::from_bytes(b"31 gemini://example.org/\r\n").expect("must parse");
    match resp {
        GeminiResponse::Redirection { kind, to } => {
            assert_eq!(kind, RedirectionKind::Permanent);
            assert_eq!(to, "gemini://example.org/");
        }
        other => panic!("expected redirection, got {:?}", other),
    }
}

#[test]
fn parse_error_message() {
    let err = GeminiResponse::from_bytes(b"").unwrap_err();
    assert_eq!(err.message(), "Couldn't parse gemini response");
}
