use cryptotrace::api::errors::ApiError;
use cryptotrace::api::routes::{
    base64_input_outcome, decode_base64_input, default_context, whole_seconds_of, default_input_type, detection_context_of, input_source_of,
    wants_layer_analysis, AppState, Base64Failure, DetectionContext, InputSource,
};
use cryptotrace::sanitization::sandbox::{Sandbox, SandboxConfig};

#[test]
fn request_defaults() {
    assert_eq!(default_input_type(), "string");
    assert_eq!(default_context(), "forensics");
}

#[test]
fn detection_contexts() {
    assert_eq!(detection_context_of("malware"), DetectionContext::Malware);
    assert_eq!(detection_context_of("password"), DetectionContext::Password);
    assert_eq!(detection_context_of("forensics"), DetectionContext::Forensics);
    assert_eq!(detection_context_of("Malware"), DetectionContext::Forensics);
    assert_eq!(detection_context_of(""), DetectionContext::Forensics);
}

#[test]
fn input_sources() {
    assert_eq!(input_source_of("file"), InputSource::File);
    assert_eq!(input_source_of("base64"), InputSource::Base64);
    assert_eq!(input_source_of("string"), InputSource::Text);
    assert_eq!(input_source_of("anything"), InputSource::Text);
}

#[test]
fn base64_input_decodes() {
    assert_eq!(decode_base64_input("aGVsbG8gd29ybGR+Cg==").unwrap(), b"hello world~\n".to_vec());
    assert_eq!(decode_base64_input("").unwrap(), Vec::<u8>::new());
}

#[test]
fn bad_base64_input_is_a_bad_request() {
    let detail = base64::Engine::decode(&base64::engine::general_purpose::STANDARD, "not base64!")
        .unwrap_err()
        .to_string();
    assert_eq!(detail, "Invalid symbol 32, offset 3.");
    match decode_base64_input("not base64!") {
        Err(ApiError::BadRequest(m)) => assert_eq!(m, format!("Base64 decode error: {}", detail)),
        other => panic!("unexpected {:?}", other),
    }
}

#[test]
fn base64_failures_read_as_the_decoder_writes_them() {
    let message = |f: Base64Failure| match base64_input_outcome(Err(f)) {
        Err(ApiError::BadRequest(m)) => m,
        other => panic!("unexpected {:?}", other),
    };
    assert_eq!(message(Base64Failure::InvalidByte { offset: 3, byte: 32 }), "Base64 decode error: Invalid symbol 32, offset 3.");
    assert_eq!(message(Base64Failure::InvalidLength { length: 5 }), "Base64 decode error: Invalid input length: 5");
    assert_eq!(
        message(Base64Failure::InvalidLastSymbol { offset: 2, byte: 66 }),
        "Base64 decode error: Invalid last symbol 66, offset 2."
    );
    assert_eq!(message(Base64Failure::InvalidPadding), "Base64 decode error: Invalid padding");
    assert_eq!(base64_input_outcome(Ok(vec![1, 2])), Ok(vec![1, 2]));
}

#[test]
fn layer_analysis_needs_deep_and_algorithm() {
    assert!(wants_layer_analysis(true, Some("MD5")));
    assert!(!wants_layer_analysis(true, Some("")));
    assert!(!wants_layer_analysis(true, None));
    assert!(!wants_layer_analysis(false, Some("MD5")));
}

#[test]
fn sandbox_must_be_configured_when_requested() {
    let state = AppState::new("0.1.0".to_string(), "1.0.0".to_string(), None);
    assert_eq!(
        state.requested_sandbox().err(),
        Some(ApiError::BadRequest("Sandbox requested but not configured".to_string()))
    );
    let state = AppState::new(
        "0.1.0".to_string(),
        "1.0.0".to_string(),
        Some(Sandbox::new(SandboxConfig { enabled: true, ..Default::default() })),
    );
    assert!(state.requested_sandbox().unwrap().config().enabled);
    assert!(state.uptime_seconds() < 5);
    assert_eq!(state.engine_version, "0.1.0");
}

#[test]
fn whole_seconds_truncate() {
    assert_eq!(whole_seconds_of(0), 0);
    assert_eq!(whole_seconds_of(999_999_999), 0);
    assert_eq!(whole_seconds_of(1_000_000_000), 1);
    assert_eq!(whole_seconds_of(3_600_500_000_000), 3600);
    assert_eq!(whole_seconds_of(u64::MAX), 18_446_744_073);
}
