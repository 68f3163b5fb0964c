//! How the API interprets a request: the shared application state, the
//! `POST /analyze` request body and its defaults, the detection context and
//! input source it names, base64 input decoding, and whether recursive layer
//! analysis runs.

use vstd::prelude::*;

use vstd::string::StringSliceAdditionalSpecFns;

use crate::api::errors::ApiError;
use crate::sanitization::sandbox::Sandbox;
use crate::decimal::decimal;
use crate::text::text_eq;
use crate::timestamp::{instant_now, nanos_since};

verus! {

/// Shared application state injected into the request handlers.
pub struct AppState {
    pub startup_time: std::time::Instant,
    pub engine_version: String,
    pub sig_db_version: String,
    pub sandbox: Option<Sandbox>,
}

impl AppState {
    /// The state of a service starting now.
    pub fn new(engine_version: String, sig_db_version: String, sandbox: Option<Sandbox>) -> (s: Self)
        ensures
            s.engine_version == engine_version,
            s.sig_db_version == sig_db_version,
            s.sandbox == sandbox,
    {
        AppState { startup_time: instant_now(), engine_version, sig_db_version, sandbox }
    }

    /// Whole seconds since the service started: the whole seconds of the
    /// monotonic clock's reading of the nanoseconds since `startup_time`.
    /// The reading depends on the time of the call.
    pub fn uptime_seconds(&self) -> (secs: u64)
        ensures
            exists|nanos: u64| secs == #[trigger] whole_seconds(nanos),
    {
        whole_seconds_of(nanos_since(&self.startup_time))
    }

    /// The sandbox that a request asking for sandboxed analysis runs in, or
    /// a bad-request error when none is configured.
    pub fn requested_sandbox(&self) -> (r: Result<&Sandbox, ApiError>)
        ensures
            match self.sandbox {
                Some(s) => r == Ok::<&Sandbox, ApiError>(&s),
                None => r matches Err(ApiError::BadRequest(m)) && m@ == "Sandbox requested but not configured"@,
            },
    {
        match &self.sandbox {
            Some(s) => Ok(s),
            None => Err(ApiError::BadRequest(String::from_str("Sandbox requested but not configured"))),
        }
    }
}

/// The whole seconds in `nanos` nanoseconds.
pub open spec fn whole_seconds(nanos: u64) -> u64 {
    nanos / 1_000_000_000
}

/// The whole seconds in `nanos` nanoseconds (`Duration::as_secs` of that
/// many nanoseconds).
pub fn whole_seconds_of(nanos: u64) -> (secs: u64)
    ensures
        secs == whole_seconds(nanos),
{
    nanos / 1_000_000_000
}

/// Request body for `POST /analyze`.
pub struct AnalyzeRequest {
    /// Input string, file path, or base64-encoded data.
    pub input: String,
    /// How to interpret `input`: "string" (default), "file", or "base64".
    pub input_type: String,
    /// Detection context: "forensics" (default), "malware", or "password".
    pub context: String,
    /// Enable recursive layer analysis.
    pub deep: bool,
    /// Enable AI narrative (requires AI provider config).
    pub ai: bool,
    /// Run analysis in a sandboxed subprocess.
    pub sandbox: bool,
}

/// The input type of a request that names none.
pub fn default_input_type() -> (s: String)
    ensures
        s@ == "string"@,
{
    String::from_str("string")
}

/// The detection context of a request that names none.
pub fn default_context() -> (s: String)
    ensures
        s@ == "forensics"@,
{
    String::from_str("forensics")
}

/// The context an analysis is run in.
#[derive(Debug, Clone, Copy, PartialEq, Eq, Structural)]
pub enum DetectionContext {
    Forensics,
    Malware,
    Password,
}

/// The detection context a request names: "malware" and "password" name
/// theirs, anything else is forensics.
pub open spec fn context_named(context: Seq<char>) -> DetectionContext {
    if context == "malware"@ {
        DetectionContext::Malware
    } else if context == "password"@ {
        DetectionContext::Password
    } else {
        DetectionContext::Forensics
    }
}

/// The detection context a request's `context` field names.
pub fn detection_context_of(context: &str) -> (c: DetectionContext)
    ensures
        c == context_named(context@),
{
    if text_eq(context, "malware") {
        DetectionContext::Malware
    } else if text_eq(context, "password") {
        DetectionContext::Password
    } else {
        DetectionContext::Forensics
    }
}

/// Where a request's input comes from.
#[derive(Debug, Clone, Copy, PartialEq, Eq, Structural)]
pub enum InputSource {
    /// `input` is a file path.
    File,
    /// `input` is base64-encoded data.
    Base64,
    /// `input` is the data itself.
    Text,
}

/// The input source a request's `input_type` names: "file" and "base64"
/// name theirs, anything else is the text itself.
pub open spec fn source_named(input_type: Seq<char>) -> InputSource {
    if input_type == "file"@ {
        InputSource::File
    } else if input_type == "base64"@ {
        InputSource::Base64
    } else {
        InputSource::Text
    }
}

/// The input source a request's `input_type` field names.
pub fn input_source_of(input_type: &str) -> (s: InputSource)
    ensures
        s == source_named(input_type@),
{
    if text_eq(input_type, "file") {
        InputSource::File
    } else if text_eq(input_type, "base64") {
        InputSource::Base64
    } else {
        InputSource::Text
    }
}

/// Whether recursive layer analysis runs: it was asked for and the first
/// pass identified a (non-empty) algorithm.
pub fn wants_layer_analysis(deep: bool, algorithm: Option<&str>) -> (r: bool)
    ensures
        r == (deep && match algorithm {
            Some(a) => a@.len() > 0,
            None => false,
        }),
{
    deep && match algorithm {
        Some(a) => !a.is_empty(),
        None => false,
    }
}

/// Why base64 input did not decode: the cases of `base64::DecodeError`,
/// with the offsets, bytes and lengths they report.
#[derive(Clone, Copy, Debug, PartialEq, Eq, Structural)]
pub enum Base64Failure {
    /// A byte outside the alphabet (or misplaced padding) at `offset`.
    InvalidByte { offset: usize, byte: u8 },
    /// An input whose length in base64 symbols is not a valid one.
    InvalidLength { length: usize },
    /// A last symbol at `offset` whose discarded bits are not zero.
    InvalidLastSymbol { offset: usize, byte: u8 },
    /// Padding other than the canonical one.
    InvalidPadding,
}

/// The outcome of decoding `input` with the standard base64 alphabet with
/// padding (`base64::engine::general_purpose::STANDARD`): the decoded bytes,
/// or why they do not decode.
pub uninterp spec fn standard_base64_decode(input: Seq<u8>) -> Result<Seq<u8>, Base64Failure>;

/// Decodes with `base64::engine::general_purpose::STANDARD`
/// (`Engine::decode`), a `DecodeError` turned into the failure of the same
/// case. Decoding depends on the input alone, so its outcome is named by
/// `standard_base64_decode`; what that decoding is, the crate's source
/// defines and no clause restates.
#[verifier::external_body]
fn base64_decode_standard(input: &[u8]) -> (r: Result<Vec<u8>, Base64Failure>)
    ensures
        match r {
            Ok(bytes) => standard_base64_decode(input@) == Ok::<Seq<u8>, Base64Failure>(bytes@),
            Err(f) => standard_base64_decode(input@) == Err::<Seq<u8>, Base64Failure>(f),
        },
{
    match base64::Engine::decode(&base64::engine::general_purpose::STANDARD, input) {
        Ok(bytes) => Ok(bytes),
        Err(base64::DecodeError::InvalidByte(offset, byte)) => Err(Base64Failure::InvalidByte { offset, byte }),
        Err(base64::DecodeError::InvalidLength(length)) => Err(Base64Failure::InvalidLength { length }),
        Err(base64::DecodeError::InvalidLastSymbol(offset, byte)) => Err(Base64Failure::InvalidLastSymbol { offset, byte }),
        Err(base64::DecodeError::InvalidPadding) => Err(Base64Failure::InvalidPadding),
    }
}

/// The text `DecodeError`'s `Display` gives each case.
pub open spec fn decode_failure_text(f: Base64Failure) -> Seq<char> {
    match f {
        Base64Failure::InvalidByte { offset, byte } => "Invalid symbol "@ + decimal(byte as nat) + ", offset "@
            + decimal(offset as nat) + "."@,
        Base64Failure::InvalidLength { length } => "Invalid input length: "@ + decimal(length as nat),
        Base64Failure::InvalidLastSymbol { offset, byte } => "Invalid last symbol "@ + decimal(byte as nat)
            + ", offset "@ + decimal(offset as nat) + "."@,
        Base64Failure::InvalidPadding => "Invalid padding"@,
    }
}

/// The message of a base64 decoding failure: the `Display` text of the
/// `DecodeError` of the same case, which the crate's source writes as
/// `decode_failure_text` states.
#[verifier::external_body]
fn failure_message(f: &Base64Failure) -> (t: String)
    ensures
        t@ == decode_failure_text(*f),
{
    let e = match *f {
        Base64Failure::InvalidByte { offset, byte } => base64::DecodeError::InvalidByte(offset, byte),
        Base64Failure::InvalidLength { length } => base64::DecodeError::InvalidLength(length),
        Base64Failure::InvalidLastSymbol { offset, byte } => base64::DecodeError::InvalidLastSymbol(offset, byte),
        Base64Failure::InvalidPadding => base64::DecodeError::InvalidPadding,
    };
    e.to_string()
}

/// The message of a bad base64 input.
pub open spec fn base64_error_message(f: Base64Failure) -> Seq<char> {
    "Base64 decode error: "@ + decode_failure_text(f)
}

/// The answer to a base64 decoding outcome: the bytes, or a bad-request
/// error saying `"Base64 decode error: "` followed by the decoder's message.
pub fn base64_input_outcome(decoded: Result<Vec<u8>, Base64Failure>) -> (r: Result<Vec<u8>, ApiError>)
    ensures
        decoded is Ok ==> r == Ok::<Vec<u8>, ApiError>(decoded->Ok_0),
        decoded is Err ==> (r matches Err(ApiError::BadRequest(m)) && m@ == base64_error_message(
            decoded->Err_0,
        )),
{
    match decoded {
        Ok(bytes) => Ok(bytes),
        Err(f) => {
            let mut m = String::from_str("Base64 decode error: ");
            let detail = failure_message(&f);
            m.append(detail.as_str());
            proof {
                reveal_strlit("Base64 decode error: ");
            }
            Err(ApiError::BadRequest(m))
        },
    }
}

/// The data of a base64 input: its UTF-8 bytes decoded with the standard
/// alphabet, or a bad-request error carrying the decoder's message when they
/// do not decode.
pub fn decode_base64_input(input: &str) -> (r: Result<Vec<u8>, ApiError>)
    ensures
        match standard_base64_decode(input.spec_bytes()) {
            Ok(bytes) => r matches Ok(b) && b@ == bytes,
            Err(e) => r matches Err(ApiError::BadRequest(m)) && m@ == base64_error_message(e),
        },
{
    base64_input_outcome(base64_decode_standard(input.as_bytes()))
}

} // verus!
