//! Wire-response parsing: raw bytes from the server are classified into a
//! typed response.  The header is `<2-digit code>[ <meta>]\r\n`, everything
//! after the terminator is the body.  The tens digit of the code selects the
//! category, the exact code the sub-kind.

use crate::text::sub_vec;
use vstd::prelude::*;

verus! {

use vstd::slice::slice_to_vec;
use vstd::utf8::{decode_utf8, valid_utf8};

#[derive(Clone, Copy, PartialEq, Eq, Structural, Debug)]
pub enum InputKind {
    Basic,
    Sensitive,
}

#[derive(Clone, Copy, PartialEq, Eq, Structural, Debug)]
pub enum RedirectionKind {
    Temporary,
    Permanent,
}

#[derive(Clone, Copy, PartialEq, Eq, Structural, Debug)]
pub enum TemporaryFailureKind {
    Unspecified,
    ServerUnavailable,
    CGIError,
    ProxyError,
    SlowDown,
}

#[derive(Clone, Copy, PartialEq, Eq, Structural, Debug)]
pub enum PermanentFailureKind {
    General,
    NotFound,
    Gone,
    ProxyRequestRefused,
    BadRequest,
}

#[derive(Clone, Copy, PartialEq, Eq, Structural, Debug)]
pub enum CertificateErrorKind {
    CertificateRequired,
    CertificateNotAuthorized,
    CertificateNotValid,
}

#[derive(Debug)]
pub enum GeminiResponse {
    Input { kind: InputKind, prompt: String },
    Success { body: String },
    Redirection { kind: RedirectionKind, to: String },
    TemporaryFailure { kind: TemporaryFailureKind, msg: String },
    PermanentFailure { kind: PermanentFailureKind, msg: String },
    ClientCertificate { kind: CertificateErrorKind, msg: String },
}

/// Mathematical model of a response: the same shape with the payloads as
/// character sequences.
pub enum ResponseModel {
    Input { kind: InputKind, prompt: Seq<char> },
    Success { body: Seq<char> },
    Redirection { kind: RedirectionKind, to: Seq<char> },
    TemporaryFailure { kind: TemporaryFailureKind, msg: Seq<char> },
    PermanentFailure { kind: PermanentFailureKind, msg: Seq<char> },
    ClientCertificate { kind: CertificateErrorKind, msg: Seq<char> },
}

impl View for GeminiResponse {
    type V = ResponseModel;

    open spec fn view(&self) -> ResponseModel {
        match self {
            GeminiResponse::Input { kind, prompt } => ResponseModel::Input {
                kind: *kind,
                prompt: prompt@,
            },
            GeminiResponse::Success { body } => ResponseModel::Success { body: body@ },
            GeminiResponse::Redirection { kind, to } => ResponseModel::Redirection {
                kind: *kind,
                to: to@,
            },
            GeminiResponse::TemporaryFailure { kind, msg } => ResponseModel::TemporaryFailure {
                kind: *kind,
                msg: msg@,
            },
            GeminiResponse::PermanentFailure { kind, msg } => ResponseModel::PermanentFailure {
                kind: *kind,
                msg: msg@,
            },
            GeminiResponse::ClientCertificate { kind, msg } => ResponseModel::ClientCertificate {
                kind: *kind,
                msg: msg@,
            },
        }
    }
}

#[derive(Debug)]
pub struct GeminiResponseParseError {}

impl GeminiResponseParseError {
    /// A human-readable description of the failure.
    pub fn message(&self) -> (r: String)
        ensures
            r@ == "Couldn't parse gemini response"@,
    {
        "Couldn't parse gemini response".to_owned()
    }
}

pub open spec fn is_digit(b: u8) -> bool {
    48 <= b <= 57
}

/// The two-digit status code of a header, read from its first two bytes.
pub open spec fn status_code(bytes: Seq<u8>) -> int {
    (bytes[0] - 48) * 10 + (bytes[1] - 48)
}

/// Position of the first carriage return in `s` at or after `i`, or `-1` if
/// there is none.
pub open spec fn find_cr(s: Seq<u8>, i: int) -> int
    decreases s.len() - i,
{
    if i < 0 || i >= s.len() {
        -1
    } else if s[i] == 13 {
        i
    } else {
        find_cr(s, i + 1)
    }
}

pub proof fn lemma_find_cr(s: Seq<u8>, i: int, k: int)
    requires
        0 <= i <= k <= s.len(),
        forall|j: int| i <= j < k ==> s[j] != 13,
        k < s.len() ==> s[k] == 13,
    ensures
        find_cr(s, i) == if k < s.len() {
            k
        } else {
            -1
        },
    decreases k - i,
{
    if i < k {
        lemma_find_cr(s, i + 1, k);
    }
}

/// The sub-kind tables: each category has specific codes and a catch-all
/// default for the other codes of its tens range.
pub open spec fn classify_spec(code: int, meta: Seq<char>, body: Seq<char>) -> ResponseModel
    recommends
        10 <= code <= 69,
{
    if code <= 19 {
        ResponseModel::Input {
            kind: if code == 11 {
                InputKind::Sensitive
            } else {
                InputKind::Basic
            },
            prompt: meta,
        }
    } else if code <= 29 {
        ResponseModel::Success { body }
    } else if code <= 39 {
        ResponseModel::Redirection {
            kind: if code == 31 {
                RedirectionKind::Permanent
            } else {
                RedirectionKind::Temporary
            },
            to: meta,
        }
    } else if code <= 49 {
        ResponseModel::TemporaryFailure {
            kind: if code == 41 {
                TemporaryFailureKind::ServerUnavailable
            } else if code == 42 {
                TemporaryFailureKind::CGIError
            } else if code == 43 {
                TemporaryFailureKind::ProxyError
            } else if code == 44 {
                TemporaryFailureKind::SlowDown
            } else {
                TemporaryFailureKind::Unspecified
            },
            msg: meta,
        }
    } else if code <= 59 {
        ResponseModel::PermanentFailure {
            kind: if code == 51 {
                PermanentFailureKind::NotFound
            } else if code == 52 {
                PermanentFailureKind::Gone
            } else if code == 53 {
                PermanentFailureKind::ProxyRequestRefused
            } else if code == 59 {
                PermanentFailureKind::BadRequest
            } else {
                PermanentFailureKind::General
            },
            msg: meta,
        }
    } else {
        ResponseModel::ClientCertificate {
            kind: if code == 61 {
                CertificateErrorKind::CertificateNotAuthorized
            } else if code == 62 {
                CertificateErrorKind::CertificateNotValid
            } else {
                CertificateErrorKind::CertificateRequired
            },
            msg: meta,
        }
    }
}

/// What parsing a raw response yields: `None` is a parse error.  The header
/// is scanned from position 2 for the first carriage return, which must be
/// followed by a line feed; a terminator right at position 2 means the
/// optional space and the meta text are absent, while a carriage return at
/// or after position 3 leaves the meta text between position 3 (byte 2
/// being the optional space after the code) and the terminator.  The body
/// is everything after the terminator.  Meta and body must be valid UTF-8.
/// Without any terminator, meta and body are empty and parsing still
/// succeeds.
pub open spec fn parse_response_spec(bytes: Seq<u8>) -> Option<ResponseModel> {
    if bytes.len() < 2 || !is_digit(bytes[0]) || !is_digit(bytes[1]) {
        None
    } else {
        let code = status_code(bytes);
        if code < 10 || code > 69 {
            None
        } else {
            let p = find_cr(bytes, 2);
            if p < 0 {
                Some(classify_spec(code, Seq::empty(), Seq::empty()))
            } else if p + 1 >= bytes.len() || bytes[p + 1] != 10 {
                None
            } else {
                let meta_b = if p == 2 {
                    Seq::<u8>::empty()
                } else {
                    bytes.subrange(3, p)
                };
                let body_b = bytes.subrange(p + 2, bytes.len() as int);
                if !valid_utf8(meta_b) || !valid_utf8(body_b) {
                    None
                } else {
                    Some(classify_spec(code, decode_utf8(meta_b), decode_utf8(body_b)))
                }
            }
        }
    }
}

/// Relies on `String::from_utf8`: it succeeds exactly on valid UTF-8 input
/// and returns the decoded characters, as modelled by vstd's `valid_utf8`
/// and `decode_utf8`.
#[verifier::external_body]
fn bytes_to_string(v: Vec<u8>) -> (r: Option<String>)
    ensures
        r is Some <==> valid_utf8(v@),
        r matches Some(s) ==> s@ == decode_utf8(v@),
{
    match String::from_utf8(v) {
        Ok(s) => Some(s),
        Err(_) => None,
    }
}

/// Builds the typed response for a status code already known to be in range.
fn classify(code: u32, meta: String, body: String) -> (r: GeminiResponse)
    requires
        10 <= code <= 69,
    ensures
        r@ == classify_spec(code as int, meta@, body@),
{
    if code <= 19 {
        GeminiResponse::Input {
            kind: if code == 11 {
                InputKind::Sensitive
            } else {
                InputKind::Basic
            },
            prompt: meta,
        }
    } else if code <= 29 {
        GeminiResponse::Success { body }
    } else if code <= 39 {
        GeminiResponse::Redirection {
            kind: if code == 31 {
                RedirectionKind::Permanent
            } else {
                RedirectionKind::Temporary
            },
            to: meta,
        }
    } else if code <= 49 {
        GeminiResponse::TemporaryFailure {
            kind: if code == 41 {
                TemporaryFailureKind::ServerUnavailable
            } else if code == 42 {
                TemporaryFailureKind::CGIError
            } else if code == 43 {
                TemporaryFailureKind::ProxyError
            } else if code == 44 {
                TemporaryFailureKind::SlowDown
            } else {
                TemporaryFailureKind::Unspecified
            },
            msg: meta,
        }
    } else if code <= 59 {
        GeminiResponse::PermanentFailure {
            kind: if code == 51 {
                PermanentFailureKind::NotFound
            } else if code == 52 {
                PermanentFailureKind::Gone
            } else if code == 53 {
                PermanentFailureKind::ProxyRequestRefused
            } else if code == 59 {
                PermanentFailureKind::BadRequest
            } else {
                PermanentFailureKind::General
            },
            msg: meta,
        }
    } else {
        GeminiResponse::ClientCertificate {
            kind: if code == 61 {
                CertificateErrorKind::CertificateNotAuthorized
            } else if code == 62 {
                CertificateErrorKind::CertificateNotValid
            } else {
                CertificateErrorKind::CertificateRequired
            },
            msg: meta,
        }
    }
}

impl GeminiResponse {
    /// Parses raw response bytes; the result is exactly what
    /// [`parse_response_spec`] yields on them, and an error exactly when it
    /// yields none.
    pub fn from_bytes(bytes: &[u8]) -> (r: Result<GeminiResponse, GeminiResponseParseError>)
        ensures
            match r {
                Ok(resp) => parse_response_spec(bytes@) == Some(resp@),
                Err(_) => parse_response_spec(bytes@) is None,
            },
    {
        let v: Vec<u8> = slice_to_vec(bytes);
        if v.len() < 2 {
            return Err(GeminiResponseParseError {});
        }
        let b0 = v[0];
        let b1 = v[1];
        if b0 < 48 || b0 > 57 || b1 < 48 || b1 > 57 {
            return Err(GeminiResponseParseError {});
        }
        let code: u32 = (b0 - 48) as u32 * 10 + (b1 - 48) as u32;
        if code < 10 || code > 69 {
            return Err(GeminiResponseParseError {});
        }
        let mut i: usize = 2;
        while i < v.len() && v[i] != 13
            invariant
                2 <= i <= v@.len(),
                forall|j: int| 2 <= j < i ==> v@[j] != 13,
            decreases v@.len() - i,
        {
            i = i + 1;
        }
        if i < v.len() {
            proof {
                lemma_find_cr(v@, 2, i as int);
            }
            if i + 1 >= v.len() {
                return Err(GeminiResponseParseError {});
            }
            if v[i + 1] != 10 {
                return Err(GeminiResponseParseError {});
            }
            let meta_b = if i == 2 {
                Vec::new()
            } else {
                sub_vec(&v, 3, i)
            };
            let body_b = sub_vec(&v, i + 2, v.len());
            let meta_s = match bytes_to_string(meta_b) {
                Some(s) => s,
                None => {
                    return Err(GeminiResponseParseError {});
                },
            };
            let body_s = match bytes_to_string(body_b) {
                Some(s) => s,
                None => {
                    return Err(GeminiResponseParseError {});
                },
            };
            Ok(classify(code, meta_s, body_s))
        } else {
            proof {
                lemma_find_cr(v@, 2, v@.len() as int);
                assert(parse_response_spec(bytes@) == Some(
                    classify_spec(code as int, Seq::<char>::empty(), Seq::<char>::empty()),
                ));
            }
            Ok(classify(code, String::new(), String::new()))
        }
    }
}

/// Law: the two status digits alone determine the outcome's category and
/// sub-kind.  Input that is shorter than two bytes, does not open with two
/// ASCII digits, or carries a code outside 10–69 never parses; a parsed
/// response falls in the category given by the tens digit, with the
/// sub-kind of the exact code and the category's default for the others.
pub proof fn lemma_status_classification(bytes: Seq<u8>)
    ensures
        (bytes.len() < 2 || !is_digit(bytes[0]) || !is_digit(bytes[1])) ==> parse_response_spec(
            bytes,
        ) is None,
        bytes.len() >= 2 && (status_code(bytes) < 10 || status_code(bytes) > 69)
            ==> parse_response_spec(bytes) is None,
        parse_response_spec(bytes) matches Some(r) ==> {
            let code = status_code(bytes);
            &&& (r is Input <==> 10 <= code <= 19)
            &&& (r is Success <==> 20 <= code <= 29)
            &&& (r is Redirection <==> 30 <= code <= 39)
            &&& (r is TemporaryFailure <==> 40 <= code <= 49)
            &&& (r is PermanentFailure <==> 50 <= code <= 59)
            &&& (r is ClientCertificate <==> 60 <= code <= 69)
            &&& (r matches ResponseModel::Input { kind, .. } ==> kind == (if code == 11 {
                InputKind::Sensitive
            } else {
                InputKind::Basic
            }))
            &&& (r matches ResponseModel::Redirection { kind, .. } ==> kind == (if code == 31 {
                RedirectionKind::Permanent
            } else {
                RedirectionKind::Temporary
            }))
            &&& (r matches ResponseModel::TemporaryFailure { kind, .. } ==> kind == (if code == 41 {
                TemporaryFailureKind::ServerUnavailable
            } else if code == 42 {
                TemporaryFailureKind::CGIError
            } else if code == 43 {
                TemporaryFailureKind::ProxyError
            } else if code == 44 {
                TemporaryFailureKind::SlowDown
            } else {
                TemporaryFailureKind::Unspecified
            }))
            &&& (r matches ResponseModel::PermanentFailure { kind, .. } ==> kind == (if code == 51 {
                PermanentFailureKind::NotFound
            } else if code == 52 {
                PermanentFailureKind::Gone
            } else if code == 53 {
                PermanentFailureKind::ProxyRequestRefused
            } else if code == 59 {
                PermanentFailureKind::BadRequest
            } else {
                PermanentFailureKind::General
            }))
            &&& (r matches ResponseModel::ClientCertificate { kind, .. } ==> kind == (if code == 61 {
                CertificateErrorKind::CertificateNotAuthorized
            } else if code == 62 {
                CertificateErrorKind::CertificateNotValid
            } else {
                CertificateErrorKind::CertificateRequired
            }))
        },
{
}

} // verus!
