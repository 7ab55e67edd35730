//! Bearer-token authentication. The presented token is compared with the
//! configured one in constant time (`subtle`), against timing attacks; a
//! missing or wrong token is answered 401 with an empty body.

use subtle::ConstantTimeEq;
use vstd::prelude::*;
use vstd::string::*;
use crate::config::Config;
use crate::text::{has_prefix, starts_with};

verus! {

/// Why a request was refused.
#[derive(Clone, Copy, Debug, PartialEq, Eq, Structural)]
pub enum AuthFailure {
    /// No `Authorization` header, one that is not visible ASCII, or one that
    /// does not begin with `Bearer `.
    NoBearer,
    /// A bearer token that differs from the configured one.
    InvalidToken,
}

/// The scheme prefix of the `Authorization` header.
pub open spec fn bearer_prefix() -> Seq<char> {
    "Bearer "@
}

/// The view of an optional string slice.
pub open spec fn opt_str_view(v: Option<&str>) -> Option<Seq<char>> {
    match v {
        Some(s) => Some(s@),
        None => None,
    }
}

/// The verdict on a request whose `Authorization` header reads `header`
/// (`None` where it is absent or not visible ASCII), for the configured
/// token `token`.
pub open spec fn auth_verdict(token: Seq<char>, header: Option<Seq<char>>) -> Result<(), AuthFailure> {
    match header {
        None => Err(AuthFailure::NoBearer),
        Some(h) => if !has_prefix(h, bearer_prefix()) {
            Err(AuthFailure::NoBearer)
        } else if h.skip(bearer_prefix().len() as int) == token {
            Ok(())
        } else {
            Err(AuthFailure::InvalidToken)
        },
    }
}

/// `subtle`'s `ConstantTimeEq::ct_eq` on two byte slices, its `Choice`
/// turned into a `bool` by `subtle`'s `From<Choice> for bool`. Claimed:
/// the result is true exactly when the slices hold the same bytes (the crate
/// answers 0 for different lengths, else the AND of the bytewise equalities).
/// That the comparison takes time independent of the contents is not stated.
#[verifier::external_body]
fn bytes_ct_eq(a: &[u8], b: &[u8]) -> (res: bool)
    ensures
        res == (a@ == b@),
{
    a.ct_eq(b).into()
}

/// The token that the `Authorization` value `header` presents, if it uses
/// the bearer scheme.
pub fn bearer_credential(header: &str) -> (res: Option<&str>)
    ensures
        match res {
            Some(t) => has_prefix(header@, bearer_prefix()) && t@ == header@.skip(
                bearer_prefix().len() as int,
            ),
            None => !has_prefix(header@, bearer_prefix()),
        },
{
    let prefix = "Bearer ";
    if starts_with(header, prefix) {
        Some(header.substring_char(prefix.unicode_len(), header.unicode_len()))
    } else {
        None
    }
}

/// Whether the presented token is the configured one, compared in constant
/// time over their bytes.
pub fn token_matches(expected: &str, provided: &str) -> (res: bool)
    ensures
        res == (expected@ == provided@),
{
    let res = bytes_ct_eq(expected.as_bytes(), provided.as_bytes());
    proof {
        vstd::utf8::encode_utf8_decode_utf8(expected@);
        vstd::utf8::encode_utf8_decode_utf8(provided@);
    }
    res
}

/// Decides whether a request may pass the authentication layer, given its
/// `Authorization` header (`None` where it is absent or not visible ASCII).
pub fn bearer_auth(cfg: &Config, authorization: Option<&str>) -> (res: Result<(), AuthFailure>)
    ensures
        res == auth_verdict(cfg.token@, opt_str_view(authorization)),
{
    match authorization {
        None => Err(AuthFailure::NoBearer),
        Some(header) => match bearer_credential(header) {
            None => Err(AuthFailure::NoBearer),
            Some(provided) => if token_matches(cfg.token.as_str(), provided) {
                Ok(())
            } else {
                Err(AuthFailure::InvalidToken)
            },
        },
    }
}

/// A refused request is answered 401 with an empty body, so that the answer
/// leaks nothing, not even the reason.
pub open spec fn is_refusal(res: (u16, String)) -> bool {
    res.0 == 401 && res.1@.len() == 0
}

impl AuthFailure {
    /// The answer to a refused request, status and body: whatever the
    /// reason, 401 with an empty body.
    pub fn response(&self) -> (res: (u16, String))
        ensures
            is_refusal(res),
    {
        (401, String::new())
    }
}

/// A request passes exactly when its header is `Bearer ` followed by the
/// configured token.
pub proof fn lemma_passes_exactly_with_bearer_token(token: Seq<char>, header: Option<Seq<char>>)
    ensures
        auth_verdict(token, header) is Ok <==> header == Some("Bearer "@ + token),
{
    let p = bearer_prefix();
    if let Some(h) = header {
        if auth_verdict(token, header) is Ok {
            assert(h =~= p + token) by {
                assert(h.take(p.len() as int) == p);
                assert forall|i: int| 0 <= i < h.len() implies h[i] == (p + token)[i] by {
                    if i < p.len() {
                        assert(h.take(p.len() as int)[i] == h[i]);
                    } else {
                        assert(h.skip(p.len() as int)[i - p.len()] == h[i]);
                    }
                }
            }
        }
        if h == p + token {
            assert(h.take(p.len() as int) =~= p);
            assert(h.skip(p.len() as int) =~= token);
        }
    }
}

/// Why a request is refused: a header that begins with `Bearer ` but
/// carries another token is a wrong token; any other refused header, or
/// none, lacks the bearer scheme.
pub proof fn lemma_refusal_reason(token: Seq<char>, header: Seq<char>)
    ensures
        header.len() >= 7 && header.take(7) == "Bearer "@ && header.skip(7) != token
            ==> auth_verdict(token, Some(header)) == Err::<(), AuthFailure>(
            AuthFailure::InvalidToken,
        ),
        !(header.len() >= 7 && header.take(7) == "Bearer "@) ==> auth_verdict(token, Some(header))
            == Err::<(), AuthFailure>(AuthFailure::NoBearer),
{
    reveal_strlit("Bearer ");
}

/// A refusal is the status 401 with an empty body.
pub proof fn lemma_refusal_answer(res: (u16, String))
    requires
        is_refusal(res),
    ensures
        res.0 == 401,
        res.1@ == Seq::<char>::empty(),
{
    assert(res.1@ =~= Seq::<char>::empty());
}

/// A request without an `Authorization` header is refused.
pub proof fn lemma_missing_header_refused(token: Seq<char>)
    ensures
        auth_verdict(token, None) == Err::<(), AuthFailure>(AuthFailure::NoBearer),
{
}

} // verus!
