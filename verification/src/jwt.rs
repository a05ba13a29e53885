//! JWT token utilities.
//!
//! A token's payload is the middle of its three dot-separated parts,
//! base64-decoded and read as JSON.  The four claims the library knows
//! (`type`, `exp`, `collectionId`, `id`) depend on the decoded bytes
//! alone, so they carry names the contracts speak of exactly.  A token
//! without that shape yields the empty payload, and an empty payload
//! counts as expired.

use vstd::prelude::*;
use crate::cookie::find_from;
use crate::messages::json_parses;
use crate::strutil::push_char;

verus! {

/// JWT token payload.
#[derive(Debug, Clone, Default)]
pub struct TokenPayload {
    /// Token type (e.g. `auth`).
    pub token_type: Option<String>,
    /// Expiration timestamp, seconds since the epoch.
    pub exp: Option<u64>,
    /// Collection id.
    pub collection_id: Option<String>,
    /// Record or user id.
    pub id: Option<String>,
}

/// The middle of the three dot-separated token parts, when the token
/// has exactly that shape.
pub open spec fn jwt_payload_section(s: Seq<char>) -> Option<Seq<char>> {
    let p1 = find_from(s, '.', 0);
    if p1 < 0 {
        Option::None
    } else {
        let p2 = find_from(s, '.', p1 + 1);
        if p2 < 0 {
            Option::None
        } else if find_from(s, '.', p2 + 1) >= 0 {
            Option::None
        } else {
            Option::Some(s.subrange(p1 + 1, p2))
        }
    }
}

/// The standard-alphabet, padded form the fallback decoding uses:
/// `-` and `_` mapped back to `+` and `/`, padding appended by length.
pub open spec fn b64_fixup(s: Seq<char>) -> Seq<char> {
    let mapped = s.map_values(
        |c: char|
            if c == '-' {
                '+'
            } else if c == '_' {
                '/'
            } else {
                c
            },
    );
    if s.len() % 4 == 2 {
        mapped + seq!['=', '=']
    } else if s.len() % 4 == 3 {
        mapped + seq!['=']
    } else {
        mapped
    }
}

/// What base64's URL-safe, unpadded decoding yields; the result depends
/// on the input alone.
pub uninterp spec fn b64_url_of(s: Seq<char>) -> Option<Seq<u8>>;

/// What base64's standard, padded decoding yields; the result depends
/// on the input alone.
pub uninterp spec fn b64_std_of(s: Seq<char>) -> Option<Seq<u8>>;

/// The `type` claim the payload bytes decode to, when it is a string.
pub uninterp spec fn payload_type_of(bytes: Seq<u8>) -> Option<Seq<char>>;

/// The `exp` claim the payload bytes decode to, when it is an integer.
pub uninterp spec fn payload_exp_of(bytes: Seq<u8>) -> Option<u64>;

/// The `collectionId` claim the payload bytes decode to.
pub uninterp spec fn payload_collection_of(bytes: Seq<u8>) -> Option<Seq<char>>;

/// The `id` claim the payload bytes decode to.
pub uninterp spec fn payload_id_of(bytes: Seq<u8>) -> Option<Seq<char>>;

/// The decoded bytes of a token's payload section: the URL-safe
/// decoding of the middle part, or the standard-alphabet fallback.
pub open spec fn payload_bytes_of(token: Seq<char>) -> Option<Seq<u8>> {
    match jwt_payload_section(token) {
        Option::None => Option::None,
        Option::Some(part) => match b64_url_of(part) {
            Option::Some(b) => Option::Some(b),
            Option::None => b64_std_of(b64_fixup(part)),
        },
    }
}

/// Relies on base64's URL_SAFE_NO_PAD engine: decodes or fails by the
/// input alone.
#[verifier::external_body]
fn b64_url_decode(s: &str) -> (r: Option<Vec<u8>>)
    ensures
        match r {
            Option::Some(v) => b64_url_of(s@) == Option::Some(v@),
            Option::None => b64_url_of(s@) is None,
        },
{
    base64::Engine::decode(&base64::engine::general_purpose::URL_SAFE_NO_PAD, s).ok()
}

/// Relies on base64's STANDARD engine: decodes or fails by the input
/// alone.
#[verifier::external_body]
fn b64_std_decode(s: &str) -> (r: Option<Vec<u8>>)
    ensures
        match r {
            Option::Some(v) => b64_std_of(s@) == Option::Some(v@),
            Option::None => b64_std_of(s@) is None,
        },
{
    base64::Engine::decode(&base64::engine::general_purpose::STANDARD, s).ok()
}

/// Relies on SystemTime::now and duration_since: seconds since the
/// epoch, or zero before it.  A clock reading promises nothing.
#[verifier::external_body]
pub(crate) fn now_unix_secs() -> u64 {
    std::time::SystemTime::now().duration_since(std::time::UNIX_EPOCH).map(
        |d| d.as_secs(),
    ).unwrap_or(0)
}

/// Relies on serde_json::from_slice and serde_json::Value's `get`,
/// `as_str` and `as_u64`: the four known claims depend on the payload
/// bytes alone; bytes that do not parse as JSON carry no claims.
#[verifier::external_body]
fn decode_payload(bytes: &Vec<u8>) -> (r: TokenPayload)
    ensures
        (match r.token_type {
            Option::Some(s) => payload_type_of(bytes@) == Option::Some(s@),
            Option::None => payload_type_of(bytes@) is None,
        }),
        r.exp == payload_exp_of(bytes@),
        (match r.collection_id {
            Option::Some(s) => payload_collection_of(bytes@) == Option::Some(s@),
            Option::None => payload_collection_of(bytes@) is None,
        }),
        (match r.id {
            Option::Some(s) => payload_id_of(bytes@) == Option::Some(s@),
            Option::None => payload_id_of(bytes@) is None,
        }),
        !json_parses(bytes@) ==> r.token_type is None && r.exp is None && r.collection_id is None
            && r.id is None,
{
    let v: serde_json::Value = match serde_json::from_slice(bytes.as_slice()) {
        Ok(v) => v,
        Err(_) => {
            return TokenPayload { token_type: None, exp: None, collection_id: None, id: None };
        },
    };
    TokenPayload {
        token_type: v.get("type").and_then(|x| x.as_str()).map(|s| s.to_owned()),
        exp: v.get("exp").and_then(|x| x.as_u64()),
        collection_id: v.get("collectionId").and_then(|x| x.as_str()).map(|s| s.to_owned()),
        id: v.get("id").and_then(|x| x.as_str()).map(|s| s.to_owned()),
    }
}

/// Whether the payload is empty: no `exp`, no `type` and no `id` claim
/// (an invalid token string decodes to exactly this).
pub open spec fn payload_is_empty(p: TokenPayload) -> bool {
    p.exp is None && p.token_type is None && p.id is None
}

/// The standard-alphabet fallback input for a payload section.
fn b64_fixup_exec(s: &str) -> (r: String)
    ensures
        r@ == b64_fixup(s@),
{
    let n = s.unicode_len();
    let mut out = String::new();
    let mut i: usize = 0;
    proof {
        assert(out@ =~= s@.subrange(0, 0).map_values(
            |c: char|
                if c == '-' {
                    '+'
                } else if c == '_' {
                    '/'
                } else {
                    c
                },
        ));
    }
    #[verifier::loop_isolation(false)]
    while i < n
        invariant
            i <= n,
            n == s@.len(),
            out@ == s@.subrange(0, i as int).map_values(
                |c: char|
                    if c == '-' {
                        '+'
                    } else if c == '_' {
                        '/'
                    } else {
                        c
                    },
            ),
        decreases n - i,
    {
        let c = s.get_char(i);
        if c == '-' {
            push_char(&mut out, '+');
        } else if c == '_' {
            push_char(&mut out, '/');
        } else {
            push_char(&mut out, c);
        }
        proof {
            assert(out@ =~= s@.subrange(0, i + 1).map_values(
                |c: char|
                    if c == '-' {
                        '+'
                    } else if c == '_' {
                        '/'
                    } else {
                        c
                    },
            ));
        }
        i += 1;
    }
    proof {
        assert(s@.subrange(0, n as int) =~= s@);
    }
    let rem = n % 4;
    if rem == 2 {
        push_char(&mut out, '=');
        push_char(&mut out, '=');
    } else if rem == 3 {
        push_char(&mut out, '=');
    }
    proof {
        assert(out@ =~= b64_fixup(s@));
    }
    out
}

/// Returns the token's payload data.  A token without the three-part
/// shape, or whose payload does not base64-decode, yields the empty
/// payload; otherwise each known claim is exactly what the decoded
/// bytes carry.
pub fn get_token_payload(token: &str) -> (r: TokenPayload)
    ensures
        ({
            match payload_bytes_of(token@) {
                Option::None => r.token_type is None && r.exp is None && r.collection_id is None
                    && r.id is None,
                Option::Some(bytes) => {
                    &&& (match r.token_type {
                        Option::Some(s) => payload_type_of(bytes) == Option::Some(s@),
                        Option::None => payload_type_of(bytes) is None,
                    })
                    &&& r.exp == payload_exp_of(bytes)
                    &&& (match r.collection_id {
                        Option::Some(s) => payload_collection_of(bytes) == Option::Some(s@),
                        Option::None => payload_collection_of(bytes) is None,
                    })
                    &&& (match r.id {
                        Option::Some(s) => payload_id_of(bytes) == Option::Some(s@),
                        Option::None => payload_id_of(bytes) is None,
                    })
                },
            }
        }),
        jwt_payload_section(token@) is None ==> payload_is_empty(r),
{
    let n = token.unicode_len();
    if n == 0 {
        proof {
            assert(jwt_payload_section(token@) is None);
        }
        return TokenPayload {
            token_type: Option::None,
            exp: Option::None,
            collection_id: Option::None,
            id: Option::None,
        };
    }
    proof {
        crate::cookie::lemma_find_from(token@, '.', 0);
    }
    let p1 = match crate::cookie::find_from_exec(token, '.', 0) {
        Option::None => {
            return TokenPayload {
                token_type: Option::None,
                exp: Option::None,
                collection_id: Option::None,
                id: Option::None,
            };
        },
        Option::Some(p) => p,
    };
    proof {
        crate::cookie::lemma_find_from(token@, '.', p1 + 1);
    }
    let p2 = match crate::cookie::find_from_exec(token, '.', p1 + 1) {
        Option::None => {
            return TokenPayload {
                token_type: Option::None,
                exp: Option::None,
                collection_id: Option::None,
                id: Option::None,
            };
        },
        Option::Some(p) => p,
    };
    proof {
        crate::cookie::lemma_find_from(token@, '.', p2 + 1);
    }
    match crate::cookie::find_from_exec(token, '.', p2 + 1) {
        Option::Some(_) => {
            return TokenPayload {
                token_type: Option::None,
                exp: Option::None,
                collection_id: Option::None,
                id: Option::None,
            };
        },
        Option::None => {},
    }
    let part = crate::cookie::str_range(token, p1 + 1, p2);
    let decoded = match b64_url_decode(part.as_str()) {
        Option::Some(d) => d,
        Option::None => {
            let fixed = b64_fixup_exec(part.as_str());
            match b64_std_decode(fixed.as_str()) {
                Option::Some(d) => d,
                Option::None => {
                    return TokenPayload {
                        token_type: Option::None,
                        exp: Option::None,
                        collection_id: Option::None,
                        id: Option::None,
                    };
                },
            }
        },
    };
    proof {
        assert(payload_bytes_of(token@) == Option::Some(decoded@));
    }
    decode_payload(&decoded)
}

/// Whether the payload counts as expired at the given clock reading:
/// an empty payload is always expired, a payload without `exp` never
/// expires, and otherwise the token is expired once `exp` minus the
/// threshold has been reached.
pub fn payload_expired(payload: &TokenPayload, expiration_threshold: u64, now: u64) -> (r: bool)
    ensures
        r == ({
            if payload_is_empty(*payload) {
                true
            } else {
                match payload.exp {
                    Option::None => false,
                    Option::Some(exp) => (if exp >= expiration_threshold {
                        exp - expiration_threshold
                    } else {
                        0
                    }) <= now,
                }
            }
        }),
{
    if payload.exp.is_none() && payload.token_type.is_none() && payload.id.is_none() {
        return true;
    }
    match payload.exp {
        Option::None => false,
        Option::Some(exp) => {
            let adjusted = if exp >= expiration_threshold {
                exp - expiration_threshold
            } else {
                0
            };
            adjusted <= now
        },
    }
}

/// Whether a JWT token is expired.  Tokens without an `exp` claim never
/// expire; tokens with an empty payload (invalid token strings) count
/// as expired.  The decision for a given clock reading is exactly
/// [`payload_expired`] of [`get_token_payload`]'s result.
pub fn is_token_expired(token: &str, expiration_threshold: u64) -> (r: bool)
    ensures
        jwt_payload_section(token@) is None ==> r == true,
        token@.len() == 0 ==> r == true,
        payload_bytes_of(token@) matches Option::Some(bytes) && payload_exp_of(bytes) is None
            && !(payload_type_of(bytes) is None && payload_id_of(bytes) is None) ==> r == false,
{
    let payload = get_token_payload(token);
    let now = now_unix_secs();
    proof {
        if token@.len() == 0 {
            assert(jwt_payload_section(token@) is None);
        }
    }
    payload_expired(&payload, expiration_threshold, now)
}

} // verus!
