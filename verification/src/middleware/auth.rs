use vstd::prelude::*;
use crate::config::AuthConfig;
use crate::router::{header_index, Headers};
use crate::text::{has_prefix, str_eq, strip_prefix};

verus! {

/// What the authentication middleware does with a request.
pub enum AuthOutcome {
    /// The request goes on.
    Pass,
    /// The request is answered with `status` and `message`.
    Reject { status: u16, message: String },
}

/// An outcome as `None` (pass) or the status and message of the rejection.
pub open spec fn outcome_view(o: AuthOutcome) -> Option<(u16, Seq<char>)> {
    match o {
        AuthOutcome::Pass => None,
        AuthOutcome::Reject { status, message } => Some((status, message@)),
    }
}

/// The views of a list of strings.
pub open spec fn name_views(v: Seq<String>) -> Seq<Seq<char>> {
    v.map_values(|s: String| s@)
}

/// Index of the first required claim missing from `present`.
pub open spec fn first_missing(required: Seq<Seq<char>>, present: Seq<Seq<char>>) -> Option<int>
    decreases required.len(),
{
    if required.len() == 0 {
        None
    } else {
        match first_missing(required.drop_last(), present) {
            Some(i) => Some(i),
            None => if present.contains(required.last()) {
                None
            } else {
                Some(required.len() - 1)
            },
        }
    }
}

/// The verdict on a decoded token: a decoding error is a 401 naming it; a missing
/// required claim (the first, in configuration order) is a 401 naming it; otherwise pass.
pub open spec fn claims_verdict(
    required: Option<Seq<Seq<char>>>,
    decoded: Result<Seq<Seq<char>>, Seq<char>>,
) -> Option<(u16, Seq<char>)> {
    match decoded {
        Err(e) => Some((401u16, "Invalid token: "@ + e)),
        Ok(present) => match required {
            None => None,
            Some(req) => match first_missing(req, present) {
                Some(i) => Some((401u16, "Missing required claim: "@ + req[i])),
                None => None,
            },
        },
    }
}

/// `jsonwebtoken::errors::Error`, the error a token decoding returns.
#[verifier::external_type_specification]
#[verifier::external_body]
pub struct ExJwtError(jsonwebtoken::errors::Error);

/// What `jsonwebtoken::decode` finds in a token before it looks at the clock: when the
/// token reads `header.payload.signature`, its header names HS256, the HMAC-SHA256
/// signature of `header.payload` verifies with `secret`, and the payload is a JSON
/// object, the claims of that object, each name mapped to its value when that value is
/// a JSON string and to `None` otherwise; `None` when any of this fails.
pub uninterp spec fn hs256_claims(token: Seq<char>, secret: Seq<char>) -> Option<Map<Seq<char>, Option<Seq<char>>>>;

/// Does a set of claims meet an issuer requirement as `jsonwebtoken` checks it? With
/// an issuer configured, an `iss` claim that is a string must equal it.
pub open spec fn issuer_accepted(claims: Map<Seq<char>, Option<Seq<char>>>, issuer: Option<Seq<char>>) -> bool {
    match issuer {
        None => true,
        Some(iss) => !(claims.contains_key("iss"@) && claims["iss"@] is Some) || claims["iss"@]->0 == iss,
    }
}

/// Could the decoder have returned `d` for a token with these claims? An error always
/// can (the expiry depends on the clock); a list of claim names only when the signature
/// verified, the names are those of the claims, and the issuer requirement holds.
pub open spec fn decode_fits(
    d: Result<Seq<Seq<char>>, Seq<char>>,
    claims: Option<Map<Seq<char>, Option<Seq<char>>>>,
    issuer: Option<Seq<char>>,
) -> bool {
    match d {
        Err(_) => true,
        Ok(names) => match claims {
            Some(m) => names.to_set() == m.dom() && issuer_accepted(m, issuer),
            None => false,
        },
    }
}

/// Decodes an HS256 token with `jsonwebtoken::decode` (`DecodingKey::from_secret`,
/// `Validation::new(HS256)` with the expiry checked) and returns the names of its claims
/// or the crate's error. Success depends on the clock, so it is not promised; what is
/// stated is that a success means the signature verified and the names are the token's
/// claim names, as `hs256_claims` gives them.
#[verifier::external_body]
fn decode_token(token: &str, secret: &str) -> (r: Result<Vec<String>, jsonwebtoken::errors::Error>)
    ensures
        r matches Ok(v) ==> (hs256_claims(token@, secret@) matches Some(m) && name_views(v@).to_set() == m.dom()),
{
    let key = jsonwebtoken::DecodingKey::from_secret(secret.as_bytes());
    let mut validation = jsonwebtoken::Validation::new(jsonwebtoken::Algorithm::HS256);
    validation.validate_exp = true;
    match jsonwebtoken::decode::<std::collections::HashMap<String, serde_json::Value>>(token, &key, &validation) {
        Ok(data) => Ok(data.claims.into_keys().collect()),
        Err(e) => Err(e),
    }
}

/// As `decode_token`, with `Validation::set_issuer(&[issuer])`: a success also means
/// that an `iss` claim holding a string holds `issuer`.
#[verifier::external_body]
fn decode_token_with_issuer(token: &str, secret: &str, issuer: &str) -> (r: Result<Vec<String>, jsonwebtoken::errors::Error>)
    ensures
        r matches Ok(v) ==> (hs256_claims(token@, secret@) matches Some(m) && name_views(v@).to_set() == m.dom()
            && issuer_accepted(m, Some(issuer@))),
{
    let key = jsonwebtoken::DecodingKey::from_secret(secret.as_bytes());
    let mut validation = jsonwebtoken::Validation::new(jsonwebtoken::Algorithm::HS256);
    validation.validate_exp = true;
    validation.set_issuer(&[issuer]);
    match jsonwebtoken::decode::<std::collections::HashMap<String, serde_json::Value>>(token, &key, &validation) {
        Ok(data) => Ok(data.claims.into_keys().collect()),
        Err(e) => Err(e),
    }
}

/// The text `Display` writes for a `jsonwebtoken` error (`e.to_string()`). The error is
/// opaque here, so nothing is stated of the text.
#[verifier::external_body]
fn jwt_error_text(e: &jsonwebtoken::errors::Error) -> (r: String) {
    e.to_string()
}

fn list_contains(list: &Vec<String>, s: &String) -> (r: bool)
    ensures
        r == name_views(list@).contains(s@),
{
    let mut i: usize = 0;
    while i < list.len()
        invariant
            i <= list@.len(),
            forall|k: int| 0 <= k < i ==> list@[k]@ != s@,
        decreases list@.len() - i,
    {
        if str_eq(list[i].as_str(), s.as_str()) {
            proof {
                assert(name_views(list@)[i as int] == s@);
            }
            return true;
        }
        i = i + 1;
    }
    proof {
        if name_views(list@).contains(s@) {
            let k = choose|k: int| 0 <= k < name_views(list@).len() && name_views(list@)[k] == s@;
            assert(list@[k]@ == s@);
        }
    }
    false
}

/// The required claims as views.
pub open spec fn required_view(required: Option<Vec<String>>) -> Option<Seq<Seq<char>>> {
    match required {
        Some(v) => Some(name_views(v@)),
        None => None,
    }
}

/// The decoding result as views.
pub open spec fn decoded_view(d: Result<Vec<String>, String>) -> Result<Seq<Seq<char>>, Seq<char>> {
    match d {
        Ok(v) => Ok(name_views(v@)),
        Err(e) => Err(e@),
    }
}

/// Judges a decoded token: rejects a decoding error or a missing required claim.
pub fn check_claims(required: &Option<Vec<String>>, decoded: &Result<Vec<String>, String>) -> (r: AuthOutcome)
    ensures
        outcome_view(r) == claims_verdict(required_view(*required), decoded_view(*decoded)),
{
    match decoded {
        Err(e) => {
            let mut m = String::from_str("Invalid token: ");
            m.append(e.as_str());
            AuthOutcome::Reject { status: 401, message: m }
        },
        Ok(present) => match required {
            None => AuthOutcome::Pass,
            Some(req) => {
                let mut i: usize = 0;
                while i < req.len()
                    invariant
                        i <= req@.len(),
                        first_missing(name_views(req@).take(i as int), name_views(present@)) is None,
                        required_view(*required) == Some(name_views(req@)),
                        decoded_view(*decoded) == Ok::<Seq<Seq<char>>, Seq<char>>(name_views(present@)),
                    decreases req@.len() - i,
                {
                    proof {
                        assert(name_views(req@).take(i + 1).drop_last() =~= name_views(req@).take(i as int));
                        assert(name_views(req@).take(i + 1).last() == req@[i as int]@);
                    }
                    if !list_contains(present, &req[i]) {
                        let mut m = String::from_str("Missing required claim: ");
                        m.append(req[i].as_str());
                        proof {
                            assert(name_views(req@)[i as int] == req@[i as int]@);
                            lemma_first_missing_prefix(name_views(req@), name_views(present@), i as int);
                            assert(first_missing(name_views(req@), name_views(present@)) == Some(i as int));
                            assert(m@ == "Missing required claim: "@ + req@[i as int]@);
                        }
                        return AuthOutcome::Reject { status: 401, message: m };
                    }
                    i = i + 1;
                }
                proof {
                    assert(name_views(req@).take(req@.len() as int) =~= name_views(req@));
                }
                AuthOutcome::Pass
            },
        },
    }
}

proof fn lemma_first_missing_prefix(req: Seq<Seq<char>>, present: Seq<Seq<char>>, i: int)
    requires
        0 <= i < req.len(),
        first_missing(req.take(i), present) is None,
        !present.contains(req[i]),
    ensures
        first_missing(req, present) == Some(i),
    decreases req.len(),
{
    if i == req.len() - 1 {
        assert(req.drop_last() =~= req.take(i));
    } else {
        assert(req.drop_last().take(i) =~= req.take(i));
        lemma_first_missing_prefix(req.drop_last(), present, i);
    }
}

/// The issuer requirement of a configuration as a view.
pub open spec fn issuer_view(issuer: Option<String>) -> Option<Seq<char>> {
    match issuer {
        Some(s) => Some(s@),
        None => None,
    }
}

/// The authentication middleware: without an `auth` configuration every request passes.
/// Otherwise the `Authorization` header must be present (401), be text (400) and read
/// `Bearer <token>` (401); the token after `Bearer ` is then decoded with the configured
/// secret (and issuer) and judged by `check_claims`, so the outcome is the verdict on a
/// result the decoder can return for that token: a request passes only when the token's
/// signature verifies, and a token whose signature does not verify is answered 401.
pub fn require_auth(auth_cfg: &Option<AuthConfig>, headers: &Headers) -> (r: AuthOutcome)
    ensures
        match *auth_cfg {
            None => outcome_view(r) is None,
            Some(auth) => match header_index(headers.entries@, "authorization"@) {
                None => outcome_view(r) == Some((401u16, "Missing Authorization header"@)),
                Some(i) => match headers.entries@[i].value {
                    None => outcome_view(r) == Some((400u16, "Malformed Authorization header"@)),
                    Some(v) => if !has_prefix(v@, "Bearer "@) {
                        outcome_view(r) == Some((401u16, "Authorization must be 'Bearer <token>'"@))
                    } else {
                        let claims = hs256_claims(v@.skip("Bearer "@.len() as int), auth.secret@);
                        &&& exists|d: Result<Seq<Seq<char>>, Seq<char>>|
                            #[trigger] decode_fits(d, claims, issuer_view(auth.issuer))
                                && outcome_view(r) == claims_verdict(required_view(auth.required_claims), d)
                        &&& outcome_view(r) is None ==> claims is Some
                        &&& claims is None ==> (outcome_view(r) matches Some((status, _)) && status == 401)
                    },
                },
            },
        },
{
    let auth = match auth_cfg {
        None => return AuthOutcome::Pass,
        Some(a) => a,
    };
    proof {
        crate::router::lemma_header_index(headers.entries@, "authorization"@);
    }
    let idx = match headers.index_of("authorization") {
        None => {
            return AuthOutcome::Reject { status: 401, message: String::from_str("Missing Authorization header") };
        },
        Some(i) => i,
    };
    let value = match &headers.entries[idx].value {
        None => {
            return AuthOutcome::Reject { status: 400, message: String::from_str("Malformed Authorization header") };
        },
        Some(v) => v,
    };
    let token = match strip_prefix(value.as_str(), "Bearer ") {
        None => {
            return AuthOutcome::Reject {
                status: 401,
                message: String::from_str("Authorization must be 'Bearer <token>'"),
            };
        },
        Some(t) => t,
    };
    let ghost claims = hs256_claims(token@, auth.secret@);
    let result = match &auth.issuer {
        Some(iss) => decode_token_with_issuer(token.as_str(), auth.secret.as_str(), iss.as_str()),
        None => decode_token(token.as_str(), auth.secret.as_str()),
    };
    let decoded: Result<Vec<String>, String> = match result {
        Ok(names) => Ok(names),
        Err(e) => Err(jwt_error_text(&e)),
    };
    let r = check_claims(&auth.required_claims, &decoded);
    proof {
        let d = decoded_view(decoded);
        assert(decode_fits(d, claims, issuer_view(auth.issuer)));
        if claims is None {
            assert(d is Err);
        }
    }
    r
}

} // verus!
