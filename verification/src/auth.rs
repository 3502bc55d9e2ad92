//! Tokens by which Connectors prove what they may expose.

use jsonwebtoken::errors::ErrorKind;
use jsonwebtoken::{decode, DecodingKey, EncodingKey, Header, Validation};
use serde::Deserialize;
use serde_json::Value;
use vstd::prelude::*;
use vstd::string::*;
use crate::error::{ErrorView, SieveTubeError};
use crate::text;

verus! {

/// Claims embedded in the JWT used by Connectors to authenticate with Edges.
#[derive(Debug)]
pub struct TunnelClaims {
    /// Subject: unique tenant identifier
    pub sub: String,
    /// List of hostnames this tenant is allowed to expose
    pub hostnames: Vec<String>,
    /// Expiry (Unix timestamp)
    pub exp: u64,
    /// Issued at (Unix timestamp)
    pub iat: u64,
}

/// The values that [`TunnelClaims`] hold.
#[verifier::ext_equal]
pub struct ClaimsView {
    pub sub: Seq<char>,
    pub hostnames: Seq<Seq<char>>,
    pub exp: u64,
    pub iat: u64,
}

impl View for TunnelClaims {
    type V = ClaimsView;

    open spec fn view(&self) -> ClaimsView {
        ClaimsView {
            sub: self.sub@,
            hostnames: text::views(self.hostnames@),
            exp: self.exp,
            iat: self.iat,
        }
    }
}

/// A token that was found to be valid.
#[derive(Debug)]
pub struct TokenData {
    pub claims: TunnelClaims,
}

/// The claims of a token as they stand in it: each may be missing, or be of another
/// type, which is then said in words.
#[derive(Debug)]
pub struct RawClaims {
    pub sub: Option<Result<String, String>>,
    pub hostnames: Option<Result<Vec<String>, String>>,
    pub exp: Option<Result<u64, String>>,
    pub iat: Option<Result<u64, String>>,
}

/// The values that [`RawClaims`] hold.
#[verifier::ext_equal]
pub struct RawClaimsView {
    pub sub: Option<Result<Seq<char>, Seq<char>>>,
    pub hostnames: Option<Result<Seq<Seq<char>>, Seq<char>>>,
    pub exp: Option<Result<u64, Seq<char>>>,
    pub iat: Option<Result<u64, Seq<char>>>,
}

/// A number that a token may hold.
pub open spec fn number_view(claim: Option<Result<u64, String>>) -> Option<Result<u64, Seq<char>>> {
    match claim {
        Some(Ok(n)) => Some(Ok(n)),
        Some(Err(e)) => Some(Err(e@)),
        None => None,
    }
}

impl View for RawClaims {
    type V = RawClaimsView;

    open spec fn view(&self) -> RawClaimsView {
        RawClaimsView {
            sub: match self.sub {
                Some(Ok(s)) => Some(Ok(s@)),
                Some(Err(e)) => Some(Err(e@)),
                None => None,
            },
            hostnames: match self.hostnames {
                Some(Ok(v)) => Some(Ok(text::views(v@))),
                Some(Err(e)) => Some(Err(e@)),
                None => None,
            },
            exp: number_view(self.exp),
            iat: number_view(self.iat),
        }
    }
}

/// Claims as they stand in a token that holds all of them.
pub open spec fn raw_view(claims: ClaimsView) -> RawClaimsView {
    RawClaimsView {
        sub: Some(Ok(claims.sub)),
        hostnames: Some(Ok(claims.hostnames)),
        exp: Some(Ok(claims.exp)),
        iat: Some(Ok(claims.iat)),
    }
}

/// Whether a token can be used now.
#[derive(Debug)]
pub enum Validity {
    Valid,
    Expired,
    Rejected(String),
}

/// What decoding a token with a secret gives: its claims, or why it is no token that
/// was signed with the secret.
pub uninterp spec fn decoded(token: Seq<char>, secret: Seq<u8>) -> Result<RawClaimsView, Seq<char>>;

/// Why a token is rejected as long as it has not expired, if so.
pub uninterp spec fn rejection(token: Seq<char>, secret: Seq<u8>) -> Option<Seq<char>>;

/// `jsonwebtoken::encode` with the default header (HS256): a token, which is decoded
/// with the same secret to the same claims, and not rejected with it. With a secret as
/// its key and claims of texts and whole numbers it does not fail.
#[verifier::external_body]
fn encode_claims(claims: &TunnelClaims, secret: &[u8]) -> (r: Result<String, String>)
    ensures
        match r {
            Ok(token) => decoded(token@, secret@) == Ok::<RawClaimsView, Seq<char>>(
                raw_view(claims@),
            ) && rejection(token@, secret@) is None,
            Err(_) => false,
        },
{
    let mut map = serde_json::Map::new();
    map.insert("sub".to_string(), Value::from(claims.sub.clone()));
    map.insert("hostnames".to_string(), Value::from(claims.hostnames.clone()));
    map.insert("exp".to_string(), Value::from(claims.exp));
    map.insert("iat".to_string(), Value::from(claims.iat));
    let value = Value::Object(map);
    jsonwebtoken::encode(&Header::default(), &value, &EncodingKey::from_secret(secret)).map_err(
        |e| e.to_string(),
    )
}

/// `jsonwebtoken::decode` with HS256, without a check of any claim: the claims of a
/// token that was signed with the secret. Where `hostnames` or `iat` stands in it twice,
/// the last one counts.
#[verifier::external_body]
fn decode_claims(token: &str, secret: &[u8]) -> (r: Result<RawClaims, String>)
    ensures
        raw_result(r) == decoded(token@, secret@),
{
    let mut validation = Validation::default();
    validation.required_spec_claims.clear();
    validation.validate_exp = false;
    validation.validate_aud = false;
    let data = decode::<Value>(token, &DecodingKey::from_secret(secret), &validation);
    let claims = data.map_err(|e| e.to_string())?.claims;
    let words = |e: serde_json::Error| e.to_string();
    Ok(RawClaims {
        sub: claims.get("sub").map(|v| String::deserialize(v).map_err(words)),
        hostnames: claims.get("hostnames").map(|v| Vec::deserialize(v).map_err(words)),
        exp: claims.get("exp").map(|v| u64::deserialize(v).map_err(words)),
        iat: claims.get("iat").map(|v| u64::deserialize(v).map_err(words)),
    })
}

/// How long a token can be used after its expiry, in seconds.
pub const EXPIRY_LEEWAY_SECS: u64 = 0;

/// `jsonwebtoken::decode` with HS256, with its checks of claims: whether a token can be
/// used now. When it is past its expiry and the leeway is decided by the clock, and only
/// of a token that was signed with the secret; otherwise the outcome is fixed by token
/// and secret, and named. The leeway is taken from what the clock shows, and a clock may
/// show nothing that can be taken from.
#[verifier::external_body]
fn check_claims(token: &str, secret: &[u8], leeway_secs: u64) -> (r: Validity)
    requires
        leeway_secs == 0,
    ensures
        match r {
            Validity::Valid => rejection(token@, secret@) is None,
            Validity::Expired => decoded(token@, secret@) is Ok,
            Validity::Rejected(e) => rejection(token@, secret@) == Some(e@),
        },
{
    let mut validation = Validation::default();
    validation.leeway = leeway_secs;
    match decode::<Value>(token, &DecodingKey::from_secret(secret), &validation) {
        Ok(_) => Validity::Valid,
        Err(e) if *e.kind() == ErrorKind::ExpiredSignature => Validity::Expired,
        Err(e) => Validity::Rejected(e.to_string()),
    }
}

/// What decoding gave, by the values that it holds.
pub open spec fn raw_result(r: Result<RawClaims, String>) -> Result<RawClaimsView, Seq<char>> {
    match r {
        Ok(raw) => Ok(raw@),
        Err(e) => Err(e@),
    }
}

/// The error for a token past its expiry.
pub open spec fn expired_error() -> ErrorView {
    ErrorView::Auth("ExpiredSignature"@)
}

/// The error for claims that cannot be read.
pub open spec fn claims_error(what: Seq<char>) -> ErrorView {
    ErrorView::Auth("JSON error: "@ + what)
}

/// The claims that a decoded token stands for: all four have to be there, each of its
/// type.
pub open spec fn complete(raw: RawClaimsView) -> Result<ClaimsView, ErrorView> {
    match (raw.sub, raw.hostnames, raw.exp, raw.iat) {
        (Some(Err(e)), _, _, _) => Err(claims_error(e)),
        (_, Some(Err(e)), _, _) => Err(claims_error(e)),
        (_, _, Some(Err(e)), _) => Err(claims_error(e)),
        (_, _, _, Some(Err(e))) => Err(claims_error(e)),
        (None, _, _, _) => Err(claims_error("missing field `sub`"@)),
        (_, None, _, _) => Err(claims_error("missing field `hostnames`"@)),
        (_, _, None, _) => Err(claims_error("missing field `exp`"@)),
        (_, _, _, None) => Err(claims_error("missing field `iat`"@)),
        (Some(Ok(sub)), Some(Ok(hostnames)), Some(Ok(exp)), Some(Ok(iat))) => Ok(
            ClaimsView { sub, hostnames, exp, iat },
        ),
    }
}

/// What is made of a token, by what decoding it gave and by whether it can be used.
pub open spec fn judged(
    raw: Result<RawClaimsView, Seq<char>>,
    validity: Validity,
) -> Result<ClaimsView, ErrorView> {
    match raw {
        Err(e) => Err(ErrorView::Auth(e)),
        Ok(raw) => match (complete(raw), validity) {
            (Err(e), _) => Err(e),
            (Ok(claims), Validity::Valid) => Ok(claims),
            (Ok(_), Validity::Expired) => Err(expired_error()),
            (Ok(_), Validity::Rejected(e)) => Err(ErrorView::Auth(e@)),
        },
    }
}

/// A result by the values that it holds.
pub open spec fn result_view(r: Result<TokenData, SieveTubeError>) -> Result<ClaimsView, ErrorView> {
    match r {
        Ok(data) => Ok(data.claims@),
        Err(e) => Err(e@),
    }
}

fn unreadable(what: &str) -> (r: SieveTubeError)
    ensures
        r@ == claims_error(what@),
{
    SieveTubeError::Auth("JSON error: ".to_owned().concat(what))
}

/// The claims that a decoded token stands for: all four have to be there, each of its
/// type.
fn complete_claims(raw: RawClaims) -> (r: Result<TunnelClaims, SieveTubeError>)
    ensures
        (match r {
            Ok(claims) => Ok(claims@),
            Err(e) => Err(e@),
        }) == complete(raw@),
{
    match (raw.sub, raw.hostnames, raw.exp, raw.iat) {
        (Some(Err(e)), _, _, _) => Err(unreadable(e.as_str())),
        (_, Some(Err(e)), _, _) => Err(unreadable(e.as_str())),
        (_, _, Some(Err(e)), _) => Err(unreadable(e.as_str())),
        (_, _, _, Some(Err(e))) => Err(unreadable(e.as_str())),
        (None, _, _, _) => Err(unreadable("missing field `sub`")),
        (_, None, _, _) => Err(unreadable("missing field `hostnames`")),
        (_, _, None, _) => Err(unreadable("missing field `exp`")),
        (_, _, _, None) => Err(unreadable("missing field `iat`")),
        (Some(Ok(sub)), Some(Ok(hostnames)), Some(Ok(exp)), Some(Ok(iat))) => Ok(
            TunnelClaims { sub, hostnames, exp, iat },
        ),
    }
}

/// Turns what decoding a token gave into its claims, or into an error: first a token
/// that cannot be decoded or lacks a claim is refused, then one that cannot be used.
pub fn judge(raw: Result<RawClaims, String>, validity: Validity) -> (r: Result<
    TokenData,
    SieveTubeError,
>)
    ensures
        result_view(r) == judged(raw_result(raw), validity),
{
    let raw: RawClaims = match raw {
        Ok(raw) => raw,
        Err(e) => {
            return Err(SieveTubeError::Auth(e));
        },
    };
    let claims: TunnelClaims = match complete_claims(raw) {
        Ok(claims) => claims,
        Err(e) => {
            return Err(e);
        },
    };
    match validity {
        Validity::Valid => Ok(TokenData { claims }),
        Validity::Expired => Err(SieveTubeError::Auth("ExpiredSignature".to_owned())),
        Validity::Rejected(e) => Err(SieveTubeError::Auth(e)),
    }
}

/// What verifying a token with a secret gives as long as the token has not expired.
pub open spec fn unexpired(token: Seq<char>, secret: Seq<u8>) -> Result<ClaimsView, ErrorView> {
    match decoded(token, secret) {
        Err(e) => Err(ErrorView::Auth(e)),
        Ok(raw) => match (complete(raw), rejection(token, secret)) {
            (Err(e), _) => Err(e),
            (Ok(claims), None) => Ok(claims),
            (Ok(_), Some(e)) => Err(ErrorView::Auth(e)),
        },
    }
}

/// Whether a token was signed with a secret and holds all claims, an expiry among them.
pub open spec fn can_expire(token: Seq<char>, secret: Seq<u8>) -> bool {
    decoded(token, secret) matches Ok(raw) && complete(raw) is Ok
}

/// What verifying a token with a secret can give: the clock only decides whether a
/// token that was signed with the secret has expired.
pub open spec fn can_give(
    token: Seq<char>,
    secret: Seq<u8>,
    r: Result<ClaimsView, ErrorView>,
) -> bool {
    r == unexpired(token, secret) || (can_expire(token, secret) && r == Err::<
        ClaimsView,
        ErrorView,
    >(expired_error()))
}

/// Signs claims. The token is verified, with the same secret, to the same claims.
pub fn sign_jwt(claims: &TunnelClaims, secret: &[u8]) -> (r: Result<String, SieveTubeError>)
    ensures
        r is Ok,
        unexpired(r->Ok_0@, secret@) == Ok::<ClaimsView, ErrorView>(claims@),
{
    match encode_claims(claims, secret) {
        Ok(token) => Ok(token),
        Err(e) => Err(SieveTubeError::Auth(e)),
    }
}

/// Verifies a token: its signature, its expiry without leeway, its claims.
pub fn verify_jwt(token: &str, secret: &[u8]) -> (r: Result<TokenData, SieveTubeError>)
    ensures
        can_give(token@, secret@, result_view(r)),
{
    judge(decode_claims(token, secret), check_claims(token, secret, EXPIRY_LEEWAY_SECS))
}

/// The first acceptance among results; without one, the first error; without
/// any result, that there was no secret.
pub open spec fn picked(results: Seq<Result<ClaimsView, ErrorView>>) -> Result<
    ClaimsView,
    ErrorView,
> {
    if exists|i: int| 0 <= i < results.len() && (#[trigger] results[i]) is Ok {
        results[first_ok(results, 0)]
    } else if results.len() > 0 {
        results[0]
    } else {
        Err(ErrorView::Auth("no JWT secrets configured"@))
    }
}

/// Where the first acceptance at or after `from` stands.
pub open spec fn first_ok(results: Seq<Result<ClaimsView, ErrorView>>, from: int) -> int
    decreases results.len() - from,
{
    if from >= results.len() || results[from] is Ok {
        from
    } else {
        first_ok(results, from + 1)
    }
}

proof fn lemma_first_ok(results: Seq<Result<ClaimsView, ErrorView>>, from: int, at: int)
    requires
        0 <= from <= at < results.len(),
        results[at] is Ok,
        forall|j: int| from <= j < at ==> (#[trigger] results[j]) is Err,
    ensures
        first_ok(results, from) == at,
    decreases at - from,
{
    if from < at {
        assert(results[from] is Err);
        lemma_first_ok(results, from + 1, at);
    }
}

/// Whether `results` are what the secrets can give, one for one.
pub open spec fn can_give_each(
    token: Seq<char>,
    secrets: Seq<Vec<u8>>,
    results: Seq<Result<ClaimsView, ErrorView>>,
) -> bool {
    &&& results.len() == secrets.len()
    &&& forall|i: int|
        0 <= i < secrets.len() ==> can_give(token, (#[trigger] secrets[i])@, results[i])
}

/// Verify with the active secret and any retained rotation secrets. Secrets
/// should be ordered newest first; signing always remains a separate operation
/// using only the active key.
pub fn verify_jwt_any(token: &str, secrets: &[Vec<u8>]) -> (r: Result<TokenData, SieveTubeError>)
    ensures
        exists|results: Seq<Result<ClaimsView, ErrorView>>|
            can_give_each(token@, secrets@, results) && result_view(r) == #[trigger] picked(results),
{
    let ghost mut given: Seq<Result<ClaimsView, ErrorView>> = Seq::empty();
    let mut first_error: Option<SieveTubeError> = None;
    let mut i: usize = 0;
    while i < secrets.len()
        invariant
            i <= secrets.len(),
            given.len() == i,
            forall|j: int| 0 <= j < i ==> can_give(token@, (#[trigger] secrets@[j])@, given[j]),
            forall|j: int| 0 <= j < i ==> (#[trigger] given[j]) is Err,
            match first_error {
                None => i == 0,
                Some(e) => i > 0 && given[0] == Err::<ClaimsView, ErrorView>(e@),
            },
        decreases secrets.len() - i,
    {
        match verify_jwt(token, secrets[i].as_slice()) {
            Ok(data) => {
                proof {
                    let results = Seq::new(
                        secrets@.len(),
                        |j: int|
                            if j < i {
                                given[j]
                            } else if j == i {
                                Ok(data.claims@)
                            } else {
                                unexpired(token@, secrets@[j]@)
                            },
                    );
                    assert(results[i as int] is Ok);
                    assert forall|j: int| 0 <= j < i implies (#[trigger] results[j]) is Err by {
                        assert(given[j] is Err);
                    }
                    lemma_first_ok(results, 0, i as int);
                    assert(can_give_each(token@, secrets@, results));
                    assert(picked(results) == Ok::<ClaimsView, ErrorView>(data.claims@));
                }
                return Ok(data);
            },
            Err(error) => {
                proof {
                    given = given.push(Err(error@));
                }
                if first_error.is_none() {
                    first_error = Some(error);
                }
            },
        }
        i += 1;
    }
    assert(can_give_each(token@, secrets@, given));
    assert(picked(given) is Err);
    match first_error {
        Some(e) => Err(e),
        None => Err(SieveTubeError::Auth("no JWT secrets configured".to_owned())),
    }
}

/// Rolling rotation: a token that any one of the retained secrets accepts is
/// accepted.
pub proof fn law_any_secret_suffices(results: Seq<Result<ClaimsView, ErrorView>>, i: int)
    requires
        0 <= i < results.len(),
        results[i] is Ok,
    ensures
        picked(results) is Ok,
    decreases i,
{
    lemma_first_ok_is_ok(results, 0, i);
}

proof fn lemma_first_ok_is_ok(results: Seq<Result<ClaimsView, ErrorView>>, from: int, i: int)
    requires
        0 <= from <= i < results.len(),
        results[i] is Ok,
    ensures
        from <= first_ok(results, from) <= i,
        results[first_ok(results, from)] is Ok,
    decreases i - from,
{
    if !(results[from] is Ok) {
        lemma_first_ok_is_ok(results, from + 1, i);
    }
}

/// Claims that are all there and all readable are accepted, each as it is, where the token is
/// valid. What is wrong with the token is what a refusal says.
pub proof fn law_complete_claims_are_judged_by_the_token(
    sub: String,
    hostnames: Vec<String>,
    exp: u64,
    iat: u64,
    validity: Validity,
    r: Result<TokenData, SieveTubeError>,
)
    requires
        call_ensures(
            judge,
            (
                Ok::<RawClaims, String>(
                    RawClaims {
                        sub: Some(Ok(sub)),
                        hostnames: Some(Ok(hostnames)),
                        exp: Some(Ok(exp)),
                        iat: Some(Ok(iat)),
                    },
                ),
                validity,
            ),
            r,
        ),
    ensures
        match validity {
            Validity::Valid => {
                &&& r is Ok
                &&& r->Ok_0.claims.sub@ == sub@
                &&& r->Ok_0.claims.hostnames@.len() == hostnames@.len()
                &&& forall|i: int|
                    0 <= i < hostnames@.len() ==> (#[trigger] r->Ok_0.claims.hostnames@[i])@
                        == hostnames@[i]@
                &&& r->Ok_0.claims.exp == exp
                &&& r->Ok_0.claims.iat == iat
            },
            Validity::Expired => r matches Err(SieveTubeError::Auth(e)) && e@
                == "ExpiredSignature"@,
            Validity::Rejected(why) => r matches Err(SieveTubeError::Auth(e)) && e@ == why@,
        },
{
    if r is Ok {
        assert(r->Ok_0.claims@.sub == sub@);
        assert(text::views(r->Ok_0.claims.hostnames@) == text::views(hostnames@));
        assert forall|i: int| 0 <= i < hostnames@.len() implies (
        #[trigger] r->Ok_0.claims.hostnames@[i])@ == hostnames@[i]@ by {
            assert(text::views(r->Ok_0.claims.hostnames@)[i] == text::views(hostnames@)[i]);
        }
        assert(text::views(r->Ok_0.claims.hostnames@).len() == text::views(hostnames@).len());
    }
}

/// A token that was not read is refused with what kept it from being read, and one that
/// lacks a claim, or has one that cannot be read, is refused however valid it is.
pub proof fn law_incomplete_tokens_are_refused(
    raw: Result<RawClaims, String>,
    validity: Validity,
    r: Result<TokenData, SieveTubeError>,
)
    requires
        call_ensures(judge, (raw, validity), r),
    ensures
        raw matches Err(why) ==> (r matches Err(SieveTubeError::Auth(e)) && e@ == why@),
        raw matches Ok(claims) ==> (!(claims.sub matches Some(Ok(_))) || !(
        claims.hostnames matches Some(Ok(_))) || !(claims.exp matches Some(Ok(_))) || !(
        claims.iat matches Some(Ok(_))) ==> r is Err),
{
}

/// A token that was signed is verified by the secret that signed it and by a list that holds
/// nothing else: it gives back the claims, unless it has expired. No secret verifies nothing.
pub proof fn law_signed_claims_come_back(
    claims: TunnelClaims,
    secret: Vec<u8>,
    signing: &[u8],
    signed: Result<String, SieveTubeError>,
    token: &str,
    r: Result<TokenData, SieveTubeError>,
    secrets: &[Vec<u8>],
    any: Result<TokenData, SieveTubeError>,
)
    requires
        signing@ == secret@,
        call_ensures(sign_jwt, (&claims, signing), signed),
        signed is Ok ==> token@ == signed->Ok_0@,
        call_ensures(verify_jwt, (token, signing), r),
        secrets@.len() <= 1,
        secrets@.len() == 1 ==> secrets@[0] == secret,
        call_ensures(verify_jwt_any, (token, secrets), any),
    ensures
        signed is Ok,
        match r {
            Ok(data) => {
                &&& data.claims.sub@ == claims.sub@
                &&& text::views(data.claims.hostnames@) == text::views(claims.hostnames@)
                &&& data.claims.exp == claims.exp
                &&& data.claims.iat == claims.iat
            },
            Err(e) => e matches SieveTubeError::Auth(why) && why@ == "ExpiredSignature"@,
        },
        secrets@.len() == 1 ==> match any {
            Ok(data) => {
                &&& data.claims.sub@ == claims.sub@
                &&& text::views(data.claims.hostnames@) == text::views(claims.hostnames@)
                &&& data.claims.exp == claims.exp
                &&& data.claims.iat == claims.iat
            },
            Err(e) => e matches SieveTubeError::Auth(why) && why@ == "ExpiredSignature"@,
        },
        secrets@.len() == 0 ==> (any matches Err(SieveTubeError::Auth(why)) && why@
            == "no JWT secrets configured"@),
{
    let results = choose|results: Seq<Result<ClaimsView, ErrorView>>|
        can_give_each(token@, secrets@, results) && result_view(any) == #[trigger] picked(results);
    if secrets@.len() == 1 {
        assert(secrets@[0]@ == signing@);
        assert(can_give(token@, secrets@[0]@, results[0]));
        reveal_with_fuel(first_ok, 2);
    }
    if r is Ok {
        assert(r->Ok_0.claims@ == claims@);
    }
    if any is Ok && secrets@.len() == 1 {
        assert(any->Ok_0.claims@ == claims@);
    }
}

} // verus!
