//! AWS Signature Version 4 verification of request signatures.
use vstd::prelude::*;
use vstd::string::StringSliceAdditionalSpecFns;

use crate::canonical::{build_canonical_request, canonical_request_of, header_views, Header};
use crate::crypto::{hex_encode, hex_lower, hmac_sha256_of, hmac_sign, sha256, sha256_of};
use crate::text::{
    after_first, before_first, bytes_equal, bytes_less, bytes_lt, copy_range, find_byte, index_of,
    lower, push_all, split, split_bytes, to_lower, trim, trim_bytes, views,
};

verus! {

/// Why a request was not authenticated.
#[derive(Clone, Copy, Debug, PartialEq, Eq, Structural)]
pub enum AuthError {
    /// The `Authorization` value lacks a scheme or a required parameter, or a
    /// parameter cannot be read.
    MalformedAuthorizationHeader,
    /// A header named in `SignedHeaders` is absent from the request.
    MissingSignedHeader,
    /// The scheme is not `AWS4-HMAC-SHA256`.
    UnsupportedAlgorithm,
    /// No secret is known for the access key.
    UnknownAccessKey,
    /// The credential's date is not the day of the request's timestamp.
    CredentialScopeMismatch,
    /// The signature differs from the one computed for the request.
    SignatureMismatch,
}

/// `AWS4-HMAC-SHA256`
pub open spec fn algorithm() -> Seq<u8> {
    seq![65u8, 87, 83, 52, 45, 72, 77, 65, 67, 45, 83, 72, 65, 50, 53, 54]
}

/// `Credential`
pub open spec fn credential_key() -> Seq<u8> {
    seq![67u8, 114, 101, 100, 101, 110, 116, 105, 97, 108]
}

/// `SignedHeaders`
pub open spec fn signed_headers_key() -> Seq<u8> {
    seq![83u8, 105, 103, 110, 101, 100, 72, 101, 97, 100, 101, 114, 115]
}

/// `Signature`
pub open spec fn signature_key() -> Seq<u8> {
    seq![83u8, 105, 103, 110, 97, 116, 117, 114, 101]
}

/// `aws4_request`
pub open spec fn terminator() -> Seq<u8> {
    seq![97u8, 119, 115, 52, 95, 114, 101, 113, 117, 101, 115, 116]
}

/// `AWS4`
pub open spec fn key_prefix() -> Seq<u8> {
    seq![65u8, 87, 83, 52]
}

/// `UNSIGNED-PAYLOAD`
pub open spec fn unsigned_payload() -> Seq<u8> {
    seq![85u8, 78, 83, 73, 71, 78, 69, 68, 45, 80, 65, 89, 76, 79, 65, 68]
}

fn algorithm_bytes() -> (r: Vec<u8>)
    ensures
        r@ == algorithm(),
{
    let r = vec![65u8, 87, 83, 52, 45, 72, 77, 65, 67, 45, 83, 72, 65, 50, 53, 54];
    assert(r@ =~= algorithm());
    r
}

fn credential_key_bytes() -> (r: Vec<u8>)
    ensures
        r@ == credential_key(),
{
    let r = vec![67u8, 114, 101, 100, 101, 110, 116, 105, 97, 108];
    assert(r@ =~= credential_key());
    r
}

fn signed_headers_key_bytes() -> (r: Vec<u8>)
    ensures
        r@ == signed_headers_key(),
{
    let r = vec![83u8, 105, 103, 110, 101, 100, 72, 101, 97, 100, 101, 114, 115];
    assert(r@ =~= signed_headers_key());
    r
}

fn signature_key_bytes() -> (r: Vec<u8>)
    ensures
        r@ == signature_key(),
{
    let r = vec![83u8, 105, 103, 110, 97, 116, 117, 114, 101];
    assert(r@ =~= signature_key());
    r
}

fn terminator_bytes() -> (r: Vec<u8>)
    ensures
        r@ == terminator(),
{
    let r = vec![97u8, 119, 115, 52, 95, 114, 101, 113, 117, 101, 115, 116];
    assert(r@ =~= terminator());
    r
}

fn key_prefix_bytes() -> (r: Vec<u8>)
    ensures
        r@ == key_prefix(),
{
    let r = vec![65u8, 87, 83, 52];
    assert(r@ =~= key_prefix());
    r
}

fn unsigned_payload_bytes() -> (r: Vec<u8>)
    ensures
        r@ == unsigned_payload(),
{
    let r = vec![85u8, 78, 83, 73, 71, 78, 69, 68, 45, 80, 65, 89, 76, 79, 65, 68];
    assert(r@ =~= unsigned_payload());
    r
}

/// The credential of a signature: who signed, and the day, region and service
/// that the signing key is scoped to.
pub struct CredentialScope {
    pub access_key: Vec<u8>,
    pub date: Vec<u8>,
    pub region: Vec<u8>,
    pub service: Vec<u8>,
}

/// The parameters of an `Authorization` value.
pub struct AuthorizationHeader {
    pub credential: CredentialScope,
    /// Lower-case header names, strictly ascending.
    pub signed_headers: Vec<Vec<u8>>,
    /// Hex text of the signature, as supplied.
    pub signature: Vec<u8>,
}

/// A credential scope as values.
pub struct ScopeView {
    pub access_key: Seq<u8>,
    pub date: Seq<u8>,
    pub region: Seq<u8>,
    pub service: Seq<u8>,
}

/// An `Authorization` value's parameters as values.
pub struct AuthView {
    pub credential: ScopeView,
    pub signed_headers: Seq<Seq<u8>>,
    pub signature: Seq<u8>,
}

impl View for CredentialScope {
    type V = ScopeView;

    open spec fn view(&self) -> ScopeView {
        ScopeView {
            access_key: self.access_key@,
            date: self.date@,
            region: self.region@,
            service: self.service@,
        }
    }
}

impl View for AuthorizationHeader {
    type V = AuthView;

    open spec fn view(&self) -> AuthView {
        AuthView {
            credential: self.credential@,
            signed_headers: views(self.signed_headers@),
            signature: self.signature@,
        }
    }
}

/// The value of the last parameter `key=value` among `parts` (each trimmed)
/// whose key is `key`.
pub open spec fn param_value(parts: Seq<Seq<u8>>, key: Seq<u8>) -> Option<Seq<u8>>
    decreases parts.len(),
{
    if parts.len() == 0 {
        None
    } else {
        let p = trim(parts.last());
        if index_of(p, 61u8, 0) < p.len() && before_first(p, 61u8) == key {
            Some(after_first(p, 61u8))
        } else {
            param_value(parts.drop_last(), key)
        }
    }
}

/// A signed-header list is usable: non-empty, no empty name, strictly ascending.
pub open spec fn names_ok(n: Seq<Seq<u8>>) -> bool {
    &&& n.len() > 0
    &&& forall|i: int| 0 <= i < n.len() ==> #[trigger] n[i].len() > 0
    &&& forall|i: int| 0 <= i < n.len() - 1 ==> bytes_lt(#[trigger] n[i], n[i + 1])
}

/// The signed header names of a `SignedHeaders` value, lower-cased.
pub open spec fn signed_names(v: Seq<u8>) -> Seq<Seq<u8>> {
    split(v, 59u8).map_values(|n: Seq<u8>| lower(n))
}

/// What an `Authorization` value says, or why it cannot be used.
pub open spec fn parsed_authorization(v: Seq<u8>) -> Result<AuthView, AuthError> {
    let k = index_of(v, 32u8, 0);
    if k >= v.len() {
        Err(AuthError::MalformedAuthorizationHeader)
    } else {
        let parts = split(v.skip(k + 1), 44u8);
        let cred = param_value(parts, credential_key());
        let sh = param_value(parts, signed_headers_key());
        let sig = param_value(parts, signature_key());
        if cred is None || sh is None || sig is None {
            Err(AuthError::MalformedAuthorizationHeader)
        } else if v.take(k) != algorithm() {
            Err(AuthError::UnsupportedAlgorithm)
        } else {
            let c = split(cred.unwrap(), 47u8);
            let names = signed_names(sh.unwrap());
            if c.len() != 5 || c[4] != terminator() || !names_ok(names) {
                Err(AuthError::MalformedAuthorizationHeader)
            } else {
                Ok(
                    AuthView {
                        credential: ScopeView {
                            access_key: c[0],
                            date: c[1],
                            region: c[2],
                            service: c[3],
                        },
                        signed_headers: names,
                        signature: sig.unwrap(),
                    },
                )
            }
        }
    }
}

/// An optional byte string as a value.
pub open spec fn opt_view(o: Option<Vec<u8>>) -> Option<Seq<u8>> {
    match o {
        None => None,
        Some(v) => Some(v@),
    }
}

fn copy_vec(v: &Vec<u8>) -> (r: Vec<u8>)
    ensures
        r@ == v@,
{
    let r = copy_range(v.as_slice(), 0, v.len());
    assert(r@ =~= v@);
    r
}

/// Whether the names are usable as a signed-header list.
fn check_names(n: &Vec<Vec<u8>>) -> (r: bool)
    ensures
        r == names_ok(views(n@)),
{
    let ghost nv = views(n@);
    if n.len() == 0 {
        return false;
    }
    let mut i: usize = 0;
    while i < n.len()
        invariant
            0 < n@.len(),
            i <= n@.len(),
            nv == views(n@),
            forall|j: int| 0 <= j < i ==> #[trigger] nv[j].len() > 0,
            forall|j: int| 0 <= j < i && j < n@.len() - 1 ==> bytes_lt(#[trigger] nv[j], nv[j + 1]),
        decreases n@.len() - i,
    {
        if n[i].len() == 0 {
            assert(nv[i as int].len() == 0);
            return false;
        }
        if i + 1 < n.len() {
            if !bytes_less(n[i].as_slice(), n[i + 1].as_slice()) {
                assert(!bytes_lt(nv[i as int], nv[i + 1]));
                return false;
            }
        }
        i = i + 1;
    }
    true
}

/// Lower-cased names of a `SignedHeaders` value.
fn names_of(v: &[u8]) -> (r: Vec<Vec<u8>>)
    ensures
        views(r@) == signed_names(v@),
{
    let raw = split_bytes(v, 59u8);
    let mut r: Vec<Vec<u8>> = Vec::new();
    let mut i: usize = 0;
    while i < raw.len()
        invariant
            i <= raw@.len(),
            views(r@) == views(raw@).take(i as int).map_values(|n: Seq<u8>| lower(n)),
        decreases raw@.len() - i,
    {
        let l = to_lower(raw[i].as_slice());
        let ghost old_r = r@;
        r.push(l);
        assert(views(r@) =~= views(old_r).push(l@));
        i = i + 1;
        assert(views(raw@).take(i as int) =~= views(raw@).take(i - 1).push(raw@[i - 1]@));
        assert(views(r@) =~= views(raw@).take(i as int).map_values(|n: Seq<u8>| lower(n)));
    }
    assert(views(raw@).take(raw@.len() as int) =~= views(raw@));
    r
}

/// Reads an `Authorization` value:
/// `AWS4-HMAC-SHA256 Credential=AK/DATE/REGION/SERVICE/aws4_request, SignedHeaders=a;b, Signature=HEX`.
pub fn parse_authorization(value: &[u8]) -> (r: Result<AuthorizationHeader, AuthError>)
    ensures
        match r {
            Ok(a) => parsed_authorization(value@) == Ok::<AuthView, AuthError>(a@),
            Err(e) => parsed_authorization(value@) == Err::<AuthView, AuthError>(e),
        },
{
    let k = find_byte(value, 32u8);
    if k >= value.len() {
        return Err(AuthError::MalformedAuthorizationHeader);
    }
    let rest = copy_range(value, k + 1, value.len());
    assert(rest@ =~= value@.skip(k + 1));
    let parts = split_bytes(rest.as_slice(), 44u8);
    let ghost pv = views(parts@);
    let ck = credential_key_bytes();
    let hk = signed_headers_key_bytes();
    let sk = signature_key_bytes();
    let mut cred: Option<Vec<u8>> = None;
    let mut sh: Option<Vec<u8>> = None;
    let mut sig: Option<Vec<u8>> = None;
    let mut i: usize = 0;
    assert(pv.take(0) =~= Seq::<Seq<u8>>::empty());
    while i < parts.len()
        invariant
            i <= parts@.len(),
            pv == views(parts@),
            ck@ == credential_key(),
            hk@ == signed_headers_key(),
            sk@ == signature_key(),
            opt_view(cred) == param_value(pv.take(i as int), credential_key()),
            opt_view(sh) == param_value(pv.take(i as int), signed_headers_key()),
            opt_view(sig) == param_value(pv.take(i as int), signature_key()),
        decreases parts@.len() - i,
    {
        assert(pv.take(i + 1).drop_last() =~= pv.take(i as int));
        assert(pv.take(i + 1).last() == parts@[i as int]@);
        let t = trim_bytes(parts[i].as_slice());
        let e = find_byte(t.as_slice(), 61u8);
        if e < t.len() {
            let key = copy_range(t.as_slice(), 0, e);
            let val = copy_range(t.as_slice(), e + 1, t.len());
            assert(key@ =~= before_first(t@, 61u8));
            assert(val@ =~= after_first(t@, 61u8));
            if bytes_equal(key.as_slice(), ck.as_slice()) {
                cred = Some(val);
            } else if bytes_equal(key.as_slice(), hk.as_slice()) {
                sh = Some(val);
            } else if bytes_equal(key.as_slice(), sk.as_slice()) {
                sig = Some(val);
            }
        }
        i = i + 1;
    }
    assert(pv.take(parts@.len() as int) =~= pv);
    let (cred, sh, sig) = match (cred, sh, sig) {
        (Some(c), Some(h), Some(s)) => (c, h, s),
        _ => {
            return Err(AuthError::MalformedAuthorizationHeader);
        },
    };
    let scheme = copy_range(value, 0, k);
    let alg = algorithm_bytes();
    if !bytes_equal(scheme.as_slice(), alg.as_slice()) {
        assert(scheme@ =~= value@.take(k as int));
        return Err(AuthError::UnsupportedAlgorithm);
    }
    assert(scheme@ =~= value@.take(k as int));
    let c = split_bytes(cred.as_slice(), 47u8);
    let names = names_of(sh.as_slice());
    let term = terminator_bytes();
    if c.len() != 5 {
        return Err(AuthError::MalformedAuthorizationHeader);
    }
    assert(views(c@)[4] == c@[4]@);
    if !bytes_equal(c[4].as_slice(), term.as_slice()) {
        return Err(AuthError::MalformedAuthorizationHeader);
    }
    if !check_names(&names) {
        return Err(AuthError::MalformedAuthorizationHeader);
    }
    let credential = CredentialScope {
        access_key: copy_vec(&c[0]),
        date: copy_vec(&c[1]),
        region: copy_vec(&c[2]),
        service: copy_vec(&c[3]),
    };
    assert(views(c@)[0] == c@[0]@ && views(c@)[1] == c@[1]@);
    assert(views(c@)[2] == c@[2]@ && views(c@)[3] == c@[3]@);
    Ok(AuthorizationHeader { credential, signed_headers: names, signature: sig })
}

/// A request body: its bytes, or the unsigned-payload sentinel for a body
/// that is left out of the signature.
pub enum Payload {
    Signed(Vec<u8>),
    Unsigned,
}

impl Payload {
    /// The payload as the request declares it: the unsigned-payload sentinel
    /// when the declared digest (`x-amz-content-sha256`) is `UNSIGNED-PAYLOAD`,
    /// the body otherwise.
    pub fn from_declared_digest(declared: &[u8], body: Vec<u8>) -> (r: Payload)
        ensures
            declared@ == unsigned_payload() ==> r is Unsigned,
            declared@ != unsigned_payload() ==> (r matches Payload::Signed(b) && b@ == body@),
    {
        let sentinel = unsigned_payload_bytes();
        if bytes_equal(declared, sentinel.as_slice()) {
            Payload::Unsigned
        } else {
            Payload::Signed(body)
        }
    }
}

/// What the HTTP layer hands over for one request.
pub struct SignedRequest {
    pub method: Vec<u8>,
    pub path: Vec<u8>,
    /// The raw query string, without the `?`.
    pub query: Vec<u8>,
    pub headers: Vec<Header>,
    pub payload: Payload,
    /// The `Authorization` header value.
    pub authorization: Vec<u8>,
    /// The `X-Amz-Date` header value, `YYYYMMDDTHHMMSSZ`.
    pub timestamp: Vec<u8>,
}

/// A request as values: the body is `None` for an unsigned payload.
pub struct RequestView {
    pub method: Seq<u8>,
    pub path: Seq<u8>,
    pub query: Seq<u8>,
    pub headers: Seq<(Seq<u8>, Seq<u8>)>,
    pub payload: Option<Seq<u8>>,
    pub authorization: Seq<u8>,
    pub timestamp: Seq<u8>,
}

impl View for SignedRequest {
    type V = RequestView;

    open spec fn view(&self) -> RequestView {
        RequestView {
            method: self.method@,
            path: self.path@,
            query: self.query@,
            headers: header_views(self.headers@),
            payload: match self.payload {
                Payload::Signed(b) => Some(b@),
                Payload::Unsigned => None,
            },
            authorization: self.authorization@,
            timestamp: self.timestamp@,
        }
    }
}

/// An ASCII decimal digit.
pub open spec fn is_digit(b: u8) -> bool {
    48 <= b && b <= 57
}

/// An ISO 8601 basic UTC timestamp: `YYYYMMDD` `T` `HHMMSS` `Z`.
pub open spec fn is_timestamp(t: Seq<u8>) -> bool {
    &&& t.len() == 16
    &&& forall|i: int| 0 <= i < 8 ==> is_digit(#[trigger] t[i])
    &&& t[8] == 84
    &&& forall|i: int| 9 <= i < 15 ==> is_digit(#[trigger] t[i])
    &&& t[15] == 90
}

/// The credential's date is the calendar day of the timestamp.
pub open spec fn scope_date_matches(date: Seq<u8>, timestamp: Seq<u8>) -> bool {
    is_timestamp(timestamp) && timestamp.take(8) == date
}

/// `DATE/REGION/SERVICE/aws4_request`
pub open spec fn scope_string(c: ScopeView) -> Seq<u8> {
    c.date + seq![47u8] + c.region + seq![47u8] + c.service + seq![47u8] + terminator()
}

/// The text that is signed.
pub open spec fn string_to_sign_of(timestamp: Seq<u8>, scope: Seq<u8>, request_digest: Seq<u8>) -> Seq<
    u8,
> {
    algorithm() + seq![10u8] + timestamp + seq![10u8] + scope + seq![10u8] + request_digest
}

/// The signing key: the secret narrowed by four chained HMACs to one day, region and service.
pub open spec fn signing_key_of(secret: Seq<u8>, date: Seq<u8>, region: Seq<u8>, service: Seq<u8>) -> Seq<
    u8,
> {
    let k_date = hmac_sha256_of(key_prefix() + secret, date);
    let k_region = hmac_sha256_of(k_date, region);
    let k_service = hmac_sha256_of(k_region, service);
    hmac_sha256_of(k_service, terminator())
}

/// The hex signature of a canonical request under `secret`.
pub open spec fn signature_of(
    secret: Seq<u8>,
    c: ScopeView,
    timestamp: Seq<u8>,
    canonical_request: Seq<u8>,
) -> Seq<u8> {
    let sts = string_to_sign_of(timestamp, scope_string(c), hex_lower(sha256_of(canonical_request)));
    hex_lower(hmac_sha256_of(signing_key_of(secret, c.date, c.region, c.service), sts))
}

/// The payload digest that goes into the canonical request.
pub open spec fn hashed_payload_of(p: Option<Seq<u8>>) -> Seq<u8> {
    match p {
        Some(b) => hex_lower(sha256_of(b)),
        None => unsigned_payload(),
    }
}

/// The canonical request of `req` under the parsed header `a`.
pub open spec fn request_canonical_form(req: RequestView, a: AuthView) -> Option<Seq<u8>> {
    canonical_request_of(
        req.method,
        req.path,
        req.query,
        req.headers,
        a.signed_headers,
        hashed_payload_of(req.payload),
    )
}

/// The outcome for a request whose `Authorization` value reads as `a`, where
/// `secret` is the secret of its access key, if one is known.
pub open spec fn outcome_for(req: RequestView, a: AuthView, secret: Option<Seq<u8>>) -> Result<
    (),
    AuthError,
> {
    if !scope_date_matches(a.credential.date, req.timestamp) {
        Err(AuthError::CredentialScopeMismatch)
    } else {
        match request_canonical_form(req, a) {
            None => Err(AuthError::MissingSignedHeader),
            Some(c) => match secret {
                None => Err(AuthError::UnknownAccessKey),
                Some(s) => if signature_of(s, a.credential, req.timestamp, c) == a.signature {
                    Ok(())
                } else {
                    Err(AuthError::SignatureMismatch)
                },
            },
        }
    }
}

/// The outcome of verifying `req` when `secret` is the secret of its access key.
pub open spec fn verification(req: RequestView, secret: Option<Seq<u8>>) -> Result<(), AuthError> {
    match parsed_authorization(req.authorization) {
        Err(e) => Err(e),
        Ok(a) => outcome_for(req, a, secret),
    }
}

/// Whether the credential's date is the day of the ISO 8601 timestamp.
pub fn check_scope_date(date: &[u8], timestamp: &[u8]) -> (r: bool)
    ensures
        r == scope_date_matches(date@, timestamp@),
{
    if timestamp.len() != 16 || timestamp[8] != 84 || timestamp[15] != 90 {
        return false;
    }
    let mut i: usize = 0;
    while i < 15
        invariant
            timestamp@.len() == 16,
            i <= 15,
            forall|j: int| 0 <= j < i && j != 8 ==> is_digit(#[trigger] timestamp@[j]),
        decreases 15 - i,
    {
        if i != 8 && !(48 <= timestamp[i] && timestamp[i] <= 57) {
            return false;
        }
        i = i + 1;
    }
    let day = copy_range(timestamp, 0, 8);
    assert(day@ =~= timestamp@.take(8));
    bytes_equal(day.as_slice(), date)
}

/// `DATE/REGION/SERVICE/aws4_request` for a credential.
pub fn credential_scope(c: &CredentialScope) -> (r: Vec<u8>)
    ensures
        r@ == scope_string(c@),
{
    let mut r: Vec<u8> = Vec::new();
    push_all(&mut r, c.date.as_slice());
    r.push(47u8);
    push_all(&mut r, c.region.as_slice());
    r.push(47u8);
    push_all(&mut r, c.service.as_slice());
    r.push(47u8);
    let t = terminator_bytes();
    push_all(&mut r, t.as_slice());
    assert(r@ =~= scope_string(c@));
    r
}

/// The string to sign, given the hex digest of the canonical request.
pub fn string_to_sign(timestamp: &[u8], scope: &[u8], request_digest: &[u8]) -> (r: Vec<u8>)
    ensures
        r@ == string_to_sign_of(timestamp@, scope@, request_digest@),
{
    let mut r = algorithm_bytes();
    r.push(10u8);
    push_all(&mut r, timestamp);
    r.push(10u8);
    push_all(&mut r, scope);
    r.push(10u8);
    push_all(&mut r, request_digest);
    assert(r@ =~= string_to_sign_of(timestamp@, scope@, request_digest@));
    r
}

/// Derives the signing key for one day, region and service from a secret.
pub fn signing_key(secret: &[u8], date: &[u8], region: &[u8], service: &[u8]) -> (r: Vec<u8>)
    ensures
        r@ == signing_key_of(secret@, date@, region@, service@),
{
    let mut k = key_prefix_bytes();
    push_all(&mut k, secret);
    let k_date = hmac_sign(k.as_slice(), date);
    let k_region = hmac_sign(k_date.as_slice(), region);
    let k_service = hmac_sign(k_region.as_slice(), service);
    let t = terminator_bytes();
    hmac_sign(k_service.as_slice(), t.as_slice())
}

/// The payload digest of the canonical request: the hex SHA-256 of the body,
/// or the sentinel text for an unsigned payload.
pub fn hashed_payload(p: &Payload) -> (r: Vec<u8>)
    ensures
        r@ == hashed_payload_of(
            match p {
                Payload::Signed(b) => Some(b@),
                Payload::Unsigned => None,
            },
        ),
{
    match p {
        Payload::Signed(b) => {
            let d = sha256(b.as_slice());
            hex_encode(d.as_slice())
        },
        Payload::Unsigned => unsigned_payload_bytes(),
    }
}

/// The hex signature of `canonical_request` for the credential `c` under `secret`.
pub fn compute_signature(
    secret: &[u8],
    c: &CredentialScope,
    timestamp: &[u8],
    canonical_request: &[u8],
) -> (r: Vec<u8>)
    ensures
        r@ == signature_of(secret@, c@, timestamp@, canonical_request@),
{
    let digest = sha256(canonical_request);
    let digest_hex = hex_encode(digest.as_slice());
    let scope = credential_scope(c);
    let sts = string_to_sign(timestamp, scope.as_slice(), digest_hex.as_slice());
    let key = signing_key(secret, c.date.as_slice(), c.region.as_slice(), c.service.as_slice());
    let mac = hmac_sign(key.as_slice(), sts.as_slice());
    hex_encode(mac.as_slice())
}

/// Compares two signatures; the time taken depends on their lengths only,
/// not on where they first differ.
pub fn signatures_equal(a: &[u8], b: &[u8]) -> (r: bool)
    ensures
        r == (a@ == b@),
{
    if a.len() != b.len() {
        return false;
    }
    let mut diff: u8 = 0;
    let mut i: usize = 0;
    assert(a@.take(0) =~= b@.take(0));
    while i < a.len()
        invariant
            i <= a@.len() == b@.len(),
            (diff == 0) == (a@.take(i as int) == b@.take(i as int)),
        decreases a@.len() - i,
    {
        let x = a[i];
        let y = b[i];
        let d = diff | (x ^ y);
        assert((d == 0) == (diff == 0 && x == y)) by (bit_vector)
            requires
                d == diff | (x ^ y),
        ;
        proof {
            let ta = a@.take(i as int);
            let tb = b@.take(i as int);
            assert(a@.take(i + 1) =~= ta.push(x));
            assert(b@.take(i + 1) =~= tb.push(y));
            if ta.push(x) == tb.push(y) {
                assert(ta.push(x).drop_last() =~= ta);
                assert(tb.push(y).drop_last() =~= tb);
                assert(ta.push(x)[i as int] == x);
                assert(tb.push(y)[i as int] == y);
            }
        }
        diff = d;
        i = i + 1;
    }
    assert(a@.take(a@.len() as int) =~= a@);
    assert(b@.take(b@.len() as int) =~= b@);
    diff == 0
}

/// Checks a request whose `Authorization` value has been read as `auth`, with
/// `secret` the secret of its access key if one is known. Steps, in order: the
/// credential date against the timestamp, the canonical request, the secret,
/// the signature.
pub fn verify_parsed(req: &SignedRequest, auth: &AuthorizationHeader, secret: Option<&[u8]>) -> (r:
    Result<(), AuthError>)
    ensures
        r == outcome_for(
            req@,
            auth@,
            match secret {
                None => None,
                Some(s) => Some(s@),
            },
        ),
{
    if !check_scope_date(auth.credential.date.as_slice(), req.timestamp.as_slice()) {
        return Err(AuthError::CredentialScopeMismatch);
    }
    let hp = hashed_payload(&req.payload);
    let creq = match build_canonical_request(
        req.method.as_slice(),
        req.path.as_slice(),
        req.query.as_slice(),
        &req.headers,
        &auth.signed_headers,
        hp.as_slice(),
    ) {
        None => {
            return Err(AuthError::MissingSignedHeader);
        },
        Some(c) => c,
    };
    let secret = match secret {
        None => {
            return Err(AuthError::UnknownAccessKey);
        },
        Some(s) => s,
    };
    let expected = compute_signature(
        secret,
        &auth.credential,
        req.timestamp.as_slice(),
        creq.as_slice(),
    );
    if signatures_equal(expected.as_slice(), auth.signature.as_slice()) {
        Ok(())
    } else {
        Err(AuthError::SignatureMismatch)
    }
}

/// Verifies the signature of `req` against the secret `secret`.
pub fn verify(req: &SignedRequest, secret: &[u8]) -> (r: Result<(), AuthError>)
    ensures
        r == verification(req@, Some(secret@)),
{
    match parse_authorization(req.authorization.as_slice()) {
        Err(e) => Err(e),
        Ok(a) => verify_parsed(req, &a, Some(secret)),
    }
}

/// An access key and its secret, as held by a credential store.
pub struct Credential {
    pub access_key: Vec<u8>,
    pub secret_key: Vec<u8>,
}

/// Credentials as (access key, secret) pairs.
pub open spec fn credential_views(cs: Seq<Credential>) -> Seq<(Seq<u8>, Seq<u8>)> {
    cs.map_values(|c: Credential| (c.access_key@, c.secret_key@))
}

/// The secret of the first entry for `key`, if any.
pub open spec fn secret_for(cs: Seq<(Seq<u8>, Seq<u8>)>, key: Seq<u8>) -> Option<Seq<u8>>
    decreases cs.len(),
{
    if cs.len() == 0 {
        None
    } else if cs[0].0 == key {
        Some(cs[0].1)
    } else {
        secret_for(cs.drop_first(), key)
    }
}

/// Who signed `req`, as resolved against the credentials `cs`, or why it is rejected.
pub open spec fn authentication(req: RequestView, cs: Seq<(Seq<u8>, Seq<u8>)>) -> Result<
    Seq<u8>,
    AuthError,
> {
    match parsed_authorization(req.authorization) {
        Err(e) => Err(e),
        Ok(a) => match outcome_for(req, a, secret_for(cs, a.credential.access_key)) {
            Ok(_) => Ok(a.credential.access_key),
            Err(e) => Err(e),
        },
    }
}

/// Looks up the secret of an access key.
pub fn resolve_secret(credentials: &Vec<Credential>, access_key: &[u8]) -> (r: Option<Vec<u8>>)
    ensures
        opt_view(r) == secret_for(credential_views(credentials@), access_key@),
{
    let ghost cv = credential_views(credentials@);
    let mut i: usize = 0;
    assert(cv.skip(0) =~= cv);
    while i < credentials.len()
        invariant
            i <= credentials@.len(),
            cv == credential_views(credentials@),
            secret_for(cv, access_key@) == secret_for(cv.skip(i as int), access_key@),
        decreases credentials@.len() - i,
    {
        let c = &credentials[i];
        assert(cv.skip(i as int)[0] == (c.access_key@, c.secret_key@));
        if bytes_equal(c.access_key.as_slice(), access_key) {
            return Some(copy_vec(&c.secret_key));
        }
        assert(cv.skip(i as int).drop_first() =~= cv.skip(i + 1));
        i = i + 1;
    }
    None
}

/// Authenticates `req` against a set of credentials: on success, the access
/// key that signed it.
pub fn authenticate(req: &SignedRequest, credentials: &Vec<Credential>) -> (r: Result<
    Vec<u8>,
    AuthError,
>)
    ensures
        match r {
            Ok(k) => authentication(req@, credential_views(credentials@)) == Ok::<
                Seq<u8>,
                AuthError,
            >(k@),
            Err(e) => authentication(req@, credential_views(credentials@)) == Err::<
                Seq<u8>,
                AuthError,
            >(e),
        },
{
    let a = match parse_authorization(req.authorization.as_slice()) {
        Err(e) => {
            return Err(e);
        },
        Ok(a) => a,
    };
    let secret = resolve_secret(credentials, a.credential.access_key.as_slice());
    let outcome = match &secret {
        None => verify_parsed(req, &a, None),
        Some(s) => verify_parsed(req, &a, Some(s.as_slice())),
    };
    match outcome {
        Ok(()) => Ok(a.credential.access_key),
        Err(e) => Err(e),
    }
}

fn copy_headers(headers: &Vec<Header>) -> (r: Vec<Header>)
    ensures
        header_views(r@) == header_views(headers@),
{
    let mut r: Vec<Header> = Vec::new();
    let mut i: usize = 0;
    while i < headers.len()
        invariant
            i <= headers@.len(),
            header_views(r@) == header_views(headers@).take(i as int),
        decreases headers@.len() - i,
    {
        let h = Header { name: copy_vec(&headers[i].name), value: copy_vec(&headers[i].value) };
        let ghost old_r = r@;
        r.push(h);
        assert(header_views(r@) =~= header_views(old_r).push((h.name@, h.value@)));
        i = i + 1;
        assert(header_views(headers@).take(i as int) =~= header_views(headers@).take(i - 1).push(
            header_views(headers@)[i - 1],
        ));
    }
    assert(header_views(headers@).take(headers@.len() as int) =~= header_views(headers@));
    r
}

fn str_bytes(s: &str) -> (r: Vec<u8>)
    ensures
        r@ == s.spec_bytes(),
{
    let b = s.as_bytes();
    copy_range(b, 0, b.len())
}

/// Whether the request carries a valid signature made with `secret_key`.
pub fn validate_signature(
    method: &str,
    uri: &str,
    query: &str,
    headers: &Vec<Header>,
    payload: &[u8],
    authorization: &str,
    x_amz_date: &str,
    secret_key: &str,
) -> (r: bool)
    ensures
        r == verification(
            RequestView {
                method: method.spec_bytes(),
                path: uri.spec_bytes(),
                query: query.spec_bytes(),
                headers: header_views(headers@),
                payload: Some(payload@),
                authorization: authorization.spec_bytes(),
                timestamp: x_amz_date.spec_bytes(),
            },
            Some(secret_key.spec_bytes()),
        ) is Ok,
{
    let body = copy_range(payload, 0, payload.len());
    let req = SignedRequest {
        method: str_bytes(method),
        path: str_bytes(uri),
        query: str_bytes(query),
        headers: copy_headers(headers),
        payload: Payload::Signed(body),
        authorization: str_bytes(authorization),
        timestamp: str_bytes(x_amz_date),
    };
    assert(body@ =~= payload@);
    let secret = str_bytes(secret_key);
    verify(&req, secret.as_slice()).is_ok()
}

} // verus!
