//! What verification guarantees, stated over the request model and proved.
use vstd::prelude::*;

use crate::canonical::{canonical_headers, header_values};
use crate::sigv4::{
    credential_key, hashed_payload_of, param_value, parsed_authorization, request_canonical_form, scope_date_matches,
    signature_of, verification, AuthError, AuthView, RequestView,
};
use crate::text::{index_of, lower, split};

verus! {

/// `req` is well formed and carries the signature that the algorithm computes
/// for it with `secret`.
pub open spec fn signed_with(req: RequestView, secret: Seq<u8>) -> bool {
    match parsed_authorization(req.authorization) {
        Err(_) => false,
        Ok(a) => scope_date_matches(a.credential.date, req.timestamp) && match request_canonical_form(
            req,
            a,
        ) {
            None => false,
            Some(c) => a.signature == signature_of(secret, a.credential, req.timestamp, c),
        },
    }
}

/// A request signed with `secret` is accepted under `secret`.
pub proof fn lemma_signed_request_accepted(req: RequestView, secret: Seq<u8>)
    requires
        signed_with(req, secret),
    ensures
        verification(req, Some(secret)) == Ok::<(), AuthError>(()),
{
}

/// A request signed with `secret` is rejected with `SignatureMismatch` under
/// any other secret whose signature for it differs.
pub proof fn lemma_other_secret_rejected(req: RequestView, secret: Seq<u8>, other: Seq<u8>)
    requires
        signed_with(req, secret),
        !signed_with(req, other),
    ensures
        verification(req, Some(other)) == Err::<(), AuthError>(AuthError::SignatureMismatch),
{
}

/// Verification depends on the request and the secret alone: checking equal
/// inputs twice gives the same outcome.
pub proof fn lemma_verification_repeatable(
    r1: RequestView,
    r2: RequestView,
    s1: Option<Seq<u8>>,
    s2: Option<Seq<u8>>,
)
    requires
        r1 == r2,
        s1 == s2,
    ensures
        verification(r1, s1) == verification(r2, s2),
{
}

/// Changing the method (same length, different bytes) changes the canonical request.
pub proof fn lemma_method_change_alters_canonical_request(
    r1: RequestView,
    r2: RequestView,
    a: AuthView,
)
    requires
        r1.method.len() == r2.method.len(),
        r1.method != r2.method,
        r1.path == r2.path,
        r1.query == r2.query,
        r1.headers == r2.headers,
        r1.payload == r2.payload,
        request_canonical_form(r1, a) is Some,
    ensures
        request_canonical_form(r1, a) != request_canonical_form(r2, a),
{
    let c1 = request_canonical_form(r1, a).unwrap();
    let n = r1.method.len() as int;
    if request_canonical_form(r2, a) == request_canonical_form(r1, a) {
        assert(c1.take(n) =~= r1.method);
        assert(c1.take(n) =~= r2.method);
    }
}

/// Changing the payload so that its digest changes changes the canonical request.
pub proof fn lemma_payload_change_alters_canonical_request(
    r1: RequestView,
    r2: RequestView,
    a: AuthView,
)
    requires
        r1.method == r2.method,
        r1.path == r2.path,
        r1.query == r2.query,
        r1.headers == r2.headers,
        hashed_payload_of(r1.payload) != hashed_payload_of(r2.payload),
        request_canonical_form(r1, a) is Some,
    ensures
        request_canonical_form(r1, a) != request_canonical_form(r2, a),
{
    let c1 = request_canonical_form(r1, a).unwrap();
    let h1 = hashed_payload_of(r1.payload);
    let h2 = hashed_payload_of(r2.payload);
    let n = c1.len() - h1.len();
    if request_canonical_form(r2, a) == request_canonical_form(r1, a) {
        let c2 = request_canonical_form(r2, a).unwrap();
        assert(c1.skip(n) =~= h1);
        assert(c2.skip(c2.len() - h2.len()) =~= h2);
        assert(c1.take(n) =~= c2.take(c2.len() - h2.len()));
    }
}

proof fn lemma_header_values_case_blind(
    h1: Seq<(Seq<u8>, Seq<u8>)>,
    h2: Seq<(Seq<u8>, Seq<u8>)>,
    name: Seq<u8>,
)
    requires
        h1.len() == h2.len(),
        forall|j: int|
            0 <= j < h1.len() ==> lower(#[trigger] h1[j].0) == lower(h2[j].0) && h1[j].1 == h2[j].1,
    ensures
        header_values(h1, name) == header_values(h2, name),
    decreases h1.len(),
{
    if h1.len() > 0 {
        let d1 = h1.drop_last();
        let d2 = h2.drop_last();
        assert forall|j: int| 0 <= j < d1.len() implies lower(#[trigger] d1[j].0) == lower(d2[j].0)
            && d1[j].1 == d2[j].1 by {
            assert(d1[j] == h1[j] && d2[j] == h2[j]);
        }
        lemma_header_values_case_blind(d1, d2, name);
        assert(h1.last() == h1[h1.len() - 1]);
    }
}

proof fn lemma_canonical_headers_case_blind(
    h1: Seq<(Seq<u8>, Seq<u8>)>,
    h2: Seq<(Seq<u8>, Seq<u8>)>,
    names: Seq<Seq<u8>>,
)
    requires
        h1.len() == h2.len(),
        forall|j: int|
            0 <= j < h1.len() ==> lower(#[trigger] h1[j].0) == lower(h2[j].0) && h1[j].1 == h2[j].1,
    ensures
        canonical_headers(h1, names) == canonical_headers(h2, names),
    decreases names.len(),
{
    if names.len() > 0 {
        lemma_canonical_headers_case_blind(h1, h2, names.drop_last());
        lemma_header_values_case_blind(h1, h2, names.last());
    }
}

/// Header names are matched without regard to ASCII case: two requests that
/// differ only in the case of header names have the same outcome under every secret.
pub proof fn lemma_header_case_invariant(r1: RequestView, r2: RequestView, secret: Option<Seq<u8>>)
    requires
        r1.method == r2.method,
        r1.path == r2.path,
        r1.query == r2.query,
        r1.payload == r2.payload,
        r1.authorization == r2.authorization,
        r1.timestamp == r2.timestamp,
        r1.headers.len() == r2.headers.len(),
        forall|j: int|
            0 <= j < r1.headers.len() ==> lower(#[trigger] r1.headers[j].0) == lower(r2.headers[j].0)
                && r1.headers[j].1 == r2.headers[j].1,
    ensures
        verification(r1, secret) == verification(r2, secret),
{
    if let Ok(a) = parsed_authorization(r1.authorization) {
        lemma_canonical_headers_case_blind(r1.headers, r2.headers, a.signed_headers);
        assert(request_canonical_form(r1, a) == request_canonical_form(r2, a));
    }
}

proof fn lemma_absent_header_has_no_values(hs: Seq<(Seq<u8>, Seq<u8>)>, name: Seq<u8>)
    requires
        forall|j: int| 0 <= j < hs.len() ==> lower(#[trigger] hs[j].0) != name,
    ensures
        header_values(hs, name).len() == 0,
    decreases hs.len(),
{
    if hs.len() > 0 {
        let d = hs.drop_last();
        assert forall|j: int| 0 <= j < d.len() implies lower(#[trigger] d[j].0) != name by {
            assert(d[j] == hs[j]);
        }
        lemma_absent_header_has_no_values(d, name);
        assert(hs.last() == hs[hs.len() - 1]);
    }
}

proof fn lemma_missing_name_fails(hs: Seq<(Seq<u8>, Seq<u8>)>, names: Seq<Seq<u8>>, i: int)
    requires
        0 <= i < names.len(),
        header_values(hs, names[i]).len() == 0,
    ensures
        canonical_headers(hs, names) is None,
    decreases names.len(),
{
    if i < names.len() - 1 {
        assert(names.drop_last()[i] == names[i]);
        lemma_missing_name_fails(hs, names.drop_last(), i);
    }
}

/// A signed header name that no header of the request carries makes the
/// request fail, with `MissingSignedHeader` once the date is in scope.
pub proof fn lemma_missing_signed_header_rejected(
    req: RequestView,
    secret: Option<Seq<u8>>,
    i: int,
)
    requires
        parsed_authorization(req.authorization) is Ok,
        0 <= i < parsed_authorization(req.authorization).unwrap().signed_headers.len(),
        forall|j: int|
            0 <= j < req.headers.len() ==> lower(#[trigger] req.headers[j].0)
                != parsed_authorization(req.authorization).unwrap().signed_headers[i],
    ensures
        verification(req, secret) is Err,
        scope_date_matches(
            parsed_authorization(req.authorization).unwrap().credential.date,
            req.timestamp,
        ) ==> verification(req, secret) == Err::<(), AuthError>(AuthError::MissingSignedHeader),
{
    let a = parsed_authorization(req.authorization).unwrap();
    lemma_absent_header_has_no_values(req.headers, a.signed_headers[i]);
    lemma_missing_name_fails(req.headers, a.signed_headers, i);
}

/// An `Authorization` value with no `Credential` parameter is rejected as malformed,
/// whatever else it holds.
pub proof fn lemma_missing_credential_malformed(req: RequestView, secret: Option<Seq<u8>>)
    requires
        ({
            let v = req.authorization;
            let k = index_of(v, 32u8, 0);
            k >= v.len() || param_value(split(v.skip(k + 1), 44u8), credential_key()) is None
        }),
    ensures
        parsed_authorization(req.authorization) == Err::<AuthView, AuthError>(
            AuthError::MalformedAuthorizationHeader,
        ),
        verification(req, secret) == Err::<(), AuthError>(AuthError::MalformedAuthorizationHeader),
{
}

/// A credential date other than the day of the request's timestamp is rejected
/// with `CredentialScopeMismatch`.
pub proof fn lemma_scope_date_mismatch_rejected(req: RequestView, secret: Option<Seq<u8>>)
    requires
        parsed_authorization(req.authorization) is Ok,
        !scope_date_matches(
            parsed_authorization(req.authorization).unwrap().credential.date,
            req.timestamp,
        ),
    ensures
        verification(req, secret) == Err::<(), AuthError>(AuthError::CredentialScopeMismatch),
{
}

} // verus!
