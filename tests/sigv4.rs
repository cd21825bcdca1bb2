use s3gate::canonical::{build_canonical_query, build_canonical_request, build_canonical_uri, Header};
use s3gate::crypto::hmac_sign;
use s3gate::encode::{percent_decode, percent_encode};
use s3gate::sigv4::{
    authenticate, check_scope_date, compute_signature, hashed_payload, parse_authorization,
    signatures_equal, signing_key, validate_signature, verify, AuthError, Credential, Payload,
    SignedRequest,
};

const SECRET: &str = "wJalrXUtnFEMI/K7MDENG/bPxRfiCYEXAMPLEKEY";
const EMPTY_SHA256: &str = "e3b0c44298fc1c149afbf4c8996fb92427ae41e4649b934ca495991b7852b855";
const EXAMPLE_SIGNATURE: &str = "f0e8bdb87c964420e857bd35b5d6ed310bd44f0170aba48dd91039c6036bdb41";

fn header(name: &str, value: &str) -> Header {
    Header { name: name.as_bytes().to_vec(), value: value.as_bytes().to_vec() }
}

fn example_headers() -> Vec<Header> {
    vec![
        header("Host", "examplebucket.s3.amazonaws.com"),
        header("Range", "bytes=0-9"),
        header("x-amz-content-sha256", EMPTY_SHA256),
        header("x-amz-date", "20130524T000000Z"),
    ]
}

fn example_authorization(signature: &str) -> String {
    format!(
        "AWS4-HMAC-SHA256 Credential=SECRET-REDACTED/20130524/us-east-1/s3/aws4_request,SignedHeaders=host;range;x-amz-content-sha256;x-amz-date,Signature={}",
        signature
    )
}

fn example_request(signature: &str) -> SignedRequest {
    SignedRequest {
        method: b"GET".to_vec(),
        path: b"/test.txt".to_vec(),
        query: Vec::new(),
        headers: example_headers(),
        payload: Payload::Signed(Vec::new()),
        authorization: example_authorization(signature).into_bytes(),
        timestamp: b"20130524T000000Z".to_vec(),
    }
}

/// Fills in the signature that `secret` gives for `req`.
fn sign(mut req: SignedRequest, secret: &[u8]) -> SignedRequest {
    let auth = parse_authorization(&req.authorization).expect("well-formed header");
    let hp = hashed_payload(&req.payload);
    let creq = build_canonical_request(
        &req.method,
        &req.path,
        &req.query,
        &req.headers,
        &auth.signed_headers,
        &hp,
    )
    .expect("signed headers present");
    let sig = compute_signature(secret, &auth.credential, &req.timestamp, &creq);
    let text = String::from_utf8(req.authorization.clone()).unwrap();
    let head = &text[..text.rfind("Signature=").unwrap()];
    req.authorization = format!("{}Signature={}", head, String::from_utf8(sig).unwrap()).into_bytes();
    req
}

fn signed_example() -> SignedRequest {
    sign(example_request("0"), SECRET.as_bytes())
}

#[test]
fn reference_vector_canonical_request() {
    let auth = parse_authorization(example_authorization(EXAMPLE_SIGNATURE).as_bytes()).unwrap();
    let hp = hashed_payload(&Payload::Signed(Vec::new()));
    let creq = build_canonical_request(b"GET", b"/test.txt", b"", &example_headers(), &auth.signed_headers, &hp)
        .unwrap();
    let expected = format!(
        "GET\n/test.txt\n\nhost:examplebucket.s3.amazonaws.com\nrange:bytes=0-9\nx-amz-content-sha256:{}\nx-amz-date:20130524T000000Z\n\nhost;range;x-amz-content-sha256;x-amz-date\n{}",
        EMPTY_SHA256, EMPTY_SHA256
    );
    assert_eq!(String::from_utf8(creq).unwrap(), expected);
}

#[test]
fn reference_vector_signature() {
    let req = example_request(EXAMPLE_SIGNATURE);
    assert_eq!(verify(&req, SECRET.as_bytes()), Ok(()));
    let again = signed_example();
    assert_eq!(again.authorization, req.authorization);
}

#[test]
fn reference_vector_through_validate_signature() {
    let ok = validate_signature(
        "GET",
        "/test.txt",
        "",
        &example_headers(),
        b"",
        &example_authorization(EXAMPLE_SIGNATURE),
        "20130524T000000Z",
        SECRET,
    );
    assert!(ok);
    let bad = validate_signature(
        "GET",
        "/test.txt",
        "",
        &example_headers(),
        b"",
        &example_authorization(EXAMPLE_SIGNATURE),
        "20130524T000000Z",
        "another-secret",
    );
    assert!(!bad);
}

#[test]
fn signed_request_accepted_and_other_secret_rejected() {
    let mut req = example_request("0");
    req.method = b"PUT".to_vec();
    req.path = b"/photos/2024/cat picture.jpg".to_vec();
    req.query = b"versionId=3&acl".to_vec();
    req.payload = Payload::Signed(b"hello world".to_vec());
    let req = sign(req, b"s3cr3t");
    assert_eq!(verify(&req, b"s3cr3t"), Ok(()));
    assert_eq!(verify(&req, b"s3cr3u"), Err(AuthError::SignatureMismatch));
    assert_eq!(verify(&req, b""), Err(AuthError::SignatureMismatch));
}

#[test]
fn verify_is_repeatable() {
    let req = signed_example();
    let first = verify(&req, SECRET.as_bytes());
    let second = verify(&req, SECRET.as_bytes());
    assert_eq!(first, second);
    assert_eq!(first, Ok(()));
    let bad = example_request("00");
    assert_eq!(verify(&bad, SECRET.as_bytes()), verify(&bad, SECRET.as_bytes()));
}

#[test]
fn tampering_is_detected() {
    let req = signed_example();
    assert_eq!(verify(&req, SECRET.as_bytes()), Ok(()));

    let mut r = signed_example();
    r.method = b"GEU".to_vec();
    assert_eq!(verify(&r, SECRET.as_bytes()), Err(AuthError::SignatureMismatch));

    let mut r = signed_example();
    r.path = b"/test.tx_".to_vec();
    assert_eq!(verify(&r, SECRET.as_bytes()), Err(AuthError::SignatureMismatch));

    let mut r = signed_example();
    r.headers[1] = header("Range", "bytes=0-8");
    assert_eq!(verify(&r, SECRET.as_bytes()), Err(AuthError::SignatureMismatch));

    let mut r = signed_example();
    r.payload = Payload::Signed(b"x".to_vec());
    assert_eq!(verify(&r, SECRET.as_bytes()), Err(AuthError::SignatureMismatch));

    let mut r = signed_example();
    r.payload = Payload::Unsigned;
    assert_eq!(verify(&r, SECRET.as_bytes()), Err(AuthError::SignatureMismatch));
}

#[test]
fn header_name_case_does_not_matter() {
    let req = signed_example();
    let mut r = signed_example();
    r.headers[0] = header("host", "examplebucket.s3.amazonaws.com");
    assert_eq!(verify(&r, SECRET.as_bytes()), verify(&req, SECRET.as_bytes()));
    r.headers[0] = header("HOST", "examplebucket.s3.amazonaws.com");
    r.headers[1] = header("rAnGe", "bytes=0-9");
    assert_eq!(verify(&r, SECRET.as_bytes()), Ok(()));
}

fn note_request(note: &str) -> SignedRequest {
    let mut req = example_request("0");
    req.headers.push(header("X-Amz-Meta-Note", note));
    req.authorization = example_authorization("0")
        .replace("x-amz-date,", "x-amz-date;x-amz-meta-note,")
        .into_bytes();
    req
}

#[test]
fn header_value_whitespace_rules() {
    let signed = sign(note_request("a b"), b"k");
    assert_eq!(verify(&signed, b"k"), Ok(()));
    let with_value = |v: &str| {
        let mut r = note_request(v);
        r.authorization = signed.authorization.clone();
        verify(&r, b"k")
    };
    assert_eq!(with_value("  a \t  b "), Ok(()));
    assert_eq!(with_value("ab"), Err(AuthError::SignatureMismatch));
    assert_eq!(with_value("a b c"), Err(AuthError::SignatureMismatch));
}

#[test]
fn repeated_headers_are_joined_with_commas() {
    let hs = vec![header("X-Multi", " one "), header("Host", "h"), header("x-multi", "two  words")];
    let names = vec![b"host".to_vec(), b"x-multi".to_vec()];
    let creq = build_canonical_request(b"GET", b"/", b"", &hs, &names, b"UNSIGNED-PAYLOAD").unwrap();
    assert_eq!(
        String::from_utf8(creq).unwrap(),
        "GET\n/\n\nhost:h\nx-multi:one,two words\n\nhost;x-multi\nUNSIGNED-PAYLOAD"
    );
}

#[test]
fn missing_signed_header_is_rejected() {
    let mut req = signed_example();
    req.headers.remove(1);
    assert_eq!(verify(&req, SECRET.as_bytes()), Err(AuthError::MissingSignedHeader));
    let hs = vec![header("Host", "h")];
    let names = vec![b"host".to_vec(), b"x-amz-date".to_vec()];
    assert!(build_canonical_request(b"GET", b"/", b"", &hs, &names, b"x").is_none());
}

#[test]
fn authorization_without_credential_is_malformed() {
    let v = b"AWS4-HMAC-SHA256 SignedHeaders=host, Signature=abcd";
    assert!(matches!(parse_authorization(v), Err(AuthError::MalformedAuthorizationHeader)));
    let mut req = signed_example();
    req.authorization = v.to_vec();
    assert_eq!(verify(&req, SECRET.as_bytes()), Err(AuthError::MalformedAuthorizationHeader));
}

#[test]
fn arbitrary_authorization_bytes_are_rejected_without_panic() {
    let samples: Vec<Vec<u8>> = vec![
        Vec::new(),
        b" ".to_vec(),
        b"AWS4-HMAC-SHA256".to_vec(),
        b"AWS4-HMAC-SHA256 ===,,,;;;///".to_vec(),
        vec![0xff, 0x00, 0x20, 0xfe, b'=', b','],
        b"AWS4-HMAC-SHA256 Credential=a/b/c/d/aws4_request, SignedHeaders=, Signature=".to_vec(),
        (0u8..=255).collect(),
    ];
    for s in samples {
        let mut req = signed_example();
        req.authorization = s;
        assert!(verify(&req, SECRET.as_bytes()).is_err());
    }
}

#[test]
fn malformed_parameters_are_rejected() {
    let four_parts = b"AWS4-HMAC-SHA256 Credential=AK/20130524/us-east-1/s3, SignedHeaders=host, Signature=ab";
    assert!(matches!(parse_authorization(four_parts), Err(AuthError::MalformedAuthorizationHeader)));
    let six_parts =
        b"AWS4-HMAC-SHA256 Credential=AK/20130524/us-east-1/s3/aws4_request/x, SignedHeaders=host, Signature=ab";
    assert!(matches!(parse_authorization(six_parts), Err(AuthError::MalformedAuthorizationHeader)));
    let bad_terminator =
        b"AWS4-HMAC-SHA256 Credential=AK/20130524/us-east-1/s3/aws5_request, SignedHeaders=host, Signature=ab";
    assert!(matches!(parse_authorization(bad_terminator), Err(AuthError::MalformedAuthorizationHeader)));
    let unsorted =
        b"AWS4-HMAC-SHA256 Credential=AK/20130524/us-east-1/s3/aws4_request, SignedHeaders=x-amz-date;host, Signature=ab";
    assert!(matches!(parse_authorization(unsorted), Err(AuthError::MalformedAuthorizationHeader)));
    let duplicate =
        b"AWS4-HMAC-SHA256 Credential=AK/20130524/us-east-1/s3/aws4_request, SignedHeaders=host;host, Signature=ab";
    assert!(matches!(parse_authorization(duplicate), Err(AuthError::MalformedAuthorizationHeader)));
    let no_space = b"AWS4-HMAC-SHA256,Credential=AK/20130524/us-east-1/s3/aws4_request";
    assert!(matches!(parse_authorization(no_space), Err(AuthError::MalformedAuthorizationHeader)));
}

#[test]
fn other_scheme_is_unsupported() {
    let v = b"AWS4-HMAC-SHA512 Credential=AK/20130524/us-east-1/s3/aws4_request, SignedHeaders=host, Signature=ab";
    assert!(matches!(parse_authorization(v), Err(AuthError::UnsupportedAlgorithm)));
}

#[test]
fn parse_reads_every_field() {
    let v = b"AWS4-HMAC-SHA256 Credential=AK/20130524/us-east-1/s3/aws4_request,  SignedHeaders=Host;X-Amz-Date , Unknown=1, Signature=abc";
    let a = parse_authorization(v).unwrap();
    assert_eq!(a.credential.access_key, b"AK".to_vec());
    assert_eq!(a.credential.date, b"20130524".to_vec());
    assert_eq!(a.credential.region, b"us-east-1".to_vec());
    assert_eq!(a.credential.service, b"s3".to_vec());
    assert_eq!(a.signed_headers, vec![b"host".to_vec(), b"x-amz-date".to_vec()]);
    assert_eq!(a.signature, b"abc".to_vec());
}

#[test]
fn scope_date_mismatch_is_rejected() {
    let mut req = signed_example();
    req.timestamp = b"20130525T000000Z".to_vec();
    assert_eq!(verify(&req, SECRET.as_bytes()), Err(AuthError::CredentialScopeMismatch));
    assert!(check_scope_date(b"20130524", b"20130524T235959Z"));
    assert!(!check_scope_date(b"20130524", b"20130524T235959"));
    assert!(!check_scope_date(b"20130524", b"2013-05-24T00:00:00Z"));
    assert!(!check_scope_date(b"2013052", b"20130524T000000Z"));
}

#[test]
fn unknown_access_key_and_principal() {
    let req = signed_example();
    let creds = vec![
        Credential { access_key: b"OTHER".to_vec(), secret_key: b"x".to_vec() },
        Credential { access_key: b"SECRET-REDACTED".to_vec(), secret_key: SECRET.as_bytes().to_vec() },
    ];
    assert_eq!(authenticate(&req, &creds), Ok(b"SECRET-REDACTED".to_vec()));
    let others = vec![Credential { access_key: b"OTHER".to_vec(), secret_key: b"x".to_vec() }];
    assert_eq!(authenticate(&req, &others), Err(AuthError::UnknownAccessKey));
    let wrong = vec![Credential { access_key: b"SECRET-REDACTED".to_vec(), secret_key: b"nope".to_vec() }];
    assert_eq!(authenticate(&req, &wrong), Err(AuthError::SignatureMismatch));
}

#[test]
fn unsigned_payload_sentinel() {
    assert_eq!(hashed_payload(&Payload::Unsigned), b"UNSIGNED-PAYLOAD".to_vec());
    assert_eq!(hashed_payload(&Payload::Signed(Vec::new())), EMPTY_SHA256.as_bytes().to_vec());
    assert_eq!(
        hashed_payload(&Payload::Signed(b"abc".to_vec())),
        b"ba7816bf8f01cfea414140de5dae2223b00361a396177a9cb410ff61f20015ad".to_vec()
    );
    let mut req = example_request("0");
    req.payload = Payload::Unsigned;
    let req = sign(req, b"k");
    assert_eq!(verify(&req, b"k"), Ok(()));
}

#[test]
fn hmac_known_answer() {
    let mac = hmac_sign(b"Jefe", b"what do ya want for nothing?");
    let hex: String = mac.iter().map(|b| format!("{:02x}", b)).collect();
    assert_eq!(hex, "5bdcc146bf60754e6a042426089575c75a003f089d2739839dec58b964ec3843");
}

#[test]
fn signing_key_chain_is_scoped() {
    let k1 = signing_key(b"secret", b"20130524", b"us-east-1", b"s3");
    let k2 = signing_key(b"secret", b"20130525", b"us-east-1", b"s3");
    let k3 = signing_key(b"secret", b"20130524", b"eu-west-1", b"s3");
    assert_eq!(k1.len(), 32);
    assert_ne!(k1, k2);
    assert_ne!(k1, k3);
    let mut key = b"AWS4".to_vec();
    key.extend_from_slice(b"secret");
    let step = hmac_sign(&hmac_sign(&hmac_sign(&hmac_sign(&key, b"20130524"), b"us-east-1"), b"s3"), b"aws4_request");
    assert_eq!(k1, step);
}

#[test]
fn signature_comparison() {
    assert!(signatures_equal(b"abcd", b"abcd"));
    assert!(!signatures_equal(b"abcd", b"abce"));
    assert!(!signatures_equal(b"abcd", b"abc"));
    assert!(signatures_equal(b"", b""));
}

#[test]
fn uri_encoding() {
    assert_eq!(percent_encode(b"a b/c~d", true), b"a%20b/c~d".to_vec());
    assert_eq!(percent_encode(b"a b/c~d", false), b"a%20b%2Fc~d".to_vec());
    assert_eq!(percent_encode(&[0xe2, 0x82, 0xac], false), b"%E2%82%AC".to_vec());
    assert_eq!(percent_decode(b"a%20b%2fc%zz%4"), b"a b/c%zz%4".to_vec());
    assert_eq!(build_canonical_uri(b""), b"/".to_vec());
    assert_eq!(build_canonical_uri(b"/my photos/a+b.jpg"), b"/my%20photos/a%2Bb.jpg".to_vec());
    assert_eq!(build_canonical_uri(b"/my%20photos/x"), b"/my%20photos/x".to_vec());
}

#[test]
fn query_canonicalization() {
    assert_eq!(build_canonical_query(b""), Vec::<u8>::new());
    assert_eq!(build_canonical_query(b"b=2&a=1&a=0&c"), b"a=0&a=1&b=2&c=".to_vec());
    assert_eq!(build_canonical_query(b"prefix=a%2Fb&&x=a b"), b"prefix=a%2Fb&x=a%20b".to_vec());
    assert_eq!(build_canonical_query(b"acl"), b"acl=".to_vec());
}

#[test]
fn declared_digest_selects_payload() {
    assert!(matches!(Payload::from_declared_digest(b"UNSIGNED-PAYLOAD", b"body".to_vec()), Payload::Unsigned));
    match Payload::from_declared_digest(EMPTY_SHA256.as_bytes(), b"body".to_vec()) {
        Payload::Signed(b) => assert_eq!(b, b"body".to_vec()),
        Payload::Unsigned => panic!("expected the body"),
    }
    match Payload::from_declared_digest(b"unsigned-payload", Vec::new()) {
        Payload::Signed(b) => assert!(b.is_empty()),
        Payload::Unsigned => panic!("the sentinel is case-sensitive"),
    }
}
