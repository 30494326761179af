use epochoxide::localsend::cert::{
    base64_decode, create, der_from_pem, fingerprint_of, fingerprint_of_der, generated_identity,
    identity_of, load_or_create, stored_identity, subject, Loaded, Making,
};

fn generated() -> (String, String, Vec<u8>) {
    let params = rcgen::CertificateParams::new(vec!["localsend".to_string()]).unwrap();
    let key = rcgen::KeyPair::generate().unwrap();
    let certificate = params.self_signed(&key).unwrap();
    (certificate.pem(), key.serialize_pem(), certificate.der().to_vec())
}

#[test]
fn base64_round_trips_a_known_value() {
    assert_eq!(base64_decode("aGVsbG8=").unwrap(), b"hello");
    assert_eq!(base64_decode("aGVsbG8h").unwrap(), b"hello!");
    assert_eq!(base64_decode("aGVs\nbG8=").unwrap(), b"hello");
}

#[test]
fn base64_refuses_what_is_not_in_its_alphabet() {
    assert!(base64_decode("aGVs*").is_none());
    assert!(base64_decode("aGé").is_none());
    assert_eq!(base64_decode("").unwrap(), Vec::<u8>::new());
    assert_eq!(base64_decode("+/+/").unwrap(), vec![0xfb, 0xff, 0xbf]);
}

#[test]
fn a_generated_identity_has_a_sha256_fingerprint() {
    let (pem, _, _) = generated();
    let fingerprint = fingerprint_of(&pem).unwrap();
    assert_eq!(fingerprint.len(), 64);
    assert!(fingerprint
        .chars()
        .all(|c| c.is_ascii_hexdigit() && !c.is_lowercase()));
}

#[test]
fn the_fingerprint_matches_the_der_the_peer_would_see() {
    let (pem, _, der) = generated();
    let expected = ring::digest::digest(&ring::digest::SHA256, &der);
    let expected_hex: String = expected
        .as_ref()
        .iter()
        .map(|byte| format!("{byte:02X}"))
        .collect();
    assert_eq!(fingerprint_of(&pem).unwrap(), expected_hex);
}

#[test]
fn the_digest_of_nothing_is_the_known_one() {
    assert_eq!(
        fingerprint_of_der(b""),
        "E3B0C44298FC1C149AFBF4C8996FB92427AE41E4649B934CA495991B7852B855"
    );
}

#[test]
fn the_armour_of_a_pem_text_is_stripped() {
    let pem = "-----BEGIN X-----\r\naGVs\r\nbG8=\r\n-----END X-----\r\n";
    assert_eq!(der_from_pem(pem).unwrap(), b"hello");
    assert!(der_from_pem("-----BEGIN X-----\n!!\n").is_none());
    assert_eq!(fingerprint_of("!!").unwrap_err(), "reading the certificate");
}

#[test]
fn an_identity_gives_its_certificate_and_key() {
    let (pem, key_pem, der) = generated();
    let identity = identity_of(pem.clone(), key_pem.clone()).unwrap();
    assert_eq!(identity.chain().unwrap(), der);
    assert!(!identity.key().unwrap().is_empty());
    assert_eq!(identity.fingerprint, fingerprint_of(&pem).unwrap());
    assert!(stored_identity(Some(pem.clone()), Some(key_pem)).is_some());
    assert!(stored_identity(Some(pem), None).is_none());
    assert!(stored_identity(None, Some("k".to_string())).is_none());
    assert!(stored_identity(Some("!!".to_string()), Some("k".to_string())).is_none());
}

#[test]
fn an_identity_is_made_once_and_kept() {
    let made = match load_or_create(None, None).unwrap() {
        Loaded::Created(identity) => identity,
        other => panic!("{other:?}"),
    };
    assert_eq!(made.fingerprint, fingerprint_of(&made.certificate_pem).unwrap());
    assert!(made.certificate_pem.starts_with("-----BEGIN CERTIFICATE-----"));
    assert!(!made.key().unwrap().is_empty());
    let der = made.chain().unwrap();
    for name in ["localsend", "LocalSend User"] {
        assert!(der.windows(name.len()).any(|part| part == name.as_bytes()));
    }
    let kept = load_or_create(Some(made.certificate_pem.clone()), Some(made.key_pem.clone()));
    match kept.unwrap() {
        Loaded::Stored(identity) => {
            assert_eq!(identity.certificate_pem, made.certificate_pem);
            assert_eq!(identity.key_pem, made.key_pem);
            assert_eq!(identity.fingerprint, made.fingerprint);
        }
        other => panic!("{other:?}"),
    }
    assert_ne!(create().unwrap().fingerprint, made.fingerprint);
    let lost = load_or_create(Some("!!".to_string()), Some(made.key_pem)).unwrap();
    assert!(matches!(lost, Loaded::Created(_)));
    assert_eq!(subject(), (vec!["localsend".to_string()], "LocalSend User".to_string()));
}

#[test]
fn what_keeps_an_identity_from_being_made_is_told() {
    let failed = |step| generated_identity(Err((step, "why".to_string()))).unwrap_err();
    for (step, doing) in [
        (Making::Parameters, "building certificate parameters"),
        (Making::Key, "generating a key pair"),
        (Making::Signature, "self-signing the certificate"),
    ] {
        let unmade = failed(step);
        assert_eq!((unmade.doing.as_str(), unmade.cause.as_deref()), (doing, Some("why")));
    }
    let unread = generated_identity(Ok(("!!".to_string(), String::new()))).unwrap_err();
    assert_eq!((unread.doing.as_str(), unread.cause), ("reading the certificate", None));
}

#[test]
fn an_unreadable_identity_says_so() {
    let identity = epochoxide::localsend::cert::Identity {
        certificate_pem: "!!".to_string(),
        key_pem: "??".to_string(),
        fingerprint: String::new(),
    };
    assert_eq!(identity.chain().unwrap_err(), "could not read the certificate");
    assert_eq!(identity.key().unwrap_err(), "could not read the private key");
}
