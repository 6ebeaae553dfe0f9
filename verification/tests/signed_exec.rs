use kernel::loader_signed_exec::{
    canonical_signed_body_bytes, decode_hex, hex_nibble, parse_manifest, verify_signed_exec, VerifyError,
};

const DIGEST: &str = "00112233445566778899aabbccddeeff00112233445566778899aabbccddeeff";

fn manifest(extra: &str) -> String {
    format!(
        "clan-exec-v1\nname=hello\nkind=builtin-alias\nentry=hello\nrequires=execute\ndigest=sha256:{}\ntrust=system-signed\n{}",
        DIGEST, extra
    )
}

fn sig_line(hex_byte: &str) -> String {
    format!("sig=ed25519:{}\n", hex_byte.repeat(64))
}

#[test]
fn manifest_parses_fields() {
    let m = parse_manifest(&manifest("")).expect("manifest should parse");
    assert_eq!(m.name, b"hello".to_vec());
    assert_eq!(m.kind, b"builtin-alias".to_vec());
    assert_eq!(m.entry, b"hello".to_vec());
    assert_eq!(m.image, None);
    assert_eq!(m.digest_hex, DIGEST.as_bytes().to_vec());
    assert_eq!(m.trust, b"system-signed".to_vec());
    assert_eq!(m.signature_hex, None);
}

#[test]
fn manifest_tolerates_comments_crlf_and_spacing() {
    let text = format!(
        "clan-exec-v1\r\n# comment\r\n\r\n name = hello \r\nkind=builtin-alias\nentry=main\nrequires=execute\nowner=root\ndescription=demo\ndigest= sha256:{} \ntrust=system-signed\n{}",
        DIGEST,
        sig_line("ab")
    );
    let m = parse_manifest(&text).expect("manifest should parse");
    assert_eq!(m.name, b"hello".to_vec());
    assert_eq!(m.entry, b"main".to_vec());
    assert_eq!(m.signature_hex, Some("ab".repeat(64).into_bytes()));
}

#[test]
fn manifest_later_fields_override() {
    let m = parse_manifest(&manifest("name=second\n")).unwrap();
    assert_eq!(m.name, b"second".to_vec());
}

#[test]
fn manifest_rejections() {
    assert_eq!(parse_manifest("clan-exec-v2\n").unwrap_err(), VerifyError::ManifestParse);
    assert_eq!(parse_manifest("").unwrap_err(), VerifyError::ManifestParse);
    assert!(parse_manifest(&manifest("bogus=1\n")).is_err());
    assert!(parse_manifest(&manifest("no equals sign\n")).is_err());
    assert!(parse_manifest(&manifest("kind=script\n")).is_err());
    assert!(parse_manifest(&manifest("requires=read\n")).is_err());
    assert!(parse_manifest(&manifest("trust=user\n")).is_err());
    assert!(parse_manifest(&manifest("name=\n")).is_err());
    assert!(parse_manifest(&manifest("digest=sha256:ABCD\n")).is_err());
    assert!(parse_manifest(&manifest(&format!("digest=sha256:{}\n", DIGEST.to_uppercase()))).is_err());
    assert!(parse_manifest(&manifest("sig=ed25519:abcd\n")).is_err());
    assert!(parse_manifest(&manifest(&sig_line("AB"))).is_err());
    assert!(parse_manifest(&manifest("kind=elf64-image\n")).is_err());
    assert!(parse_manifest("clan-exec-v1\nname=a\nkind=builtin-alias\nentry=a\ndigest=sha256:00\ntrust=system-signed\n").is_err());
    let without_requires = format!(
        "clan-exec-v1\nname=a\nkind=builtin-alias\nentry=a\ndigest=sha256:{}\ntrust=system-signed\n",
        DIGEST
    );
    assert!(parse_manifest(&without_requires).is_err());
}

#[test]
fn elf_manifest_needs_image_and_signs_it() {
    let m = parse_manifest(&manifest("kind=elf64-image\nimage=/bin/hello\n")).unwrap();
    assert_eq!(m.image, Some(b"/bin/hello".to_vec()));
    let body = canonical_signed_body_bytes(&m, DIGEST.as_bytes());
    let expected = format!(
        "clan-exec-v1\nname=hello\nkind=elf64-image\nentry=hello\nimage=/bin/hello\nrequires=execute\ndigest=sha256:{}\ntrust=system-signed\n",
        DIGEST
    );
    assert_eq!(body, expected.into_bytes());
}

#[test]
fn canonical_body_of_builtin_alias_has_no_image_line() {
    let m = parse_manifest(&manifest("image=/bin/ignored\n")).unwrap();
    let body = canonical_signed_body_bytes(&m, b"ff");
    assert_eq!(
        body,
        b"clan-exec-v1\nname=hello\nkind=builtin-alias\nentry=hello\nrequires=execute\ndigest=sha256:ff\ntrust=system-signed\n"
            .to_vec()
    );
}

#[test]
fn hex_digits_decode() {
    assert_eq!(hex_nibble(b'0'), Ok(0));
    assert_eq!(hex_nibble(b'9'), Ok(9));
    assert_eq!(hex_nibble(b'a'), Ok(10));
    assert_eq!(hex_nibble(b'f'), Ok(15));
    assert_eq!(hex_nibble(b'A'), Err(()));
    assert_eq!(hex_nibble(b'g'), Err(()));
    assert_eq!(decode_hex(b"00ff7a", 3), Ok(vec![0x00, 0xff, 0x7a]));
    assert_eq!(decode_hex(b"00ff7", 3), Err(()));
    assert_eq!(decode_hex(b"00FF7a", 3), Err(()));
}

#[test]
fn verify_error_texts() {
    assert_eq!(VerifyError::ManifestParse.as_str(), "manifest parse");
    assert_eq!(VerifyError::MissingSignature.as_str(), "manifest missing sig=ed25519");
    assert_eq!(VerifyError::DigestMismatch.as_str(), "payload digest mismatch");
    assert_eq!(VerifyError::SignatureInvalid.as_str(), "signature verify failed");
}

#[test]
fn verify_signed_exec_error_order() {
    assert_eq!(verify_signed_exec("junk", DIGEST.as_bytes()), Err(VerifyError::ManifestParse));
    assert_eq!(verify_signed_exec(&manifest(""), DIGEST.as_bytes()), Err(VerifyError::MissingSignature));
    assert_eq!(verify_signed_exec(&manifest(&sig_line("00")), b"beef"), Err(VerifyError::DigestMismatch));
}

#[test]
fn verify_signed_exec_refuses_a_forged_signature() {
    assert_eq!(
        verify_signed_exec(&manifest(&sig_line("00")), DIGEST.as_bytes()),
        Err(VerifyError::SignatureInvalid)
    );
    assert_eq!(
        verify_signed_exec(&manifest(&sig_line("11")), DIGEST.as_bytes()),
        Err(VerifyError::SignatureInvalid)
    );
    // A last byte with its top bits set is refused before the curve check.
    let mut sig = "00".repeat(63);
    sig.push_str("ff");
    assert_eq!(
        verify_signed_exec(&manifest(&format!("sig=ed25519:{}\n", sig)), DIGEST.as_bytes()),
        Err(VerifyError::SignatureInvalid)
    );
}

#[test]
fn signed_body_reparses_to_the_signed_fields() {
    let text = format!(
        "clan-exec-v1\r\n# comment\r\n name = demo tool \r\nkind=elf64-image\nentry= main \nimage=/bin/demo\nrequires=execute\ndigest= sha256:{} \ntrust=system-signed\n{}",
        DIGEST,
        sig_line("cd")
    );
    let m = parse_manifest(&text).expect("manifest should parse");
    let body = canonical_signed_body_bytes(&m, &m.digest_hex);
    let again = parse_manifest(std::str::from_utf8(&body).unwrap()).expect("body should parse");
    assert_eq!(again.name, b"demo tool".to_vec());
    assert_eq!(again.kind, m.kind);
    assert_eq!(again.entry, b"main".to_vec());
    assert_eq!(again.image, Some(b"/bin/demo".to_vec()));
    assert_eq!(again.digest_hex, m.digest_hex);
    assert_eq!(again.trust, b"system-signed".to_vec());
    assert_eq!(again.signature_hex, None);
    let plain = parse_manifest(&manifest("image=/bin/ignored\n")).unwrap();
    let again = parse_manifest(std::str::from_utf8(&canonical_signed_body_bytes(&plain, &plain.digest_hex)).unwrap()).unwrap();
    assert_eq!(again.image, None);
    assert_eq!(again.name, plain.name);
}
