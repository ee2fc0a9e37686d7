use data_encoding::BASE32_NOPAD;
use ed25519_dalek::{Keypair, PublicKey, SecretKey, Signature, Signer, Verifier};
use sha2::{Digest, Sha256};
use selfcert_docs::encoding::encode_hash;
use selfcert_docs::{Document, DocumentError, Identity, ShareAddress, Timestamp};

const T0: u128 = 1_600_000_000_000_000;

fn keypair(seed: u8) -> Keypair {
    let secret = SecretKey::from_bytes(&[seed; 32]).unwrap();
    let public = PublicKey::from(&secret);
    Keypair { secret, public }
}

fn author() -> Identity {
    Identity::new("bob".to_string(), Some(keypair(1))).unwrap()
}

fn share() -> ShareAddress {
    ShareAddress::new("chat".to_string(), Some(keypair(2))).unwrap()
}

fn share_signature() -> String {
    format!("b{}", BASE32_NOPAD.encode(&[7u8; 64]))
}

struct Fields {
    text: String,
    format: String,
    path: String,
    timestamp: u128,
    delete_after: Option<u128>,
    attachment_size: Option<i32>,
    attachment_hash: Option<String>,
}

fn fields(path: &str) -> Fields {
    Fields {
        text: String::new(),
        format: "es.5".to_string(),
        path: path.to_string(),
        timestamp: T0,
        delete_after: None,
        attachment_size: None,
        attachment_hash: None,
    }
}

fn with_attachment(text: &str, path: &str) -> Fields {
    let mut f = fields(path);
    f.text = text.to_string();
    f.attachment_size = Some(1024);
    f.attachment_hash = Some(Document::hash_text("attachment".to_string()));
    f
}

fn unsigned(f: &Fields) -> Document {
    Document {
        author: author(),
        text: f.text.clone(),
        text_hash: Document::hash_text(f.text.clone()),
        format: f.format.clone(),
        path: f.path.clone(),
        signature: String::new(),
        timestamp: Timestamp::from_micros(f.timestamp),
        share: share(),
        share_signature: share_signature(),
        delete_after: f.delete_after.map(Timestamp::from_micros),
        attachment_size: f.attachment_size,
        attachment_hash: f.attachment_hash.clone(),
    }
}

fn sign(f: &Fields) -> String {
    let hash = unsigned(f).hash_document();
    format!("b{}", BASE32_NOPAD.encode(&keypair(1).sign(hash.as_bytes()).to_bytes()))
}

fn build_with(f: &Fields, signature: String) -> Result<Document, DocumentError> {
    Document::new(
        author(),
        f.text.clone(),
        None,
        f.format.clone(),
        f.path.clone(),
        signature,
        Timestamp::from_micros(f.timestamp),
        share(),
        share_signature(),
        f.delete_after.map(Timestamp::from_micros),
        f.attachment_size,
        f.attachment_hash.clone(),
    )
}

fn build(f: &Fields) -> Result<Document, DocumentError> {
    build_with(f, sign(f))
}

#[test]
fn hash_of_empty_and_hello() {
    assert_eq!(
        Document::hash_text(String::new()),
        "b4OYMIQUY7QOBJGX36TEJS35ZEQT24QPEMSNZGTFESWMRW6CSXBKQ"
    );
    assert_eq!(
        Document::hash_text("hello".to_string()),
        "bFTZE3OS7WCRQ4JXIHMVMLOPCTYNRMHS4D6TUEXTTAQZWFE4LTASA"
    );
}

#[test]
fn hash_is_deterministic_and_decodes() {
    let a = encode_hash(b"some text");
    let b = encode_hash(b"some text");
    assert_eq!(a, b);
    assert_eq!(a.len(), 53);
    assert!(a.starts_with('b'));
    assert!(BASE32_NOPAD.decode(a[1..].as_bytes()).is_ok());
    assert_ne!(a, encode_hash(b"some texT"));
}

#[test]
fn valid_document_passes_all_checks() {
    let f = fields("/chat");
    let doc = build(&f).unwrap();
    assert_eq!(doc.text_hash, Document::hash_text(String::new()));
    assert!(doc.validate_signature());
    assert_eq!(doc.signature.len(), 104);
}

#[test]
fn end_to_end_scenario() {
    // Text without an attachment fails the first check before the path is looked at.
    let mut f = fields("/chat.txt");
    f.text = "hello".to_string();
    assert!(matches!(build(&f), Err(DocumentError::InvalidText)));
    // An extension without an attachment fails the path check.
    let f = fields("/chat.txt");
    assert!(matches!(build(&f), Err(DocumentError::InvalidPath)));
    // Without the extension every check passes and the signature verifies.
    let f = fields("/chat");
    let doc = build(&f).unwrap();
    let hash = doc.hash_document();
    let sig_bytes = BASE32_NOPAD.decode(doc.signature[1..].as_bytes()).unwrap();
    let sig = Signature::from_bytes(&sig_bytes).unwrap();
    assert!(doc.author.keypair.public.verify(hash.as_bytes(), &sig).is_ok());
}

#[test]
fn tampered_fields_change_hash_and_fail_signature() {
    let f = fields("/chat");
    let signature = sign(&f);
    let original = unsigned(&f).hash_document();
    let mut g = fields("/chats");
    assert_ne!(unsigned(&g).hash_document(), original);
    assert!(matches!(
        build_with(&g, signature.clone()),
        Err(DocumentError::InvalidSignature)
    ));
    g = fields("/chat");
    g.timestamp = T0 + 1;
    assert_ne!(unsigned(&g).hash_document(), original);
    assert!(matches!(
        build_with(&g, signature.clone()),
        Err(DocumentError::InvalidSignature)
    ));
    g = fields("/chat");
    g.format = "es.6".to_string();
    assert_ne!(unsigned(&g).hash_document(), original);
    assert!(matches!(
        build_with(&g, signature),
        Err(DocumentError::InvalidSignature)
    ));
}

#[test]
fn signature_of_other_key_fails() {
    let f = fields("/chat");
    let hash = unsigned(&f).hash_document();
    let other = format!("b{}", BASE32_NOPAD.encode(&keypair(9).sign(hash.as_bytes()).to_bytes()));
    assert!(matches!(build_with(&f, other), Err(DocumentError::InvalidSignature)));
    assert!(matches!(
        build_with(&f, "x".to_string()),
        Err(DocumentError::InvalidSignature)
    ));
}

#[test]
fn boundary_timestamps() {
    let mut f = fields("/chat");
    f.timestamp = 10_000_000_000_000 - 1;
    assert!(matches!(build(&f), Err(DocumentError::InvalidTimestamp)));
    f.timestamp = 10_000_000_000_000;
    assert!(build(&f).is_ok());
    f.timestamp = (1u128 << 53) - 2;
    assert!(build(&f).is_ok());
    f.timestamp = (1u128 << 53) - 1;
    assert!(matches!(build(&f), Err(DocumentError::InvalidTimestamp)));
}

#[test]
fn attachment_correlation() {
    assert!(build(&fields("/chat")).is_ok());
    let mut f = with_attachment("", "/posts/hello.txt");
    assert!(matches!(build(&f), Err(DocumentError::InvalidText)));
    f = fields("/chat");
    f.text = "hello".to_string();
    assert!(matches!(build(&f), Err(DocumentError::InvalidText)));
    f = with_attachment("caption", "/posts/hello.txt");
    f.attachment_hash = None;
    assert!(matches!(build(&f), Err(DocumentError::InvalidText)));
    let long = "a".repeat(8001);
    f = with_attachment(&long, "/posts/hello.txt");
    assert!(matches!(build(&f), Err(DocumentError::InvalidText)));
    let most = "a".repeat(8000);
    f = with_attachment(&most, "/posts/hello.txt");
    assert!(build(&f).is_ok());
}

#[test]
fn path_rules() {
    let f = with_attachment("caption", "/posts/hello.txt");
    assert!(build(&f).is_ok());
    let f = with_attachment("caption", "/posts/hello");
    assert!(matches!(build(&f), Err(DocumentError::InvalidPath)));
    let f = fields("/posts/hello.txt");
    assert!(matches!(build(&f), Err(DocumentError::InvalidPath)));
}

#[test]
fn path_syntax_rules() {
    for bad in [
        "/", "chat", "/@bob", "/a//b", "/a b", "/a?b", "/a#b", "/a;b", "/a<b", "/a>b",
        "/a\"b", "/a[b", "/a\\b", "/a]b", "/a^b", "/a{b", "/a|b", "/a}b", "/a\tb", "/é",
        "/a!b", "/~@alice/x", "/a~b",
    ] {
        assert!(matches!(build(&fields(bad)), Err(DocumentError::InvalidPath)), "{}", bad);
    }
    assert!(build(&fields("/~@bob/notes")).is_ok());
    let long = format!("/{}", "a".repeat(511));
    assert!(build(&fields(&long)).is_ok());
    let too_long = format!("/{}", "a".repeat(512));
    assert!(matches!(build(&fields(&too_long)), Err(DocumentError::InvalidPath)));
}

#[test]
fn delete_after_ordering() {
    let mut f = fields("/chat!");
    f.delete_after = Some(T0);
    assert!(matches!(build(&f), Err(DocumentError::InvalidDeleteAfter)));
    f.delete_after = Some(T0 - 1);
    assert!(matches!(build(&f), Err(DocumentError::InvalidDeleteAfter)));
    f.delete_after = Some(T0 + 1);
    assert!(build(&f).is_ok());
    f.delete_after = Some(1u128 << 53);
    assert!(matches!(build(&f), Err(DocumentError::InvalidDeleteAfter)));
    let mut g = fields("/chat");
    g.delete_after = Some(T0 + 1);
    assert!(matches!(build(&g), Err(DocumentError::InvalidPath)));
}

#[test]
fn format_rules() {
    let mut f = fields("/chat");
    f.format = "es 5".to_string();
    assert!(matches!(build(&f), Err(DocumentError::InvalidFormat)));
    f.format = "es\u{7}5".to_string();
    assert!(matches!(build(&f), Err(DocumentError::InvalidFormat)));
    f.format = "és.5".to_string();
    assert!(matches!(build(&f), Err(DocumentError::InvalidFormat)));
    f.format = "other".to_string();
    assert!(build(&f).is_ok());
}

#[test]
fn text_hash_rules() {
    let f = fields("/chat");
    let r = Document::new(
        author(),
        String::new(),
        Some(Document::hash_text("x".to_string())),
        f.format.clone(),
        f.path.clone(),
        sign(&f),
        Timestamp::from_micros(T0),
        share(),
        share_signature(),
        None,
        None,
        None,
    );
    assert!(matches!(r, Err(DocumentError::InvalidTextHash)));
}

#[test]
fn share_signature_rules() {
    let f = fields("/chat");
    let r = Document::new(
        author(),
        String::new(),
        None,
        f.format.clone(),
        f.path.clone(),
        sign(&f),
        Timestamp::from_micros(T0),
        share(),
        "b!!".to_string(),
        None,
        None,
        None,
    );
    assert!(matches!(r, Err(DocumentError::InvalidSignature)));
    let mut doc = build(&f).unwrap();
    doc.share_signature = "bAAAA".to_string();
    assert!(!doc.validate_share_signature());
    doc.format = "other".to_string();
    assert!(doc.validate_share_signature());
    doc.share_signature = "c".to_string();
    assert!(!doc.validate_share_signature());
}

#[test]
fn attachment_checks() {
    let mut doc = build(&fields("/chat")).unwrap();
    assert!(doc.validate_attachment_size());
    assert!(doc.validate_attachment_hash());
    doc.attachment_size = Some(-1);
    assert!(!doc.validate_attachment_size());
    doc.attachment_size = Some(0);
    assert!(doc.validate_attachment_size());
    doc.attachment_size = Some(i32::MAX);
    assert!(doc.validate_attachment_size());
    doc.attachment_hash = Some("b".to_string());
    assert!(!doc.validate_attachment_hash());
    doc.attachment_hash = Some(Document::hash_text("a".to_string()));
    assert!(doc.validate_attachment_hash());
}

#[test]
fn timestamp_conversions() {
    let mut doc = build(&fields("/chat")).unwrap();
    assert_eq!(doc.timestamp_as_u128(), T0);
    assert_eq!(doc.delete_after_as_u128(), 0);
    doc.delete_after = Some(Timestamp::from_micros(T0 + 5));
    assert_eq!(doc.delete_after_as_u128(), T0 + 5);
}

#[test]
fn document_hash_is_hash_of_payload() {
    let mut f = with_attachment("caption", "/posts/a.txt");
    f.delete_after = Some(T0 + 7);
    let doc = unsigned(&f);
    let payload = format!(
        "attachment_hash\t{}\nattachment_size\t1024\nauthor\t{}\ndelete_after\t{}\nformat\tes.5\npath\t/posts/a.txt\nshare\t{}\nshare_signature\t{}\ntext_hash\t{}\ntimestamp\t{}\n",
        f.attachment_hash.clone().unwrap(),
        doc.author.to_string(),
        T0 + 7,
        doc.share.to_string(),
        share_signature(),
        Document::hash_text("caption".to_string()),
        T0
    );
    let expected = format!("b{}", BASE32_NOPAD.encode(&Sha256::digest(payload.as_bytes())));
    assert_eq!(doc.hash_document(), expected);
    assert_eq!(doc.hash_document(), doc.hash_document());
}

#[test]
fn attachment_change_changes_hash() {
    let f = with_attachment("caption", "/posts/a.txt");
    let original = unsigned(&f).hash_document();
    let mut g = with_attachment("caption", "/posts/a.txt");
    g.attachment_size = Some(1025);
    assert_ne!(unsigned(&g).hash_document(), original);
    g = with_attachment("caption", "/posts/a.txt");
    g.attachment_hash = Some(Document::hash_text("other".to_string()));
    assert_ne!(unsigned(&g).hash_document(), original);
    g = fields("/posts/a.txt");
    g.text = "caption".to_string();
    assert_ne!(unsigned(&g).hash_document(), original);
}

#[test]
fn hash_text_body_decodes_to_digest() {
    let h = Document::hash_text("hello".to_string());
    let body = BASE32_NOPAD.decode(h[1..].as_bytes()).unwrap();
    assert_eq!(body, Sha256::digest(b"hello").to_vec());
}
