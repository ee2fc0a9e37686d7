use data_encoding::BASE32_NOPAD;
use ed25519_dalek::{Keypair, PublicKey, SecretKey};
use selfcert_docs::{Identity, IdentityError, ShareAddress, ShareAddressError};

fn keypair(seed: u8) -> Keypair {
    let secret = SecretKey::from_bytes(&[seed; 32]).unwrap();
    let public = PublicKey::from(&secret);
    Keypair { secret, public }
}

#[test]
fn identity_accepts_bob() {
    let id = Identity::new("bob".to_string(), Some(keypair(1))).unwrap();
    assert_eq!(id.shortname, "bob");
}

#[test]
fn identity_rejects_leading_digit() {
    let r = Identity::new("3ob".to_string(), Some(keypair(1)));
    assert!(matches!(r, Err(IdentityError::StartsWithDigit)));
}

#[test]
fn identity_rejects_uppercase() {
    let r = Identity::new("Bob".to_string(), Some(keypair(1)));
    assert!(matches!(r, Err(IdentityError::InvalidCharacters)));
}

#[test]
fn identity_rejects_punctuation_and_non_ascii() {
    assert!(matches!(
        Identity::new("bo-b".to_string(), None),
        Err(IdentityError::InvalidCharacters)
    ));
    assert!(matches!(
        Identity::new("böb".to_string(), None),
        Err(IdentityError::InvalidCharacters)
    ));
}

#[test]
fn identity_accepts_inner_digits() {
    assert!(Identity::new("b0b".to_string(), None).is_ok());
}

#[test]
fn identity_length_bounds() {
    assert!(matches!(
        Identity::new(String::new(), None),
        Err(IdentityError::InvalidLength)
    ));
    assert!(Identity::new("a".to_string(), None).is_ok());
    assert!(Identity::new("abcdefghijklmno".to_string(), None).is_ok());
    assert!(matches!(
        Identity::new("abcdefghijklmnop".to_string(), None),
        Err(IdentityError::InvalidLength)
    ));
}

#[test]
fn share_address_rules() {
    assert!(ShareAddress::new("chat".to_string(), None).is_ok());
    assert!(matches!(
        ShareAddress::new("9chat".to_string(), None),
        Err(ShareAddressError::StartsWithDigit)
    ));
    assert!(matches!(
        ShareAddress::new("Chat".to_string(), None),
        Err(ShareAddressError::InvalidCharacters)
    ));
    assert!(matches!(
        ShareAddress::new(String::new(), None),
        Err(ShareAddressError::InvalidLength)
    ));
    assert!(matches!(
        ShareAddress::new("abcdefghijklmnop".to_string(), None),
        Err(ShareAddressError::InvalidLength)
    ));
}

#[test]
fn identity_display_form() {
    let kp = keypair(2);
    let expected = format!("@bob.b{}", BASE32_NOPAD.encode(kp.public.as_bytes()));
    let id = Identity::new("bob".to_string(), Some(kp)).unwrap();
    assert_eq!(id.to_string(), expected);
    assert_eq!(id.to_string().len(), 1 + 3 + 2 + 52);
}

#[test]
fn share_display_form() {
    let kp = keypair(3);
    let expected = format!("+chat.b{}", BASE32_NOPAD.encode(kp.public.as_bytes()));
    let share = ShareAddress::new("chat".to_string(), Some(kp)).unwrap();
    assert_eq!(share.to_string(), expected);
}

#[test]
fn key_bytes_are_secret_then_public() {
    let kp = keypair(4);
    let bytes = kp.to_bytes().to_vec();
    let public = kp.public.as_bytes().to_vec();
    let id = Identity::new("carol".to_string(), Some(kp)).unwrap();
    assert_eq!(id.key_bytes, bytes);
    assert_eq!(id.key_bytes[32..].to_vec(), public);
    let share = ShareAddress::new("news".to_string(), None).unwrap();
    assert_eq!(share.key_bytes, share.keypair.to_bytes().to_vec());
}
