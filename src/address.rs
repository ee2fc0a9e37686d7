use crate::encoding::{base32_encode, base32_of, generate_keypair, keypair_bytes};
use vstd::slice::slice_subrange;
use crate::error::{IdentityError, ShareAddressError};
use ed25519_dalek::Keypair;
use vstd::prelude::*;
use vstd::string::StrSliceExecFns;

verus! {

/// Longest name, in characters.
pub const MAX_NAME_LEN: usize = 15;

/// A character allowed in a name: lowercase ASCII letter or ASCII digit.
pub open spec fn is_name_char(c: char) -> bool {
    ('a' <= c && c <= 'z') || ('0' <= c && c <= '9')
}

/// The name is 1 to 15 characters long.
pub open spec fn name_length_ok(name: Seq<char>) -> bool {
    1 <= name.len() <= MAX_NAME_LEN
}

/// Every character of the name is a lowercase ASCII letter or digit.
pub open spec fn name_chars_ok(name: Seq<char>) -> bool {
    forall|i: int| 0 <= i < name.len() ==> #[trigger] is_name_char(name[i])
}

/// The name begins with an ASCII digit.
pub open spec fn name_starts_with_digit(name: Seq<char>) -> bool {
    name.len() > 0 && '0' <= name[0] && name[0] <= '9'
}

/// A name that both identities and share addresses accept.
pub open spec fn name_valid(name: Seq<char>) -> bool {
    name_length_ok(name) && name_chars_ok(name) && !name_starts_with_digit(name)
}

/// The error an identity shortname gives, if any, in the order the rules are checked.
pub open spec fn identity_error_of(name: Seq<char>) -> Option<IdentityError> {
    if !name_length_ok(name) {
        Some(IdentityError::InvalidLength)
    } else if !name_chars_ok(name) {
        Some(IdentityError::InvalidCharacters)
    } else if name_starts_with_digit(name) {
        Some(IdentityError::StartsWithDigit)
    } else {
        None
    }
}

/// The error a share name gives, if any, in the order the rules are checked.
pub open spec fn share_error_of(name: Seq<char>) -> Option<ShareAddressError> {
    if !name_length_ok(name) {
        Some(ShareAddressError::InvalidLength)
    } else if !name_chars_ok(name) {
        Some(ShareAddressError::InvalidCharacters)
    } else if name_starts_with_digit(name) {
        Some(ShareAddressError::StartsWithDigit)
    } else {
        None
    }
}

/// The public key within the 64 bytes of a key pair: its second half.
pub open spec fn public_key_of(key_bytes: Seq<u8>) -> Seq<u8> {
    key_bytes.subrange(32, 64)
}

/// Display form of an address: sigil, name, `.b`, base32 of the public key.
pub open spec fn address_text_of(
    sigil: Seq<char>,
    name: Seq<char>,
    public_key: Seq<u8>,
) -> Seq<char> {
    sigil + name + seq!['.', 'b'] + base32_of(public_key)
}

fn is_name_char_exec(c: char) -> (r: bool)
    ensures
        r == is_name_char(c),
{
    ('a' <= c && c <= 'z') || ('0' <= c && c <= '9')
}

fn name_length_ok_exec(name: &String) -> (r: bool)
    ensures
        r == name_length_ok(name@),
{
    let n = name.as_str().unicode_len();
    1 <= n && n <= MAX_NAME_LEN
}

fn name_chars_ok_exec(name: &String) -> (r: bool)
    ensures
        r == name_chars_ok(name@),
{
    let s = name.as_str();
    let n = s.unicode_len();
    let mut i: usize = 0;
    while i < n
        invariant
            n == name@.len(),
            s@ == name@,
            i <= n,
            forall|k: int| 0 <= k < i ==> #[trigger] is_name_char(name@[k]),
        decreases n - i,
    {
        let c = s.get_char(i);
        if !is_name_char_exec(c) {
            return false;
        }
        i = i + 1;
    }
    true
}

fn name_starts_with_digit_exec(name: &String) -> (r: bool)
    ensures
        r == name_starts_with_digit(name@),
{
    let s = name.as_str();
    if s.unicode_len() == 0 {
        return false;
    }
    let c = s.get_char(0);
    '0' <= c && c <= '9'
}

/// Writes the display form of an address from its sigil, name and public key bytes.
pub fn address_text(sigil: &str, name: &str, public_key: &[u8]) -> (r: String)
    ensures
        r@ == address_text_of(sigil@, name@, public_key@),
{
    let key = base32_encode(public_key);
    let out = String::from_str(sigil).concat(name).concat(".b").concat(key.as_str());
    proof {
        reveal_strlit(".b");
    }
    out
}

} // verus!

verus! {

/// An author: a valid shortname bound to an Ed25519 key pair.
pub struct Identity {
    pub shortname: String,
    pub keypair: Keypair,
    /// The key pair's 64 bytes, secret key then public key.
    pub key_bytes: Vec<u8>,
}

impl Identity {
    /// Checks the shortname and keeps the key pair given, or makes a fresh one.
    pub fn new(shortname: String, keypair: Option<Keypair>) -> (r: Result<Identity, IdentityError>)
        ensures
            match identity_error_of(shortname@) {
                Some(e) => r == Err::<Identity, IdentityError>(e),
                None => r matches Ok(id) && id.wf() && id.shortname == shortname && (
                    keypair matches Some(kp) ==> id.keypair == kp),
            },
    {
        if !name_length_ok_exec(&shortname) {
            return Err(IdentityError::InvalidLength);
        }
        if !name_chars_ok_exec(&shortname) {
            return Err(IdentityError::InvalidCharacters);
        }
        if name_starts_with_digit_exec(&shortname) {
            return Err(IdentityError::StartsWithDigit);
        }
        let keypair = match keypair {
            Some(kp) => kp,
            None => generate_keypair(),
        };
        let key_bytes = keypair_bytes(&keypair);
        Ok(Identity { shortname, keypair, key_bytes })
    }

    /// Display form `@<shortname>.b<base32 of the public key>`.
    pub fn to_string(&self) -> (r: String)
        requires
            self.wf(),
        ensures
            r@ == address_text_of("@"@, self.shortname@, public_key_of(self.key_bytes@)),
    {
        let pk = slice_subrange(self.key_bytes.as_slice(), 32, 64);
        address_text("@", self.shortname.as_str(), pk)
    }

    /// The key bytes are those of one key pair.
    pub open spec fn wf(&self) -> bool {
        self.key_bytes@.len() == 64
    }
}

/// A content namespace: a valid name bound to its own Ed25519 key pair.
pub struct ShareAddress {
    pub name: String,
    pub keypair: Keypair,
    /// The key pair's 64 bytes, secret key then public key.
    pub key_bytes: Vec<u8>,
}

impl ShareAddress {
    /// Checks the name and keeps the key pair given, or makes a fresh one.
    pub fn new(name: String, keypair: Option<Keypair>) -> (r: Result<
        ShareAddress,
        ShareAddressError,
    >)
        ensures
            match share_error_of(name@) {
                Some(e) => r == Err::<ShareAddress, ShareAddressError>(e),
                None => r matches Ok(sa) && sa.wf() && sa.name == name && (keypair matches Some(kp)
                    ==> sa.keypair == kp),
            },
    {
        if !name_length_ok_exec(&name) {
            return Err(ShareAddressError::InvalidLength);
        }
        if !name_chars_ok_exec(&name) {
            return Err(ShareAddressError::InvalidCharacters);
        }
        if name_starts_with_digit_exec(&name) {
            return Err(ShareAddressError::StartsWithDigit);
        }
        let keypair = match keypair {
            Some(kp) => kp,
            None => generate_keypair(),
        };
        let key_bytes = keypair_bytes(&keypair);
        Ok(ShareAddress { name, keypair, key_bytes })
    }

    /// Display form `+<name>.b<base32 of the public key>`.
    pub fn to_string(&self) -> (r: String)
        requires
            self.wf(),
        ensures
            r@ == address_text_of("+"@, self.name@, public_key_of(self.key_bytes@)),
    {
        let pk = slice_subrange(self.key_bytes.as_slice(), 32, 64);
        address_text("+", self.name.as_str(), pk)
    }

    /// The key bytes are those of one key pair.
    pub open spec fn wf(&self) -> bool {
        self.key_bytes@.len() == 64
    }
}

/// Name validity is the same for identities and share addresses, and a valid
/// name is exactly one of 1 to 15 lowercase ASCII letters and digits that does
/// not begin with a digit.
pub proof fn lemma_name_rules(name: Seq<char>)
    ensures
        (identity_error_of(name) is None) == (share_error_of(name) is None),
        (identity_error_of(name) is None) == name_valid(name),
        name_valid(name) ==> 1 <= name.len() <= 15 && vstd::utf8::is_ascii_chars(name),
{
    if name_valid(name) {
        assert forall|i: int| 0 <= i < name.len() implies '\0' <= #[trigger] name[i]
            <= '\u{7f}' by {
            assert(is_name_char(name[i]));
        }
    }
}

} // verus!
