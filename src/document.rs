use crate::address::{address_text_of, public_key_of, Identity, ShareAddress};
use crate::encoding::{
    base32_decodes, base32_of, decimal_i32, decimal_of, decimal_u128, encode_hash, encode_tagged,
    ed25519_signature_of, hash_text_of, is_base32, keypair_parses, sign_message,
    signed_decimal_of, tagged_base32,
};
use crate::error::DocumentError;
use vstd::arithmetic::power2::pow2;
use vstd::prelude::*;
use vstd::slice::slice_subrange;
use vstd::string::{StrSliceExecFns, StringExecFns};
use vstd::utf8::encode_utf8;

verus! {

/// Earliest accepted instant, in microseconds since the Unix epoch (10^13).
pub const MIN_TIMESTAMP: u128 = 10_000_000_000_000;

/// Latest accepted instant, in microseconds since the Unix epoch (2^53 - 2).
pub const MAX_TIMESTAMP: u128 = 9_007_199_254_740_990;

/// Largest accepted attachment size (2^53 - 2).
pub const MAX_ATTACHMENT_SIZE: i64 = 9_007_199_254_740_990;

/// Largest accepted text, in bytes.
pub const MAX_TEXT_BYTES: usize = 8000;

/// Length of a tagged SHA-256 hash.
pub const HASH_LEN: usize = 53;

/// Length of a tagged signature in the `es.5` format.
pub const ES5_SIGNATURE_LEN: usize = 104;

/// Longest accepted path.
pub const MAX_PATH_LEN: usize = 512;

/// A wall-clock instant, in microseconds since the Unix epoch.
#[derive(Debug, Clone, Copy, PartialEq, Eq, Structural)]
pub struct Timestamp {
    pub micros: u128,
}

impl Timestamp {
    pub fn from_micros(micros: u128) -> (r: Timestamp)
        ensures
            r.micros == micros,
    {
        Timestamp { micros }
    }
}

/// A signed record of a share.
pub struct Document {
    pub author: Identity,
    pub text: String,
    pub text_hash: String,
    pub format: String,
    pub path: String,
    pub signature: String,
    pub timestamp: Timestamp,
    pub share: ShareAddress,
    pub share_signature: String,
    pub delete_after: Option<Timestamp>,
    pub attachment_size: Option<i32>,
    pub attachment_hash: Option<String>,
}

/// Both attachment fields are present.
pub open spec fn has_attachment(size: Option<i32>, hash: Option<String>) -> bool {
    size is Some && hash is Some
}

/// Neither attachment field is present.
pub open spec fn no_attachment(size: Option<i32>, hash: Option<String>) -> bool {
    size is None && hash is None
}

/// The text rule: at most 8000 bytes of text, which is non-empty exactly when an attachment
/// is described.
pub open spec fn text_ok(text: Seq<char>, size: Option<i32>, hash: Option<String>) -> bool {
    encode_utf8(text).len() <= MAX_TEXT_BYTES && ((has_attachment(size, hash) && text.len() > 0)
        || (no_attachment(size, hash) && text.len() == 0))
}

/// `b` followed by base32 text.
pub open spec fn tagged_base32_ok(s: Seq<char>) -> bool {
    s.len() > 0 && s[0] == 'b' && base32_decodes(s.subrange(1, s.len() as int))
}

/// The text hash rule: the text hash is the tagged SHA-256 hash of the text.
pub open spec fn text_hash_ok(text_hash: Seq<char>, text: Seq<char>) -> bool {
    tagged_base32_ok(text_hash) && text_hash.len() == HASH_LEN && text_hash == hash_text_of(
        encode_utf8(text),
    )
}

pub open spec fn is_ascii_whitespace(c: char) -> bool {
    c == ' ' || c == '\t' || c == '\n' || c == '\x0C' || c == '\r'
}

pub open spec fn is_ascii_control(c: char) -> bool {
    c <= '\x1f' || c == '\x7f'
}

/// Printable ASCII: ASCII, neither whitespace nor control.
pub open spec fn printable_char(c: char) -> bool {
    c <= '\x7f' && !is_ascii_whitespace(c) && !is_ascii_control(c)
}

/// The format rule: the format is printable ASCII.
pub open spec fn format_ok(format: Seq<char>) -> bool {
    forall|i: int| 0 <= i < format.len() ==> #[trigger] printable_char(format[i])
}

/// Characters a path never holds.
pub open spec fn forbidden_path_char(c: char) -> bool {
    c == '?' || c == '#' || c == ';' || c == '<' || c == '>' || c == '"' || c == '['
        || c == '\\' || c == ']' || c == '^' || c == '{' || c == '|' || c == '}'
}

pub open spec fn path_char_ok(c: char) -> bool {
    printable_char(c) && !forbidden_path_char(c)
}

pub open spec fn contains_char(s: Seq<char>, c: char) -> bool {
    exists|i: int| 0 <= i < s.len() && s[i] == c
}

pub open spec fn contains_at(s: Seq<char>, t: Seq<char>, i: int) -> bool {
    0 <= i && i + t.len() <= s.len() && s.subrange(i, i + t.len()) == t
}

pub open spec fn contains_seq(s: Seq<char>, t: Seq<char>) -> bool {
    exists|i: int| #[trigger] contains_at(s, t, i)
}

/// Whether the last component of a path has an extension.
pub uninterp spec fn path_has_extension(path: Seq<char>) -> bool;

/// The path rules: printable ASCII without the forbidden characters, 2 to 512
/// characters, a leading `/` not followed by `@`, no `//`, a `!` exactly when the
/// document expires, an extension exactly when it has an attachment, and `~@<author>`
/// wherever a `~` occurs.
pub open spec fn path_ok(
    path: Seq<char>,
    shortname: Seq<char>,
    delete_after: Option<Timestamp>,
    size: Option<i32>,
    hash: Option<String>,
) -> bool {
    &&& forall|i: int| 0 <= i < path.len() ==> #[trigger] path_char_ok(path[i])
    &&& 2 <= path.len() <= MAX_PATH_LEN
    &&& path[0] == '/'
    &&& path[1] != '@'
    &&& !contains_seq(path, seq!['/', '/'])
    &&& (contains_char(path, '!') <==> delete_after is Some)
    &&& ((has_attachment(size, hash) && path_has_extension(path)) || (no_attachment(size, hash)
        && !path_has_extension(path)))
    &&& (contains_char(path, '~') ==> contains_seq(path, seq!['~', '@'] + shortname))
}

pub open spec fn es5() -> Seq<char> {
    seq!['e', 's', '.', '5']
}

/// Signature syntax, for both signatures: tagged base32, 104 characters in the `es.5` format.
pub open spec fn signature_syntax_ok(format: Seq<char>, signature: Seq<char>) -> bool {
    tagged_base32_ok(signature) && (format == es5() ==> signature.len() == ES5_SIGNATURE_LEN)
}

/// The accepted range of instants.
pub open spec fn timestamp_in_range(micros: u128) -> bool {
    MIN_TIMESTAMP <= micros <= MAX_TIMESTAMP
}

/// The deletion rule: when present, in range and after the timestamp.
pub open spec fn delete_after_ok(delete_after: Option<Timestamp>, timestamp: Timestamp) -> bool {
    match delete_after {
        None => true,
        Some(t) => timestamp_in_range(t.micros) && t.micros > timestamp.micros,
    }
}

/// The attachment size rule: when present, between 0 and 2^53 - 2.
pub open spec fn attachment_size_ok(size: Option<i32>) -> bool {
    match size {
        None => true,
        Some(s) => 0 <= s <= MAX_ATTACHMENT_SIZE,
    }
}

/// The attachment hash rule: when present, a tagged base32 text of 53 characters.
pub open spec fn attachment_hash_ok(hash: Option<String>) -> bool {
    match hash {
        None => true,
        Some(h) => tagged_base32_ok(h@) && h@.len() == HASH_LEN,
    }
}

/// The text hash a new document carries: the one given, or the hash of the text.
pub open spec fn text_hash_value(text_hash: Option<String>, text: Seq<char>) -> Seq<char> {
    match text_hash {
        Some(h) => h@,
        None => hash_text_of(encode_utf8(text)),
    }
}

/// The first failing rule among text, text hash, format and path, in that order.
pub open spec fn error_before_signature(
    text: Seq<char>,
    text_hash: Seq<char>,
    format: Seq<char>,
    path: Seq<char>,
    shortname: Seq<char>,
    delete_after: Option<Timestamp>,
    size: Option<i32>,
    hash: Option<String>,
) -> Option<DocumentError> {
    if !text_ok(text, size, hash) {
        Some(DocumentError::InvalidText)
    } else if !text_hash_ok(text_hash, text) {
        Some(DocumentError::InvalidTextHash)
    } else if !format_ok(format) {
        Some(DocumentError::InvalidFormat)
    } else if !path_ok(path, shortname, delete_after, size, hash) {
        Some(DocumentError::InvalidPath)
    } else {
        None
    }
}

/// The first failing rule among timestamp, share signature, deletion, attachment
/// size and attachment hash, in that order.
pub open spec fn error_after_signature(
    format: Seq<char>,
    timestamp: Timestamp,
    share_signature: Seq<char>,
    delete_after: Option<Timestamp>,
    size: Option<i32>,
    hash: Option<String>,
) -> Option<DocumentError> {
    if !timestamp_in_range(timestamp.micros) {
        Some(DocumentError::InvalidTimestamp)
    } else if !signature_syntax_ok(format, share_signature) {
        Some(DocumentError::InvalidShareSignature)
    } else if !delete_after_ok(delete_after, timestamp) {
        Some(DocumentError::InvalidDeleteAfter)
    } else if !attachment_size_ok(size) {
        Some(DocumentError::InvalidAttachmentSize)
    } else if !attachment_hash_ok(hash) {
        Some(DocumentError::InvalidAttachmentHash)
    } else {
        None
    }
}

/// One `name\tvalue\n` line of the signed payload.
pub open spec fn field_line(name: Seq<char>, value: Seq<char>) -> Seq<char> {
    name + "\t"@ + value + "\n"@
}

pub open spec fn delete_after_micros(delete_after: Option<Timestamp>) -> u128 {
    match delete_after {
        Some(t) => t.micros,
        None => 0,
    }
}

/// The signed payload over field values, given the public keys of author and share.
pub open spec fn payload_of(
    shortname: Seq<char>,
    author_key: Seq<u8>,
    share_name: Seq<char>,
    share_key: Seq<u8>,
    format: Seq<char>,
    path: Seq<char>,
    share_signature: Seq<char>,
    text_hash: Seq<char>,
    timestamp: Timestamp,
    delete_after: Option<Timestamp>,
    size: Option<i32>,
    hash: Option<String>,
) -> Seq<char> {
    let attachment = if has_attachment(size, hash) {
        field_line("attachment_hash"@, hash->0@) + field_line(
            "attachment_size"@,
            signed_decimal_of(size->0 as int),
        )
    } else {
        Seq::empty()
    };
    attachment + field_line("author"@, address_text_of("@"@, shortname, author_key))
        + field_line("delete_after"@, decimal_of(delete_after_micros(delete_after) as nat))
        + field_line("format"@, format) + field_line("path"@, path) + field_line(
        "share"@,
        address_text_of("+"@, share_name, share_key),
    ) + field_line("share_signature"@, share_signature) + field_line("text_hash"@, text_hash)
        + field_line("timestamp"@, decimal_of(timestamp.micros as nat))
}

/// The signed payload of a document, given the public keys of author and share.
pub open spec fn payload_with_keys(d: &Document, author_key: Seq<u8>, share_key: Seq<u8>) -> Seq<
    char,
> {
    payload_of(
        d.author.shortname@,
        author_key,
        d.share.name@,
        share_key,
        d.format@,
        d.path@,
        d.share_signature@,
        d.text_hash@,
        d.timestamp,
        d.delete_after,
        d.attachment_size,
        d.attachment_hash,
    )
}

/// The signed payload of a document, with the public keys of its author and share.
pub open spec fn canonical_text_of(d: &Document) -> Seq<char> {
    payload_with_keys(d, public_key_of(d.author.key_bytes@), public_key_of(d.share.key_bytes@))
}

/// The document hash: the tagged SHA-256 hash of the signed payload.
pub open spec fn document_hash_of(d: &Document) -> Seq<char> {
    hash_text_of(encode_utf8(canonical_text_of(d)))
}

/// The signature is the Ed25519 signature, made with the given key pair bytes, over
/// the hash of the payload.
pub open spec fn signature_holds(
    signature: Seq<char>,
    key_bytes: Seq<u8>,
    payload: Seq<char>,
) -> bool {
    keypair_parses(key_bytes) && signature == tagged_base32(
        ed25519_signature_of(key_bytes, encode_utf8(hash_text_of(encode_utf8(payload)))),
    )
}

/// The signature rule: well formed, and the author's signature over the document hash.
pub open spec fn signature_ok(d: &Document) -> bool {
    signature_syntax_ok(d.format@, d.signature@) && signature_holds(
        d.signature@,
        d.author.key_bytes@,
        canonical_text_of(d),
    )
}

/// The signature rule on the field values of a document about to be built.
pub open spec fn candidate_signature_ok(
    author: &Identity,
    share: &ShareAddress,
    format: Seq<char>,
    path: Seq<char>,
    signature: Seq<char>,
    share_signature: Seq<char>,
    text_hash: Seq<char>,
    timestamp: Timestamp,
    delete_after: Option<Timestamp>,
    size: Option<i32>,
    hash: Option<String>,
) -> bool {
    signature_syntax_ok(format, signature) && signature_holds(
        signature,
        author.key_bytes@,
        payload_of(
            author.shortname@,
            public_key_of(author.key_bytes@),
            share.name@,
            public_key_of(share.key_bytes@),
            format,
            path,
            share_signature,
            text_hash,
            timestamp,
            delete_after,
            size,
            hash,
        ),
    )
}

/// Relies on std::path::Path::extension: whether it returns `Some`.
#[verifier::external_body]
fn has_extension(path: &str) -> (r: bool)
    ensures
        r == path_has_extension(path@),
{
    std::path::Path::new(path).extension().is_some()
}

/// The characters of a text, one by one.
fn chars_of(s: &str) -> (r: Vec<char>)
    ensures
        r@ == s@,
{
    let n = s.unicode_len();
    let mut v: Vec<char> = Vec::new();
    let mut i: usize = 0;
    while i < n
        invariant
            n == s@.len(),
            i <= n,
            v@ == s@.subrange(0, i as int),
        decreases n - i,
    {
        v.push(s.get_char(i));
        i = i + 1;
    }
    assert(v@ =~= s@);
    v
}

fn is_ascii_whitespace_exec(c: char) -> (r: bool)
    ensures
        r == is_ascii_whitespace(c),
{
    c == ' ' || c == '\t' || c == '\n' || c == '\x0C' || c == '\r'
}

fn printable_char_exec(c: char) -> (r: bool)
    ensures
        r == printable_char(c),
{
    c <= '\x7f' && !is_ascii_whitespace_exec(c) && !(c <= '\x1f' || c == '\x7f')
}

fn path_char_ok_exec(c: char) -> (r: bool)
    ensures
        r == path_char_ok(c),
{
    printable_char_exec(c) && !(c == '?' || c == '#' || c == ';' || c == '<' || c == '>' || c
        == '"' || c == '[' || c == '\\' || c == ']' || c == '^' || c == '{' || c == '|' || c
        == '}')
}

fn has_char(s: &Vec<char>, c: char) -> (r: bool)
    ensures
        r == contains_char(s@, c),
{
    let mut i: usize = 0;
    while i < s.len()
        invariant
            i <= s@.len(),
            forall|k: int| 0 <= k < i ==> s@[k] != c,
        decreases s@.len() - i,
    {
        if s[i] == c {
            return true;
        }
        i = i + 1;
    }
    false
}

fn occurs_at(s: &Vec<char>, t: &Vec<char>, i: usize) -> (r: bool)
    requires
        i + t@.len() <= s@.len(),
    ensures
        r == contains_at(s@, t@, i as int),
{
    let sl = s.len();
    let mut j: usize = 0;
    while j < t.len()
        invariant
            sl == s@.len(),
            i + t@.len() <= s@.len(),
            j <= t@.len(),
            forall|k: int| 0 <= k < j ==> s@[i + k] == t@[k],
        decreases t@.len() - j,
    {
        if s[i + j] != t[j] {
            assert(s@.subrange(i as int, i + t@.len())[j as int] != t@[j as int]);
            return false;
        }
        j = j + 1;
    }
    assert(s@.subrange(i as int, i + t@.len()) =~= t@);
    true
}

fn has_seq(s: &Vec<char>, t: &Vec<char>) -> (r: bool)
    ensures
        r == contains_seq(s@, t@),
{
    if t.len() > s.len() {
        return false;
    }
    if t.len() == 0 {
        assert(s@.subrange(0, 0) =~= t@);
        assert(contains_at(s@, t@, 0));
        return true;
    }
    let last = s.len() - t.len();
    assert(s@.len() <= usize::MAX);
    let mut i: usize = 0;
    while i <= last
        invariant
            last + t@.len() == s@.len(),
            t@.len() > 0,
            s@.len() <= usize::MAX,
            i <= last + 1,
            forall|k: int| 0 <= k < i ==> !contains_at(s@, t@, k),
        decreases last + 1 - i,
    {
        if occurs_at(s, t, i) {
            return true;
        }
        i = i + 1;
    }
    assert forall|k: int| !contains_at(s@, t@, k) by {
        if 0 <= k && k < i {
        }
    }
    false
}

/// Whether a text is `b` followed by base32 text.
fn tagged_base32_ok_exec(s: &str) -> (r: bool)
    ensures
        r == tagged_base32_ok(s@),
{
    let n = s.unicode_len();
    if n == 0 || s.get_char(0) != 'b' {
        return false;
    }
    is_base32(s.substring_char(1, n))
}

impl Document {
    /// Whether the text rule holds.
    pub fn validate_text(&self) -> (r: bool)
        ensures
            r == text_ok(self.text@, self.attachment_size, self.attachment_hash),
    {
        let s = self.text.as_str();
        let bytes = s.as_bytes();
        let n = bytes.len();
        n <= MAX_TEXT_BYTES && ((self.attachment_hash.is_some() && self.attachment_size.is_some()
            && !s.is_empty()) || (self.attachment_hash.is_none() && self.attachment_size.is_none()
            && s.is_empty()))
    }

    /// Whether the format rule holds.
    pub fn validate_format(&self) -> (r: bool)
        ensures
            r == format_ok(self.format@),
    {
        let v = chars_of(self.format.as_str());
        let mut i: usize = 0;
        while i < v.len()
            invariant
                v@ == self.format@,
                i <= v@.len(),
                forall|k: int| 0 <= k < i ==> #[trigger] printable_char(v@[k]),
            decreases v@.len() - i,
        {
            if !printable_char_exec(v[i]) {
                return false;
            }
            i = i + 1;
        }
        true
    }

    /// The tagged SHA-256 hash of a text.
    pub fn hash_text(text: String) -> (r: String)
        ensures
            r@ == hash_text_of(encode_utf8(text@)),
            r@.len() == HASH_LEN,
            tagged_base32_ok(r@),
    {
        encode_hash(text.as_str().as_bytes())
    }

    /// The timestamp in microseconds since the Unix epoch.
    pub fn timestamp_as_u128(&self) -> (r: u128)
        ensures
            r == self.timestamp.micros,
    {
        self.timestamp.micros
    }

    /// The deletion instant in microseconds since the Unix epoch, or 0 when absent.
    pub fn delete_after_as_u128(&self) -> (r: u128)
        ensures
            r == delete_after_micros(self.delete_after),
    {
        match self.delete_after {
            Some(t) => t.micros,
            None => 0,
        }
    }

    /// Whether the text hash rule holds.
    pub fn validate_text_hash(&self) -> (r: bool)
        ensures
            r == text_hash_ok(self.text_hash@, self.text@),
    {
        if !tagged_base32_ok_exec(self.text_hash.as_str()) {
            return false;
        }
        if self.text_hash.as_str().unicode_len() != HASH_LEN {
            return false;
        }
        let expected = Document::hash_text(self.text.clone());
        self.text_hash == expected
    }

    /// Whether the path rules hold.
    pub fn validate_path(&self) -> (r: bool)
        ensures
            r == path_ok(
                self.path@,
                self.author.shortname@,
                self.delete_after,
                self.attachment_size,
                self.attachment_hash,
            ),
    {
        let n = self.path.as_str().unicode_len();
        if n < 2 || n > MAX_PATH_LEN {
            return false;
        }
        let p = chars_of(self.path.as_str());
        let mut i: usize = 0;
        while i < p.len()
            invariant
                p@ == self.path@,
                i <= p@.len(),
                forall|k: int| 0 <= k < i ==> #[trigger] path_char_ok(p@[k]),
            decreases p@.len() - i,
        {
            if !path_char_ok_exec(p[i]) {
                return false;
            }
            i = i + 1;
        }
        if p[0] != '/' || p[1] == '@' {
            return false;
        }
        let double_slash = vec!['/', '/'];
        if has_seq(&p, &double_slash) {
            return false;
        }
        if has_char(&p, '!') != self.delete_after.is_some() {
            return false;
        }
        let ext = has_extension(self.path.as_str());
        let attached = self.attachment_hash.is_some() && self.attachment_size.is_some();
        let detached = self.attachment_hash.is_none() && self.attachment_size.is_none();
        if !((attached && ext) || (detached && !ext)) {
            return false;
        }
        if has_char(&p, '~') {
            let mut marker = vec!['~', '@'];
            let name = chars_of(self.author.shortname.as_str());
            let mut k: usize = 0;
            while k < name.len()
                invariant
                    marker@ == seq!['~', '@'] + name@.subrange(0, k as int),
                    k <= name@.len(),
                decreases name@.len() - k,
            {
                marker.push(name[k]);
                k = k + 1;
                assert(marker@ =~= seq!['~', '@'] + name@.subrange(0, k as int));
            }
            assert(name@.subrange(0, name@.len() as int) =~= name@);
            return has_seq(&p, &marker);
        }
        true
    }

    /// Whether the timestamp is in range.
    pub fn validate_timestamp(&self) -> (r: bool)
        ensures
            r == timestamp_in_range(self.timestamp.micros),
    {
        let t = self.timestamp_as_u128();
        MIN_TIMESTAMP <= t && t <= MAX_TIMESTAMP
    }

    /// Whether the share signature is well formed; it is not checked against a key.
    pub fn validate_share_signature(&self) -> (r: bool)
        ensures
            r == signature_syntax_ok(self.format@, self.share_signature@),
    {
        signature_syntax_ok_exec(self.format.as_str(), self.share_signature.as_str())
    }

    /// Whether the deletion rule holds.
    pub fn validate_delete_after(&self) -> (r: bool)
        ensures
            r == delete_after_ok(self.delete_after, self.timestamp),
    {
        match self.delete_after {
            None => true,
            Some(t) => MIN_TIMESTAMP <= t.micros && t.micros <= MAX_TIMESTAMP && t.micros
                > self.timestamp.micros,
        }
    }

    /// Whether the attachment size rule holds.
    pub fn validate_attachment_size(&self) -> (r: bool)
        ensures
            r == attachment_size_ok(self.attachment_size),
    {
        match self.attachment_size {
            None => true,
            Some(size) => 0 <= size && (size as i64) <= MAX_ATTACHMENT_SIZE,
        }
    }

    /// Whether the attachment hash rule holds.
    pub fn validate_attachment_hash(&self) -> (r: bool)
        ensures
            r == attachment_hash_ok(self.attachment_hash),
    {
        match &self.attachment_hash {
            None => true,
            Some(h) => tagged_base32_ok_exec(h.as_str()) && h.as_str().unicode_len() == HASH_LEN,
        }
    }
}

/// Whether a signature is tagged base32, of 104 characters in the `es.5` format.
fn signature_syntax_ok_exec(format: &str, signature: &str) -> (r: bool)
    ensures
        r == signature_syntax_ok(format@, signature@),
{
    if !tagged_base32_ok_exec(signature) {
        return false;
    }
    let f = chars_of(format);
    let is_es5 = f.len() == 4 && f[0] == 'e' && f[1] == 's' && f[2] == '.' && f[3] == '5';
    proof {
        if is_es5 {
            assert(f@ =~= es5());
        }
    }
    !is_es5 || signature.unicode_len() == ES5_SIGNATURE_LEN
}

/// Appends one `name\tvalue\n` line.
fn push_field(out: &mut String, name: &str, value: &str)
    ensures
        final(out)@ == old(out)@ + field_line(name@, value@),
{
    out.append(name);
    out.append("\t");
    out.append(value);
    out.append("\n");
    assert(final(out)@ =~= old(out)@ + field_line(name@, value@));
}

/// Whether a signature is tagged base32 of the right length and is the tagged
/// base32 text of the given signature bytes.
pub fn signature_matches(format: &str, signature: &str, signature_bytes: &[u8]) -> (r: bool)
    ensures
        r == (signature_syntax_ok(format@, signature@) && signature@ == tagged_base32(
            signature_bytes@,
        )),
{
    if !signature_syntax_ok_exec(format, signature) {
        return false;
    }
    let expected = encode_tagged(signature_bytes);
    let given = String::from_str(signature);
    given == expected
}

impl Document {
    /// The signed payload, given the public keys of author and share.
    fn canonical_text(&self, author_key: &[u8], share_key: &[u8]) -> (r: String)
        ensures
            r@ == payload_with_keys(self, author_key@, share_key@),
    {
        let mut out = String::new();
        if self.attachment_hash.is_some() && self.attachment_size.is_some() {
            match (&self.attachment_hash, self.attachment_size) {
                (Some(h), Some(size)) => {
                    push_field(&mut out, "attachment_hash", h.as_str());
                    let size_text = decimal_i32(size);
                    push_field(&mut out, "attachment_size", size_text.as_str());
                },
                _ => {},
            }
        }
        let author = crate::address::address_text("@", self.author.shortname.as_str(), author_key);
        push_field(&mut out, "author", author.as_str());
        let delete_after = decimal_u128(self.delete_after_as_u128());
        push_field(&mut out, "delete_after", delete_after.as_str());
        push_field(&mut out, "format", self.format.as_str());
        push_field(&mut out, "path", self.path.as_str());
        let share = crate::address::address_text("+", self.share.name.as_str(), share_key);
        push_field(&mut out, "share", share.as_str());
        push_field(&mut out, "share_signature", self.share_signature.as_str());
        push_field(&mut out, "text_hash", self.text_hash.as_str());
        let timestamp = decimal_u128(self.timestamp_as_u128());
        push_field(&mut out, "timestamp", timestamp.as_str());
        assert(out@ =~= payload_with_keys(self, author_key@, share_key@));
        out
    }

    /// The document hash: the tagged SHA-256 hash of the signed payload.
    pub fn hash_document(&self) -> (r: String)
        requires
            self.author.wf(),
            self.share.wf(),
        ensures
            r@ == document_hash_of(self),
            r@.len() == HASH_LEN,
            vstd::utf8::is_ascii_chars(r@),
    {
        let author_key = slice_subrange(self.author.key_bytes.as_slice(), 32, 64);
        let share_key = slice_subrange(self.share.key_bytes.as_slice(), 32, 64);
        let text = self.canonical_text(author_key, share_key);
        encode_hash(text.as_str().as_bytes())
    }

    /// The signature rule: syntax, then the author's Ed25519 signature over the document hash.
    pub fn validate_signature(&self) -> (r: bool)
        requires
            self.author.wf(),
            self.share.wf(),
        ensures
            r == signature_ok(self),
    {
        if !signature_syntax_ok_exec(self.format.as_str(), self.signature.as_str()) {
            return false;
        }
        let hash = self.hash_document();
        let message = hash.as_str().as_bytes();
        match sign_message(self.author.key_bytes.as_slice(), message) {
            Some(sig) => signature_matches(
                self.format.as_str(),
                self.signature.as_str(),
                sig.as_slice(),
            ),
            None => false,
        }
    }
}

impl Document {
    /// Builds a document and runs the ten checks in order; the first that fails
    /// gives the error. Without a text hash, the hash of the text is used.
    pub fn new(
        author: Identity,
        text: String,
        text_hash: Option<String>,
        format: String,
        path: String,
        signature: String,
        timestamp: Timestamp,
        share: ShareAddress,
        share_signature: String,
        delete_after: Option<Timestamp>,
        attachment_size: Option<i32>,
        attachment_hash: Option<String>,
    ) -> (r: Result<Document, DocumentError>)
        requires
            author.wf(),
            share.wf(),
        ensures
            match error_before_signature(
                text@,
                text_hash_value(text_hash, text@),
                format@,
                path@,
                author.shortname@,
                delete_after,
                attachment_size,
                attachment_hash,
            ) {
                Some(e) => r == Err::<Document, DocumentError>(e),
                None => if !candidate_signature_ok(
                    &author,
                    &share,
                    format@,
                    path@,
                    signature@,
                    share_signature@,
                    text_hash_value(text_hash, text@),
                    timestamp,
                    delete_after,
                    attachment_size,
                    attachment_hash,
                ) {
                    r == Err::<Document, DocumentError>(DocumentError::InvalidSignature)
                } else {
                    match error_after_signature(
                        format@,
                        timestamp,
                        share_signature@,
                        delete_after,
                        attachment_size,
                        attachment_hash,
                    ) {
                        Some(e) => r == Err::<Document, DocumentError>(e),
                        None => r is Ok,
                    }
                },
            },
            text_hash is None ==> r != Err::<Document, DocumentError>(
                DocumentError::InvalidTextHash,
            ),
            r matches Ok(d) ==> {
                &&& d.author == author
                &&& d.text == text
                &&& d.text_hash@ == text_hash_value(text_hash, text@)
                &&& d.format == format
                &&& d.path == path
                &&& d.signature == signature
                &&& d.timestamp == timestamp
                &&& d.share == share
                &&& d.share_signature == share_signature
                &&& d.delete_after == delete_after
                &&& d.attachment_size == attachment_size
                &&& d.attachment_hash == attachment_hash
                &&& signature_ok(&d)
            },
    {
        let text_hash = match text_hash {
            Some(h) => h,
            None => Document::hash_text(text.clone()),
        };
        let document = Document {
            author,
            text,
            text_hash,
            format,
            path,
            signature,
            timestamp,
            share,
            share_signature,
            delete_after,
            attachment_size,
            attachment_hash,
        };
        if !document.validate_text() {
            return Err(DocumentError::InvalidText);
        }
        if !document.validate_text_hash() {
            return Err(DocumentError::InvalidTextHash);
        }
        if !document.validate_format() {
            return Err(DocumentError::InvalidFormat);
        }
        if !document.validate_path() {
            return Err(DocumentError::InvalidPath);
        }
        if !document.validate_signature() {
            return Err(DocumentError::InvalidSignature);
        }
        if !document.validate_timestamp() {
            return Err(DocumentError::InvalidTimestamp);
        }
        if !document.validate_share_signature() {
            return Err(DocumentError::InvalidShareSignature);
        }
        if !document.validate_delete_after() {
            return Err(DocumentError::InvalidDeleteAfter);
        }
        if !document.validate_attachment_size() {
            return Err(DocumentError::InvalidAttachmentSize);
        }
        if !document.validate_attachment_hash() {
            return Err(DocumentError::InvalidAttachmentHash);
        }
        Ok(document)
    }
}

/// Text and attachment go together: empty text with no attachment passes the
/// text check, while empty text with an attachment, or text without one, fails it.
pub proof fn lemma_text_attachment_correlation(
    text: Seq<char>,
    size: Option<i32>,
    hash: Option<String>,
)
    ensures
        text.len() == 0 && no_attachment(size, hash) ==> text_ok(text, size, hash),
        text.len() == 0 && has_attachment(size, hash) ==> !text_ok(text, size, hash),
        text.len() > 0 && no_attachment(size, hash) ==> !text_ok(text, size, hash),
{
    if text.len() == 0 {
        assert(encode_utf8(text) =~= Seq::<u8>::empty());
    }
}

/// The timestamp range is exactly 10^13 to 2^53 - 2, both included.
pub proof fn lemma_timestamp_bounds()
    ensures
        !timestamp_in_range(9_999_999_999_999),
        timestamp_in_range(10_000_000_000_000),
        timestamp_in_range(9_007_199_254_740_990),
        !timestamp_in_range(9_007_199_254_740_991),
        MAX_TIMESTAMP + 2 == pow2(53),
{
    vstd::arithmetic::power2::lemma2_to64();
    vstd::arithmetic::power2::lemma2_to64_rest();
}

/// A deletion instant at or before the timestamp is refused; one after it and
/// within the timestamp range is accepted.
pub proof fn lemma_delete_after_order(delete_after: Timestamp, timestamp: Timestamp)
    ensures
        delete_after.micros <= timestamp.micros ==> !delete_after_ok(Some(delete_after), timestamp),
        delete_after.micros > timestamp.micros && timestamp_in_range(delete_after.micros)
            ==> delete_after_ok(Some(delete_after), timestamp),
{
}

proof fn lemma_middle_differs(p: Seq<char>, x: Seq<char>, y: Seq<char>, s: Seq<char>)
    requires
        x != y,
    ensures
        p + x + s != p + y + s,
{
    if x.len() == y.len() {
        let k = choose|k: int| 0 <= k < x.len() && x[k] != y[k];
        if !(x =~= y) {
            assert((p + x + s)[p.len() + k] != (p + y + s)[p.len() + k]);
        }
    } else {
        assert((p + x + s).len() != (p + y + s).len());
    }
}

/// Lines of the signed payload before the deletion line.
spec fn payload_start(d: &Document, author_key: Seq<u8>) -> Seq<char> {
    let attachment = if has_attachment(d.attachment_size, d.attachment_hash) {
        field_line("attachment_hash"@, d.attachment_hash->0@) + field_line(
            "attachment_size"@,
            signed_decimal_of(d.attachment_size->0 as int),
        )
    } else {
        Seq::empty()
    };
    attachment + field_line("author"@, address_text_of("@"@, d.author.shortname@, author_key))
}

/// Lines of the signed payload before the format line.
spec fn payload_head(d: &Document, author_key: Seq<u8>) -> Seq<char> {
    payload_start(d, author_key) + field_line(
        "delete_after"@,
        decimal_of(delete_after_micros(d.delete_after) as nat),
    )
}

/// Lines of the signed payload from the format line to the text hash line.
spec fn payload_middle(d: &Document, share_key: Seq<u8>) -> Seq<char> {
    field_line("format"@, d.format@) + field_line("path"@, d.path@) + field_line(
        "share"@,
        address_text_of("+"@, d.share.name@, share_key),
    ) + field_line("share_signature"@, d.share_signature@) + field_line("text_hash"@, d.text_hash@)
}

#[verifier::rlimit(50)]
proof fn lemma_payload_shape(d: &Document, author_key: Seq<u8>, share_key: Seq<u8>)
    ensures
        payload_with_keys(d, author_key, share_key) == payload_head(d, author_key) + payload_middle(
            d,
            share_key,
        ) + field_line("timestamp"@, decimal_of(d.timestamp.micros as nat)),
        payload_head(d, author_key) == payload_start(d, author_key) + field_line(
            "delete_after"@,
            decimal_of(delete_after_micros(d.delete_after) as nat),
        ),
{
    assert(payload_with_keys(d, author_key, share_key) =~= payload_head(d, author_key)
        + payload_middle(d, share_key) + field_line(
        "timestamp"@,
        decimal_of(d.timestamp.micros as nat),
    ));
}

#[verifier::rlimit(50)]
proof fn lemma_format_change(
    d1: &Document,
    d2: &Document,
    author_key: Seq<u8>,
    share_key: Seq<u8>,
)
    requires
        d1.author.shortname@ == d2.author.shortname@,
        d1.share.name@ == d2.share.name@,
        d1.timestamp == d2.timestamp,
        d1.delete_after == d2.delete_after,
        d1.attachment_size == d2.attachment_size,
        d1.attachment_hash == d2.attachment_hash,
        d1.path@ == d2.path@,
        d1.share_signature@ == d2.share_signature@,
        d1.text_hash@ == d2.text_hash@,
        d1.format@ != d2.format@,
    ensures
        payload_with_keys(d1, author_key, share_key) != payload_with_keys(
            d2,
            author_key,
            share_key,
        ),
{
    let head = payload_head(d1, author_key);
    let stamp = field_line("timestamp"@, decimal_of(d1.timestamp.micros as nat));
    lemma_payload_shape(d1, author_key, share_key);
    lemma_payload_shape(d2, author_key, share_key);
    let pre = "format"@ + "\t"@;
    let post = "\n"@ + field_line("path"@, d1.path@)
       
        + field_line("share"@, address_text_of("+"@, d1.share.name@, share_key))
        + field_line(
        "share_signature"@,
        d1.share_signature@,
    ) + field_line("text_hash"@, d1.text_hash@);
    assert(payload_middle(d1, share_key) =~= pre + d1.format@ + post);
    assert(payload_middle(d2, share_key) =~= pre + d2.format@ + post);
    assert(payload_with_keys(d1, author_key, share_key) =~= (head + pre)
        + d1.format@ + (post + stamp));
    assert(payload_with_keys(d2, author_key, share_key) =~= (head + pre)
        + d2.format@ + (post + stamp));
    lemma_middle_differs(head + pre, d1.format@, d2.format@, post + stamp);
}

#[verifier::rlimit(50)]
proof fn lemma_path_change(
    d1: &Document,
    d2: &Document,
    author_key: Seq<u8>,
    share_key: Seq<u8>,
)
    requires
        d1.author.shortname@ == d2.author.shortname@,
        d1.share.name@ == d2.share.name@,
        d1.timestamp == d2.timestamp,
        d1.delete_after == d2.delete_after,
        d1.attachment_size == d2.attachment_size,
        d1.attachment_hash == d2.attachment_hash,
        d1.format@ == d2.format@,
        d1.share_signature@ == d2.share_signature@,
        d1.text_hash@ == d2.text_hash@,
        d1.path@ != d2.path@,
    ensures
        payload_with_keys(d1, author_key, share_key) != payload_with_keys(
            d2,
            author_key,
            share_key,
        ),
{
    let head = payload_head(d1, author_key);
    let stamp = field_line("timestamp"@, decimal_of(d1.timestamp.micros as nat));
    lemma_payload_shape(d1, author_key, share_key);
    lemma_payload_shape(d2, author_key, share_key);
    let pre = field_line("format"@, d1.format@) + "path"@ + "\t"@;
    let post = "\n"@
       
        + field_line("share"@, address_text_of("+"@, d1.share.name@, share_key))
        + field_line("share_signature"@, d1.share_signature@)
        + field_line("text_hash"@, d1.text_hash@);
    assert(payload_middle(d1, share_key) =~= pre + d1.path@ + post);
    assert(payload_middle(d2, share_key) =~= pre + d2.path@ + post);
    assert(payload_with_keys(d1, author_key, share_key) =~= (head + pre)
        + d1.path@ + (post + stamp));
    assert(payload_with_keys(d2, author_key, share_key) =~= (head + pre)
        + d2.path@ + (post + stamp));
    lemma_middle_differs(head + pre, d1.path@, d2.path@, post + stamp);
}

#[verifier::rlimit(50)]
proof fn lemma_share_signature_change(
    d1: &Document,
    d2: &Document,
    author_key: Seq<u8>,
    share_key: Seq<u8>,
)
    requires
        d1.author.shortname@ == d2.author.shortname@,
        d1.share.name@ == d2.share.name@,
        d1.timestamp == d2.timestamp,
        d1.delete_after == d2.delete_after,
        d1.attachment_size == d2.attachment_size,
        d1.attachment_hash == d2.attachment_hash,
        d1.format@ == d2.format@,
        d1.path@ == d2.path@,
        d1.text_hash@ == d2.text_hash@,
        d1.share_signature@ != d2.share_signature@,
    ensures
        payload_with_keys(d1, author_key, share_key) != payload_with_keys(
            d2,
            author_key,
            share_key,
        ),
{
    let head = payload_head(d1, author_key);
    let stamp = field_line("timestamp"@, decimal_of(d1.timestamp.micros as nat));
    lemma_payload_shape(d1, author_key, share_key);
    lemma_payload_shape(d2, author_key, share_key);
    let pre = field_line("format"@, d1.format@) + field_line("path"@, d1.path@)
        + field_line("share"@, address_text_of("+"@, d1.share.name@, share_key))
        + "share_signature"@ + "\t"@;
    let post = "\n"@ + field_line("text_hash"@, d1.text_hash@);
    assert(payload_middle(d1, share_key) =~= pre + d1.share_signature@ + post);
    assert(payload_middle(d2, share_key) =~= pre + d2.share_signature@ + post);
    assert(payload_with_keys(d1, author_key, share_key) =~= (head + pre)
        + d1.share_signature@ + (post + stamp));
    assert(payload_with_keys(d2, author_key, share_key) =~= (head + pre)
        + d2.share_signature@ + (post + stamp));
    lemma_middle_differs(head + pre, d1.share_signature@, d2.share_signature@, post + stamp);
}

#[verifier::rlimit(50)]
proof fn lemma_text_hash_change(
    d1: &Document,
    d2: &Document,
    author_key: Seq<u8>,
    share_key: Seq<u8>,
)
    requires
        d1.author.shortname@ == d2.author.shortname@,
        d1.share.name@ == d2.share.name@,
        d1.timestamp == d2.timestamp,
        d1.delete_after == d2.delete_after,
        d1.attachment_size == d2.attachment_size,
        d1.attachment_hash == d2.attachment_hash,
        d1.format@ == d2.format@,
        d1.path@ == d2.path@,
        d1.share_signature@ == d2.share_signature@,
        d1.text_hash@ != d2.text_hash@,
    ensures
        payload_with_keys(d1, author_key, share_key) != payload_with_keys(
            d2,
            author_key,
            share_key,
        ),
{
    let head = payload_head(d1, author_key);
    let stamp = field_line("timestamp"@, decimal_of(d1.timestamp.micros as nat));
    lemma_payload_shape(d1, author_key, share_key);
    lemma_payload_shape(d2, author_key, share_key);
    let pre = field_line("format"@, d1.format@) + field_line("path"@, d1.path@)
        + field_line("share"@, address_text_of("+"@, d1.share.name@, share_key))
        + field_line("share_signature"@, d1.share_signature@) + "text_hash"@ + "\t"@;
    let post = "\n"@;
    assert(payload_middle(d1, share_key) =~= pre + d1.text_hash@ + post);
    assert(payload_middle(d2, share_key) =~= pre + d2.text_hash@ + post);
    assert(payload_with_keys(d1, author_key, share_key) =~= (head + pre)
        + d1.text_hash@ + (post + stamp));
    assert(payload_with_keys(d2, author_key, share_key) =~= (head + pre)
        + d2.text_hash@ + (post + stamp));
    lemma_middle_differs(head + pre, d1.text_hash@, d2.text_hash@, post + stamp);
}

proof fn lemma_decimal_injective(n: nat, m: nat)
    requires
        n != m,
    ensures
        decimal_of(n) != decimal_of(m),
    decreases n + m,
{
    if n < 10 && m < 10 {
        assert(decimal_of(n)[0] != decimal_of(m)[0]);
    } else if n >= 10 && m >= 10 {
        let a = decimal_of(n);
        let b = decimal_of(m);
        if n % 10 != m % 10 {
            assert(a[a.len() - 1] != b[b.len() - 1]);
        } else {
            assert(n / 10 != m / 10);
            lemma_decimal_injective(n / 10, m / 10);
            if a == b {
                assert(a.drop_last() =~= decimal_of(n / 10));
                assert(b.drop_last() =~= decimal_of(m / 10));
            }
        }
    } else {
        lemma_decimal_len(n);
        lemma_decimal_len(m);
    }
}

proof fn lemma_decimal_len(n: nat)
    ensures
        decimal_of(n).len() >= 1,
        n >= 10 ==> decimal_of(n).len() >= 2,
    decreases n,
{
    if n >= 10 {
        lemma_decimal_len(n / 10);
    }
}

#[verifier::rlimit(50)]
proof fn lemma_timestamp_change(
    d1: &Document,
    d2: &Document,
    author_key: Seq<u8>,
    share_key: Seq<u8>,
)
    requires
        d1.author.shortname@ == d2.author.shortname@,
        d1.share.name@ == d2.share.name@,
        d1.format@ == d2.format@,
        d1.path@ == d2.path@,
        d1.share_signature@ == d2.share_signature@,
        d1.text_hash@ == d2.text_hash@,
        d1.attachment_size == d2.attachment_size,
        d1.attachment_hash == d2.attachment_hash,
        delete_after_micros(d1.delete_after) == delete_after_micros(d2.delete_after),
        d1.timestamp != d2.timestamp,
    ensures
        payload_with_keys(d1, author_key, share_key) != payload_with_keys(
            d2,
            author_key,
            share_key,
        ),
{
    lemma_payload_shape(d1, author_key, share_key);
    lemma_payload_shape(d2, author_key, share_key);
    let pre = payload_head(d1, author_key) + payload_middle(d1, share_key) + "timestamp"@ + "\t"@;
    let x = decimal_of(d1.timestamp.micros as nat);
    let y = decimal_of(d2.timestamp.micros as nat);
    lemma_decimal_injective(d1.timestamp.micros as nat, d2.timestamp.micros as nat);
    assert(payload_with_keys(d1, author_key, share_key) =~= pre + x + "\n"@);
    assert(payload_with_keys(d2, author_key, share_key) =~= pre + y + "\n"@);
    lemma_middle_differs(pre, x, y, "\n"@);
}

#[verifier::rlimit(50)]
proof fn lemma_delete_after_change(
    d1: &Document,
    d2: &Document,
    author_key: Seq<u8>,
    share_key: Seq<u8>,
)
    requires
        d1.author.shortname@ == d2.author.shortname@,
        d1.share.name@ == d2.share.name@,
        d1.format@ == d2.format@,
        d1.path@ == d2.path@,
        d1.share_signature@ == d2.share_signature@,
        d1.text_hash@ == d2.text_hash@,
        d1.attachment_size == d2.attachment_size,
        d1.attachment_hash == d2.attachment_hash,
        delete_after_micros(d1.delete_after) != delete_after_micros(d2.delete_after),
        d1.timestamp == d2.timestamp,
    ensures
        payload_with_keys(d1, author_key, share_key) != payload_with_keys(
            d2,
            author_key,
            share_key,
        ),
{
    lemma_payload_shape(d1, author_key, share_key);
    lemma_payload_shape(d2, author_key, share_key);
    let pre = payload_start(d1, author_key) + "delete_after"@ + "\t"@;
    let post = "\n"@ + (payload_middle(d1, share_key) + field_line(
        "timestamp"@,
        decimal_of(d1.timestamp.micros as nat),
    ));
    let x = decimal_of(delete_after_micros(d1.delete_after) as nat);
    let y = decimal_of(delete_after_micros(d2.delete_after) as nat);
    lemma_decimal_injective(
        delete_after_micros(d1.delete_after) as nat,
        delete_after_micros(d2.delete_after) as nat,
    );
    assert(payload_with_keys(d1, author_key, share_key) =~= pre + x + post);
    assert(payload_with_keys(d2, author_key, share_key) =~= pre + y + post);
    lemma_middle_differs(pre, x, y, post);
}

/// Two documents that agree on every signed field but the timestamp, or but the
/// deletion instant (as microseconds, 0 when absent), have different signed payloads.
pub proof fn lemma_instant_change_changes_payload(d1: &Document, d2: &Document)
    requires
        public_key_of(d1.author.key_bytes@) == public_key_of(d2.author.key_bytes@),
        public_key_of(d1.share.key_bytes@) == public_key_of(d2.share.key_bytes@),
        d1.author.shortname@ == d2.author.shortname@,
        d1.share.name@ == d2.share.name@,
        d1.format@ == d2.format@,
        d1.path@ == d2.path@,
        d1.share_signature@ == d2.share_signature@,
        d1.text_hash@ == d2.text_hash@,
        d1.attachment_size == d2.attachment_size,
        d1.attachment_hash == d2.attachment_hash,
        (d1.timestamp != d2.timestamp) != (delete_after_micros(d1.delete_after)
            != delete_after_micros(d2.delete_after)),
    ensures
        canonical_text_of(d1) != canonical_text_of(d2),
{
    let author_key = public_key_of(d1.author.key_bytes@);
    let share_key = public_key_of(d1.share.key_bytes@);
    if d1.timestamp != d2.timestamp {
        lemma_timestamp_change(d1, d2, author_key, share_key);
    } else {
        lemma_delete_after_change(d1, d2, author_key, share_key);
    }
}

#[verifier::rlimit(50)]
proof fn lemma_shortname_change(
    d1: &Document,
    d2: &Document,
    author_key: Seq<u8>,
    share_key: Seq<u8>,
)
    requires
        d1.timestamp == d2.timestamp,
        d1.delete_after == d2.delete_after,
        d1.attachment_size == d2.attachment_size,
        d1.attachment_hash == d2.attachment_hash,
        d1.format@ == d2.format@,
        d1.path@ == d2.path@,
        d1.share_signature@ == d2.share_signature@,
        d1.text_hash@ == d2.text_hash@,
        d1.share.name@ == d2.share.name@,
        d1.author.shortname@ != d2.author.shortname@,
    ensures
        payload_with_keys(d1, author_key, share_key) != payload_with_keys(
            d2,
            author_key,
            share_key,
        ),
{
    lemma_payload_shape(d1, author_key, share_key);
    lemma_payload_shape(d2, author_key, share_key);
    let attachment = if has_attachment(d1.attachment_size, d1.attachment_hash) {
        field_line("attachment_hash"@, d1.attachment_hash->0@) + field_line(
            "attachment_size"@,
            signed_decimal_of(d1.attachment_size->0 as int),
        )
    } else {
        Seq::empty()
    };
    let pre = attachment + "author"@ + "\t"@ + "@"@;
    let tail = seq!['.', 'b'] + base32_of(author_key) + "\n"@;
    let rest = field_line("delete_after"@, decimal_of(delete_after_micros(d1.delete_after) as nat))
        + payload_middle(d1, share_key) + field_line(
        "timestamp"@,
        decimal_of(d1.timestamp.micros as nat),
    );
    assert(payload_start(d1, author_key) =~= pre + d1.author.shortname@ + tail);
    assert(payload_start(d2, author_key) =~= pre + d2.author.shortname@ + tail);
    assert(payload_with_keys(d1, author_key, share_key) =~= pre + d1.author.shortname@ + (tail
        + rest));
    assert(payload_with_keys(d2, author_key, share_key) =~= pre + d2.author.shortname@ + (tail
        + rest));
    lemma_middle_differs(pre, d1.author.shortname@, d2.author.shortname@, tail + rest);
}

#[verifier::rlimit(50)]
proof fn lemma_share_name_change(
    d1: &Document,
    d2: &Document,
    author_key: Seq<u8>,
    share_key: Seq<u8>,
)
    requires
        d1.timestamp == d2.timestamp,
        d1.delete_after == d2.delete_after,
        d1.attachment_size == d2.attachment_size,
        d1.attachment_hash == d2.attachment_hash,
        d1.format@ == d2.format@,
        d1.path@ == d2.path@,
        d1.share_signature@ == d2.share_signature@,
        d1.text_hash@ == d2.text_hash@,
        d1.author.shortname@ == d2.author.shortname@,
        d1.share.name@ != d2.share.name@,
    ensures
        payload_with_keys(d1, author_key, share_key) != payload_with_keys(
            d2,
            author_key,
            share_key,
        ),
{
    lemma_payload_shape(d1, author_key, share_key);
    lemma_payload_shape(d2, author_key, share_key);
    let head = payload_head(d1, author_key);
    let pre = head + field_line("format"@, d1.format@) + field_line("path"@, d1.path@) + "share"@
        + "\t"@ + "+"@;
    let post = seq!['.', 'b'] + base32_of(share_key) + "\n"@ + field_line(
        "share_signature"@,
        d1.share_signature@,
    ) + field_line("text_hash"@, d1.text_hash@) + field_line(
        "timestamp"@,
        decimal_of(d1.timestamp.micros as nat),
    );
    assert(payload_with_keys(d1, author_key, share_key) =~= pre + d1.share.name@ + post);
    assert(payload_with_keys(d2, author_key, share_key) =~= pre + d2.share.name@ + post);
    lemma_middle_differs(pre, d1.share.name@, d2.share.name@, post);
}

proof fn lemma_decimal_first_digit(n: nat)
    ensures
        decimal_of(n).len() >= 1,
        '0' <= decimal_of(n)[0] <= '9',
    decreases n,
{
    if n >= 10 {
        lemma_decimal_first_digit(n / 10);
        assert(decimal_of(n)[0] == decimal_of(n / 10)[0]);
    }
}

proof fn lemma_signed_decimal_injective(n: int, m: int)
    requires
        n != m,
    ensures
        signed_decimal_of(n) != signed_decimal_of(m),
{
    if n < 0 && m < 0 {
        lemma_decimal_injective((-n) as nat, (-m) as nat);
        let a = signed_decimal_of(n);
        let b = signed_decimal_of(m);
        if a == b {
            assert(a.drop_first() =~= decimal_of((-n) as nat));
            assert(b.drop_first() =~= decimal_of((-m) as nat));
        }
    } else if n >= 0 && m >= 0 {
        lemma_decimal_injective(n as nat, m as nat);
    } else if n < 0 {
        lemma_decimal_first_digit(m as nat);
        assert(signed_decimal_of(n)[0] == '-');
    } else {
        lemma_decimal_first_digit(n as nat);
        assert(signed_decimal_of(m)[0] == '-');
    }
}

/// The text of an attachment hash, when present.
pub open spec fn attachment_hash_text(hash: Option<String>) -> Option<Seq<char>> {
    match hash {
        Some(h) => Some(h@),
        None => None,
    }
}

/// The attachment lines of the signed payload.
spec fn attachment_lines(size: Option<i32>, hash: Option<String>) -> Seq<char> {
    if has_attachment(size, hash) {
        field_line("attachment_hash"@, hash->0@) + field_line(
            "attachment_size"@,
            signed_decimal_of(size->0 as int),
        )
    } else {
        Seq::empty()
    }
}

#[verifier::rlimit(50)]
proof fn lemma_attachment_lines_differ(d1: &Document, d2: &Document)
    requires
        has_attachment(d1.attachment_size, d1.attachment_hash) || no_attachment(
            d1.attachment_size,
            d1.attachment_hash,
        ),
        has_attachment(d2.attachment_size, d2.attachment_hash) || no_attachment(
            d2.attachment_size,
            d2.attachment_hash,
        ),
        has_attachment(d1.attachment_size, d1.attachment_hash) != has_attachment(
            d2.attachment_size,
            d2.attachment_hash,
        ) || (d1.attachment_size == d2.attachment_size) != (attachment_hash_text(d1.attachment_hash)
            == attachment_hash_text(d2.attachment_hash)),
    ensures
        attachment_lines(d1.attachment_size, d1.attachment_hash) != attachment_lines(
            d2.attachment_size,
            d2.attachment_hash,
        ),
{
    let a1 = attachment_lines(d1.attachment_size, d1.attachment_hash);
    let a2 = attachment_lines(d2.attachment_size, d2.attachment_hash);
    let has1 = has_attachment(d1.attachment_size, d1.attachment_hash);
    let has2 = has_attachment(d2.attachment_size, d2.attachment_hash);
    if has1 && has2 {
        let h1 = d1.attachment_hash->0@;
        let h2 = d2.attachment_hash->0@;
        let s1 = signed_decimal_of(d1.attachment_size->0 as int);
        let s2 = signed_decimal_of(d2.attachment_size->0 as int);
        if h1 != h2 {
            let pre = "attachment_hash"@ + "\t"@;
            let post = "\n"@ + field_line("attachment_size"@, s1);
            assert(a1 =~= pre + h1 + post);
            assert(a2 =~= pre + h2 + post);
            lemma_middle_differs(pre, h1, h2, post);
        } else {
            assert(attachment_hash_text(d1.attachment_hash) == attachment_hash_text(
                d2.attachment_hash,
            ));
            assert(d1.attachment_size != d2.attachment_size);
            assert(d1.attachment_size->0 != d2.attachment_size->0);
            lemma_signed_decimal_injective(
                d1.attachment_size->0 as int,
                d2.attachment_size->0 as int,
            );
            let pre = field_line("attachment_hash"@, h1) + "attachment_size"@ + "\t"@;
            assert(a1 =~= pre + s1 + "\n"@);
            assert(a2 =~= pre + s2 + "\n"@);
            lemma_middle_differs(pre, s1, s2, "\n"@);
        }
    } else if has1 {
        assert(a1.len() > 0);
    } else if has2 {
        assert(a2.len() > 0);
    } else {
        assert(d1.attachment_size == d2.attachment_size);
        assert(d1.attachment_hash == d2.attachment_hash);
    }
}

/// Two documents that agree on every signed field but the attachment fields, each
/// holding both or neither of them, have different signed payloads when one has an
/// attachment and the other none, or when exactly one of hash and size differs.
#[verifier::rlimit(50)]
pub proof fn lemma_attachment_change_changes_payload(d1: &Document, d2: &Document)
    requires
        public_key_of(d1.author.key_bytes@) == public_key_of(d2.author.key_bytes@),
        public_key_of(d1.share.key_bytes@) == public_key_of(d2.share.key_bytes@),
        d1.author.shortname@ == d2.author.shortname@,
        d1.share.name@ == d2.share.name@,
        d1.format@ == d2.format@,
        d1.path@ == d2.path@,
        d1.share_signature@ == d2.share_signature@,
        d1.text_hash@ == d2.text_hash@,
        d1.timestamp == d2.timestamp,
        d1.delete_after == d2.delete_after,
        has_attachment(d1.attachment_size, d1.attachment_hash) || no_attachment(
            d1.attachment_size,
            d1.attachment_hash,
        ),
        has_attachment(d2.attachment_size, d2.attachment_hash) || no_attachment(
            d2.attachment_size,
            d2.attachment_hash,
        ),
        has_attachment(d1.attachment_size, d1.attachment_hash) != has_attachment(
            d2.attachment_size,
            d2.attachment_hash,
        ) || (d1.attachment_size == d2.attachment_size) != (attachment_hash_text(d1.attachment_hash)
            == attachment_hash_text(d2.attachment_hash)),
    ensures
        canonical_text_of(d1) != canonical_text_of(d2),
{
    let author_key = public_key_of(d1.author.key_bytes@);
    let share_key = public_key_of(d1.share.key_bytes@);
    lemma_payload_shape(d1, author_key, share_key);
    lemma_payload_shape(d2, author_key, share_key);
    let rest = field_line("author"@, address_text_of("@"@, d1.author.shortname@, author_key))
        + field_line("delete_after"@, decimal_of(delete_after_micros(d1.delete_after) as nat))
        + payload_middle(d1, share_key) + field_line(
        "timestamp"@,
        decimal_of(d1.timestamp.micros as nat),
    );
    let a1 = attachment_lines(d1.attachment_size, d1.attachment_hash);
    let a2 = attachment_lines(d2.attachment_size, d2.attachment_hash);
    assert(canonical_text_of(d1) =~= a1 + rest);
    assert(canonical_text_of(d2) =~= a2 + rest);
    lemma_attachment_lines_differ(d1, d2);
    lemma_middle_differs(Seq::empty(), a1, a2, rest);
    assert(Seq::<char>::empty() + a1 =~= a1);
    assert(Seq::<char>::empty() + a2 =~= a2);
}

/// Two documents that differ in exactly one of author shortname, share name,
/// format, path, share signature or text hash, and agree on every other signed
/// field, have different signed
/// payloads: a signature over one payload's hash fits the other's fields only if
/// the two hashes collide.
pub proof fn lemma_field_change_changes_payload(d1: &Document, d2: &Document)
    requires
        public_key_of(d1.author.key_bytes@) == public_key_of(d2.author.key_bytes@),
        public_key_of(d1.share.key_bytes@) == public_key_of(d2.share.key_bytes@),
        d1.timestamp == d2.timestamp,
        d1.delete_after == d2.delete_after,
        d1.attachment_size == d2.attachment_size,
        d1.attachment_hash == d2.attachment_hash,
        (d1.author.shortname@ != d2.author.shortname@) as int + (d1.share.name@
            != d2.share.name@) as int + (d1.format@ != d2.format@) as int + (d1.path@
            != d2.path@) as int + (d1.share_signature@ != d2.share_signature@) as int
            + (d1.text_hash@ != d2.text_hash@) as int == 1,
    ensures
        canonical_text_of(d1) != canonical_text_of(d2),
{
    let author_key = public_key_of(d1.author.key_bytes@);
    let share_key = public_key_of(d1.share.key_bytes@);
    if d1.author.shortname@ != d2.author.shortname@ {
        lemma_shortname_change(d1, d2, author_key, share_key);
    } else if d1.share.name@ != d2.share.name@ {
        lemma_share_name_change(d1, d2, author_key, share_key);
    } else if d1.format@ != d2.format@ {
        lemma_format_change(d1, d2, author_key, share_key);
    } else if d1.path@ != d2.path@ {
        lemma_path_change(d1, d2, author_key, share_key);
    } else if d1.share_signature@ != d2.share_signature@ {
        lemma_share_signature_change(d1, d2, author_key, share_key);
    } else {
        lemma_text_hash_change(d1, d2, author_key, share_key);
    }
}

} // verus!
