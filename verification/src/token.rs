//! Credentials: client identifiers, secret tokens and their hashes.

use base64::Engine;
use rand::Rng;
use sha2::Digest;
use vstd::prelude::*;

use crate::{hex, text};

verus! {

/// The SHA-256 digest of some bytes.
pub uninterp spec fn sha256_digest(data: Seq<u8>) -> Seq<u8>;

/// `sha2::Sha256::digest`: its result is the SHA-256 digest of the bytes handed in, 32 bytes
/// that depend on nothing else.
#[verifier::external_body]
fn sha256(data: &[u8]) -> (r: [u8; 32])
    ensures
        r@ == sha256_digest(data@),
{
    sha2::Sha256::digest(data).into()
}

/// What the registry keeps of a token: the digest of its UTF-8 bytes, in hexadecimal.
pub open spec fn hashed(token: Seq<char>) -> Seq<char> {
    hex::hex(sha256_digest(vstd::utf8::encode_utf8(token)))
}

/// The hash under which a token is stored.
pub fn token_hash(token: &str) -> (r: String)
    ensures
        r@ == hashed(token@),
        r@.len() == 64,
{
    let digest = sha256(token.as_bytes());
    hex::hex_lower(digest.as_slice())
}

/// The `k`-th hexadecimal digit of a 128-bit identifier, the most significant first.
pub open spec fn nibble(uuid: u128, k: int) -> int {
    uuid as int / vstd::arithmetic::power::pow(16, (31 - k) as nat) % 16
}

/// The hyphenated form of an identifier: 32 lower-case digits in groups of 8, 4, 4, 4 and 12.
pub open spec fn uuid_text(uuid: u128) -> Seq<char> {
    Seq::new(
        36,
        |i: int|
            if i == 8 || i == 13 || i == 18 || i == 23 {
                '-'
            } else {
                let hyphens: int = if i < 8 {
                    0
                } else if i < 13 {
                    1
                } else if i < 18 {
                    2
                } else if i < 23 {
                    3
                } else {
                    4
                };
                hex::hex_digit(nibble(uuid, i - hyphens))
            },
    )
}

/// What the `uuid` crate reads in a text.
pub uninterp spec fn uuid_of_text(text: Seq<char>) -> Option<u128>;

/// `uuid::Uuid::new_v4`: a random identifier. Of every outcome it holds that the version digit is
/// 4 and that the digit of the variant is 8, 9, a or b.
#[verifier::external_body]
fn random_uuid() -> (r: u128)
    ensures
        nibble(r, 12) == 4,
        8 <= nibble(r, 16) <= 11,
{
    uuid::Uuid::new_v4().as_u128()
}

/// `uuid::Uuid::parse_str`: its result depends on the text alone, and is an error where the text
/// is no identifier.
#[verifier::external_body]
fn parse_uuid(text: &str) -> (r: Option<u128>)
    ensures
        r == uuid_of_text(text@),
{
    uuid::Uuid::parse_str(text).ok().map(|uuid| uuid.as_u128())
}

/// `uuid::Uuid` as `Display` writes it: the hyphenated lower-case form, which
/// `uuid::Uuid::parse_str` reads back as the same identifier.
#[verifier::external_body]
pub(crate) fn format_uuid(uuid: u128) -> (r: String)
    ensures
        r@ == uuid_text(uuid),
        uuid_of_text(r@) == Some(uuid),
{
    uuid::Uuid::from_u128(uuid).to_string()
}

/// `rand::random`: 32 random bytes. Nothing is promised of their values.
#[verifier::external_body]
fn random_bytes() -> (r: [u8; 32])
{
    rand::random()
}

pub open spec fn is_alphanumeric(b: u8) -> bool {
    48 <= b <= 57 || 65 <= b <= 90 || 97 <= b <= 122
}

/// `rand::Rng::sample` on the thread's generator with `rand::distr::Alphanumeric`: a random byte,
/// always one of the ASCII letters and digits.
#[verifier::external_body]
pub(crate) fn sample_alphanumeric() -> (r: u8)
    ensures
        is_alphanumeric(r),
{
    rand::rng().sample(rand::distr::Alphanumeric)
}

/// Compares two byte strings; every byte is looked at whatever the others hold.
pub fn constant_time_equal(left: &[u8], right: &[u8]) -> (r: bool)
    ensures
        r == (left@ == right@),
{
    if left.len() != right.len() {
        return false;
    }
    let mut difference: u8 = 0;
    let mut i: usize = 0;
    while i < left.len()
        invariant
            i <= left@.len(),
            left@.len() == right@.len(),
            difference == 0 <==> (forall|j: int| 0 <= j < i ==> left@[j] == right@[j]),
        decreases left@.len() - i,
    {
        let a: u8 = left[i];
        let b: u8 = right[i];
        let before: u8 = difference;
        difference = before | (a ^ b);
        assert((before | (a ^ b)) == 0 <==> before == 0 && a == b) by (bit_vector);
        i += 1;
    }
    assert(difference == 0 ==> left@ =~= right@);
    difference == 0
}

/// A client identifier and the hash of the token that was presented with it.
#[derive(Clone, Debug, PartialEq, Eq)]
pub struct Credentials {
    pub uuid: u128,
    pub token_hash: String,
}

impl View for Credentials {
    type V = (u128, Seq<char>);

    open spec fn view(&self) -> (u128, Seq<char>) {
        (self.uuid, self.token_hash@)
    }
}

/// What `uuid:token` presents, given what the part before the colon was read as.
pub open spec fn presented(uuid: Option<u128>, token: Seq<char>) -> Option<(u128, Seq<char>)> {
    match uuid {
        Some(id) => Some((id, hashed(token))),
        None => None,
    }
}

/// What a credential text presents.
pub open spec fn credentials_of(value: Seq<char>) -> Option<(u128, Seq<char>)> {
    match text::split_once(value, ':') {
        Some((id, token)) => presented(uuid_of_text(id), token),
        None => None,
    }
}

/// The credential text of a client: its identifier, a colon and its token.
pub open spec fn credential_text(uuid: u128, token: Seq<char>) -> Seq<char> {
    uuid_text(uuid) + seq![':'] + token
}

/// The colon of a credential text is the first one in it.
pub(crate) proof fn lemma_credential_text(uuid: u128, token: Seq<char>)
    ensures
        text::split_once(credential_text(uuid, token), ':') == Some((uuid_text(uuid), token)),
{
    let id = uuid_text(uuid);
    let all = credential_text(uuid, token);
    assert forall|i: int| 0 <= i < id.len() implies all[i] != ':' by {
        assert(all[i] == id[i]);
    }
    assert(all[id.len() as int] == ':');
    text::lemma_char_index_is(all, ':', id.len() as int);
    assert(all.take(id.len() as int) =~= id);
    assert(all.skip(id.len() as int + 1) =~= token);
}

/// Pairs an identifier, where one was read, with the hash of the token.
pub fn present(uuid: Option<u128>, token: &str) -> (r: Option<Credentials>)
    ensures
        match r {
            Some(credentials) => presented(uuid, token@) == Some(credentials@),
            None => presented(uuid, token@) is None,
        },
{
    match uuid {
        Some(id) => Some(Credentials { uuid: id, token_hash: token_hash(token) }),
        None => None,
    }
}

/// Reads a credential text, `uuid:token`.
pub fn parse_credentials(value: &str) -> (r: Option<Credentials>)
    ensures
        match r {
            Some(credentials) => credentials_of(value@) == Some(credentials@),
            None => credentials_of(value@) is None,
        },
{
    match text::split_at_char(value, ':') {
        Some((id, token)) => present(parse_uuid(id.as_str()), token.as_str()),
        None => None,
    }
}

/// Whether an identifier is a version 4 UUID.
pub open spec fn is_random_uuid(uuid: u128) -> bool {
    nibble(uuid, 12) == 4 && 8 <= nibble(uuid, 16) <= 11
}

/// Whether a text is 32 bytes in hexadecimal.
pub open spec fn is_secret(token: Seq<char>) -> bool {
    exists|bytes: Seq<u8>| bytes.len() == 32 && token == #[trigger] hex::hex(bytes)
}

/// The token that 32 bytes make.
pub fn secret_of(bytes: &[u8; 32]) -> (r: String)
    ensures
        r@ == hex::hex(bytes@),
        is_secret(r@),
{
    let r = hex::hex_lower(bytes.as_slice());
    assert(r@ == hex::hex(bytes@));
    r
}

/// A random identifier and a random token.
pub fn new_secret() -> (r: (u128, String))
    ensures
        is_random_uuid(r.0),
        is_secret(r.1@),
{
    let uuid: u128 = random_uuid();
    let bytes = random_bytes();
    (uuid, secret_of(&bytes))
}

/// Bytes that a Base64 text stands for, in the standard alphabet with padding.
pub uninterp spec fn base64_decoded(text: Seq<char>) -> Option<Seq<u8>>;

/// `base64::engine::general_purpose::STANDARD.decode`: its result depends on the text alone, and
/// is an error where the text is not canonical padded Base64.
#[verifier::external_body]
pub(crate) fn decode_base64(text: &str) -> (r: Option<Vec<u8>>)
    ensures
        match r {
            Some(bytes) => base64_decoded(text@) == Some(bytes@),
            None => base64_decoded(text@) is None,
        },
{
    base64::engine::general_purpose::STANDARD.decode(text).ok()
}

/// Credentials are the identifier before the first colon and the hash of all that follows it; a text
/// without a colon, or with anything else before it, holds none.
pub proof fn law_credentials_are_exact(id: Seq<char>, token: Seq<char>)
    requires
        !id.contains(':'),
    ensures
        uuid_of_text(id) matches Some(uuid) ==> credentials_of(id + seq![':'] + token) == Some(
            (uuid, hex::hex(sha256_digest(vstd::utf8::encode_utf8(token)))),
        ),
        uuid_of_text(id) is None ==> credentials_of(id + seq![':'] + token) is None,
        credentials_of(id) is None,
{
    text::law_splitting_is_exact(id, ':', token);
}

/// A token is hashed as its UTF-8 bytes, in SHA-256, written in hexadecimal: tokens have the same hash
/// exactly where their bytes have the same digest.
pub proof fn law_hashes_are_digests(a: Seq<char>, b: Seq<char>)
    ensures
        hashed(a) == hex::hex(sha256_digest(vstd::utf8::encode_utf8(a))),
        hashed(a) == hashed(b) <==> sha256_digest(vstd::utf8::encode_utf8(a)) == sha256_digest(
            vstd::utf8::encode_utf8(b),
        ),
{
    if hashed(a) == hashed(b) {
        hex::law_hex_tells_bytes_apart(
            sha256_digest(vstd::utf8::encode_utf8(a)),
            sha256_digest(vstd::utf8::encode_utf8(b)),
        );
    }
}

/// A new token has 64 characters, each a digit or one of `a` to `f`.
pub proof fn law_secrets_have_their_shape(token: Seq<char>)
    requires
        is_secret(token),
    ensures
        token.len() == 64,
        forall|i: int|
            0 <= i < token.len() ==> (48 <= (#[trigger] token[i]) as int && token[i] as int <= 57) || (97
                <= token[i] as int && token[i] as int <= 102),
{
    let bytes = choose|bytes: Seq<u8>| bytes.len() == 32 && token == #[trigger] hex::hex(bytes);
    assert forall|i: int| 0 <= i < token.len() implies (48 <= (#[trigger] token[i]) as int
        && token[i] as int <= 57) || (97 <= token[i] as int && token[i] as int <= 102) by {
        hex::law_hex_is_exact(bytes, i / 2);
        assert(i == 2 * (i / 2) || i == 2 * (i / 2) + 1);
    }
}

/// The text of an identifier has 36 characters: four hyphens in their places, and between them the
/// hexadecimal digits of the identifier, the most significant first.
pub proof fn law_identifier_texts_have_their_shape(uuid: u128, i: int)
    requires
        0 <= i < 36,
    ensures
        uuid_text(uuid).len() == 36,
        uuid_text(uuid)[i] == '-' <==> i == 8 || i == 13 || i == 18 || i == 23,
        i < 8 ==> uuid_text(uuid)[i] == hex::hex_digit(nibble(uuid, i)),
        8 < i < 13 ==> uuid_text(uuid)[i] == hex::hex_digit(nibble(uuid, i - 1)),
        13 < i < 18 ==> uuid_text(uuid)[i] == hex::hex_digit(nibble(uuid, i - 2)),
        18 < i < 23 ==> uuid_text(uuid)[i] == hex::hex_digit(nibble(uuid, i - 3)),
        23 < i ==> uuid_text(uuid)[i] == hex::hex_digit(nibble(uuid, i - 4)),
{
}

/// The credential text of a client is read back as its identifier and the hash of its token, where its
/// identifier is read back from its own text.
pub proof fn law_credential_texts_are_read_back(uuid: u128, token: Seq<char>)
    requires
        uuid_of_text(uuid_text(uuid)) == Some(uuid),
    ensures
        credential_text(uuid, token) == uuid_text(uuid) + seq![':'] + token,
        credentials_of(credential_text(uuid, token)) == Some((uuid, hashed(token))),
{
    lemma_credential_text(uuid, token);
}

} // verus!
