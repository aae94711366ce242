//! Key widening, digests, random keys and authenticated encryption.

use crate::error::Error;
use crate::hexcode::{
    hex_decode, hex_decoded, hex_encode, hex_text, lemma_hex_round_trip, lemma_hex_text_bytes,
    option_bytes,
};
use aes_gcm::aead::{Aead, NewAead};
use aes_gcm::{Aes256Gcm, Key, Nonce};
use rand::Rng;
use sha2::{Digest, Sha256};
use vstd::arithmetic::div_mod::{
    lemma_fundamental_div_mod, lemma_mod_multiples_vanish, lemma_small_mod,
};
use vstd::prelude::*;
use vstd::string::*;
use vstd::utf8::*;

pub use crate::memdata::MemData;

verus! {

/// Width in bytes of a vault key.
pub const AES_256_KEY_NUM: usize = 32;

/// Width in bytes of a nonce.
pub const AES_256_NONCE_NUM: usize = 12;

/// Width in bytes of the authentication tag that closes every ciphertext.
pub const AES_256_TAG_NUM: usize = 16;

/// The longest plaintext, in bytes, that one encryption accepts: 2^36 - 17. The cipher
/// counts blocks of 16 bytes in 32 bits, spends one on the tag, and asks for one in reserve.
pub const AES_256_MAX_PLAINTEXT: u64 = 0xF_FFFF_FFEF;

/// The SHA-256 digest of `msg`.
pub uninterp spec fn sha256_digest(msg: Seq<u8>) -> Seq<u8>;

/// The AES-256-GCM ciphertext of `msg` under `key` and `nonce`, tag included, with no
/// associated data.
pub uninterp spec fn aes256_gcm_sealed(key: Seq<u8>, nonce: Seq<u8>, msg: Seq<u8>) -> Seq<u8>;

/// What AES-256-GCM decryption of `sealed` under `key` and `nonce` gives: the plaintext, or
/// `None` where the tag does not authenticate the ciphertext.
pub uninterp spec fn aes256_gcm_opened(key: Seq<u8>, nonce: Seq<u8>, sealed: Seq<u8>) -> Option<
    Seq<u8>,
>;

/// `Sha256::digest` of the `sha2` crate: the digest is a function of the message alone and
/// is 32 bytes long.
#[verifier::external_body]
fn sha256_bytes(msg: &[u8]) -> (digest: Vec<u8>)
    ensures
        digest@ == sha256_digest(msg@),
        digest@.len() == 32,
{
    Sha256::digest(msg).to_vec()
}

/// `Aead::encrypt` of `Aes256Gcm`, with no associated data. On a plaintext of at most
/// 2^36 - 17 bytes the call succeeds; what it returns is the ciphertext followed by its
/// 16-byte tag, and decrypting that under the same key and nonce gives the plaintext back.
/// A key that is not 32 bytes, a nonce that is not 12 bytes or a longer plaintext, on which
/// the counter mode under the cipher runs out of blocks, would make the call panic.
#[verifier::external_body]
fn gcm_encrypt(msg: &[u8], key: &[u8], nonce: &[u8]) -> (sealed: Option<Vec<u8>>)
    requires
        key@.len() == AES_256_KEY_NUM,
        nonce@.len() == AES_256_NONCE_NUM,
        msg@.len() <= AES_256_MAX_PLAINTEXT,
    ensures
        sealed is Some,
        sealed matches Some(c) ==> {
            &&& c@ == aes256_gcm_sealed(key@, nonce@, msg@)
            &&& c@.len() == msg@.len() + AES_256_TAG_NUM
            &&& aes256_gcm_opened(key@, nonce@, c@) == Some(msg@)
        },
{
    let cipher = Aes256Gcm::new(Key::from_slice(key));
    cipher.encrypt(Nonce::from_slice(nonce), msg).ok()
}

/// `Aead::decrypt` of `Aes256Gcm`, with no associated data. It fails where the input is
/// shorter than a tag or the tag does not match; a plaintext that comes back is 16 bytes
/// shorter than the input, and encrypting it under the same key and nonce gives the input
/// again: the cipher adds the same keystream both ways, and the tag that decryption
/// accepted is the one that encryption computes over the same ciphertext. A key that is not
/// 32 bytes, a nonce that is not 12 bytes or an input of more than 2^36 - 1 bytes, on which
/// the counter mode under the cipher runs out of blocks, would make the call panic.
#[verifier::external_body]
fn gcm_decrypt(sealed: &[u8], key: &[u8], nonce: &[u8]) -> (msg: Option<Vec<u8>>)
    requires
        key@.len() == AES_256_KEY_NUM,
        nonce@.len() == AES_256_NONCE_NUM,
        sealed@.len() <= AES_256_MAX_PLAINTEXT + AES_256_TAG_NUM,
    ensures
        option_bytes(msg) == aes256_gcm_opened(key@, nonce@, sealed@),
        msg matches Some(m) ==> m@.len() + AES_256_TAG_NUM == sealed@.len(),
        msg matches Some(m) ==> aes256_gcm_sealed(key@, nonce@, m@) == sealed@,
{
    let cipher = Aes256Gcm::new(Key::from_slice(key));
    cipher.decrypt(Nonce::from_slice(nonce), sealed).ok()
}

/// One byte from `rand::thread_rng`. Nothing is known of its value.
#[verifier::external_body]
pub(crate) fn random_byte() -> u8 {
    rand::thread_rng().gen::<u8>()
}

/// Whether `c` is a digit or one of the letters `a` to `f`.
pub open spec fn is_lower_hex(c: char) -> bool {
    ('0' <= c <= '9') || ('a' <= c <= 'f')
}

/// Whether `id` has the shape of a hyphenated lowercase UUID: 36 characters, hyphens after
/// the groups of 8, 4, 4 and 4, hex digits elsewhere.
pub open spec fn is_uuid_text(id: Seq<char>) -> bool {
    &&& id.len() == 36
    &&& forall|i: int|
        0 <= i < 36 ==> if i == 8 || i == 13 || i == 18 || i == 23 {
            #[trigger] id[i] == '-'
        } else {
            is_lower_hex(id[i])
        }
}

/// `Uuid::new_v4` of the `uuid` crate, as `to_string` writes it: a random id in the
/// hyphenated lowercase form.
#[verifier::external_body]
fn fresh_uuid() -> (id: String)
    ensures
        is_uuid_text(id@),
{
    uuid::Uuid::new_v4().to_string()
}

/// A fresh random record id.
pub fn new_id() -> (id: String)
    ensures
        is_uuid_text(id@),
{
    fresh_uuid()
}

/// The digest text of `msg`: its SHA-256 digest in lowercase hex, 64 characters.
pub open spec fn sha256_text(msg: Seq<u8>) -> Seq<char> {
    hex_text(sha256_digest(msg))
}

/// Lowercase hex text of `data`.
pub fn to_hex(data: &[u8]) -> (text: String)
    ensures
        text@ == hex_text(data@),
{
    hex_encode(data)
}

/// The bytes that hex text of either case stands for; `None` where `text` is not hex text.
pub fn from_hex(text: &str) -> (bytes: Option<Vec<u8>>)
    ensures
        option_bytes(bytes) == hex_decoded(encode_utf8(text@)),
{
    hex_decode(text.as_bytes())
}

/// The SHA-256 digest of `msg` as lowercase hex text: 64 characters for the 32 bytes of
/// the digest.
pub fn sha256(msg: &[u8]) -> (res: Result<String, Error>)
    ensures
        res matches Ok(text) && text@ == sha256_text(msg@) && text@.len() == 64,
        sha256_digest(msg@).len() == 32,
{
    let hash = sha256_bytes(msg);
    let hash_hex = hex_encode(hash.as_slice());
    Ok(hash_hex)
}

/// `text` without the prefixes `pat` that it starts with, however many.
pub open spec fn trimmed_start(text: Seq<char>, pat: Seq<char>) -> Seq<char>
    decreases text.len(),
{
    if 0 < pat.len() <= text.len() && text.subrange(0, pat.len() as int) == pat {
        trimmed_start(text.subrange(pat.len() as int, text.len() as int), pat)
    } else {
        text
    }
}

/// `str::trim_start_matches` with a string as the pattern: the prefixes that match the
/// pattern are removed, repeatedly, and the rest is returned.
#[verifier::external_body]
fn trim_start<'a>(text: &'a str, pat: &str) -> (rest: &'a str)
    requires
        pat@.len() > 0,
    ensures
        rest@ == trimmed_start(text@, pat@),
{
    text.trim_start_matches(pat)
}

/// The bytes that `text` stands for as hex, any leading `0x` set aside; `None` where the
/// rest is not hex text.
pub open spec fn hex_payload(text: Seq<char>) -> Option<Seq<u8>> {
    hex_decoded(encode_utf8(trimmed_start(text, "0x"@)))
}

/// What encrypting `msg` gives: the ciphertext, or `CryptoError` for a plaintext over the
/// limit.
pub open spec fn sealed_or_error(key: Seq<u8>, nonce: Seq<u8>, msg: Seq<u8>) -> Result<
    Seq<u8>,
    Error,
> {
    if msg.len() <= AES_256_MAX_PLAINTEXT {
        Ok(aes256_gcm_sealed(key, nonce, msg))
    } else {
        Err(Error::CryptoError)
    }
}

/// What decrypting `sealed` gives: the plaintext, or `CryptoError` where it is longer than
/// any ciphertext or does not authenticate.
pub open spec fn opened_or_error(key: Seq<u8>, nonce: Seq<u8>, sealed: Seq<u8>) -> Result<
    Seq<u8>,
    Error,
> {
    if sealed.len() > AES_256_MAX_PLAINTEXT + AES_256_TAG_NUM {
        Err(Error::CryptoError)
    } else {
        match aes256_gcm_opened(key, nonce, sealed) {
            Some(msg) => Ok(msg),
            None => Err(Error::CryptoError),
        }
    }
}



/// The view of a result that holds bytes.
pub open spec fn bytes_result(res: Result<Vec<u8>, Error>) -> Result<Seq<u8>, Error> {
    match res {
        Ok(bytes) => Ok(bytes@),
        Err(e) => Err(e),
    }
}

/// Decrypts `msg` under `key` and `nonce` and returns the authenticated plaintext.
pub fn aes256_decode(msg: &[u8], key: &[u8], nonce: &[u8]) -> (res: Result<Vec<u8>, Error>)
    requires
        key@.len() == AES_256_KEY_NUM,
        nonce@.len() == AES_256_NONCE_NUM,
    ensures
        bytes_result(res) == opened_or_error(key@, nonce@, msg@),
        res matches Ok(plain) ==> {
            &&& plain@.len() + AES_256_TAG_NUM == msg@.len()
            &&& plain@.len() <= AES_256_MAX_PLAINTEXT
            &&& aes256_gcm_sealed(key@, nonce@, plain@) == msg@
        },
{
    if msg.len() as u64 > AES_256_MAX_PLAINTEXT + AES_256_TAG_NUM as u64 {
        return Err(Error::CryptoError);
    }
    match gcm_decrypt(msg, key, nonce) {
        Some(plain) => Ok(plain),
        None => Err(Error::CryptoError),
    }
}

/// Encrypts `msg` under `key` and the caller's `nonce`. The same three inputs always give
/// the same ciphertext, so a revealed secret can be sealed again to the bytes it had.
pub fn aes256_encode_with_nonce(msg: &[u8], key: &[u8], nonce: &[u8]) -> (res: Result<
    Vec<u8>,
    Error,
>)
    requires
        key@.len() == AES_256_KEY_NUM,
        nonce@.len() == AES_256_NONCE_NUM,
    ensures
        bytes_result(res) == sealed_or_error(key@, nonce@, msg@),
        res matches Ok(sealed) ==> {
            &&& sealed@.len() == msg@.len() + AES_256_TAG_NUM
            &&& aes256_gcm_opened(key@, nonce@, sealed@) == Some(msg@)
        },
{
    if msg.len() as u64 > AES_256_MAX_PLAINTEXT {
        return Err(Error::CryptoError);
    }
    match gcm_encrypt(msg, key, nonce) {
        Some(sealed) => Ok(sealed),
        None => Err(Error::CryptoError),
    }
}

/// `num` random bytes.
pub fn gen_rand_key(num: usize) -> (res: Result<Vec<u8>, Error>)
    ensures
        res matches Ok(key) && key@.len() == num,
{
    let mut key = Vec::<u8>::new();
    let mut i: usize = 0;
    while i < num
        invariant
            i <= num,
            key@.len() == i,
        decreases num - i,
    {
        let rn = random_byte();
        key.push(rn);
        i = i + 1;
    }
    Ok(key)
}

/// A random key of the width that the cipher takes.
pub fn aes256_key() -> (res: Result<Vec<u8>, Error>)
    ensures
        res matches Ok(key) && key@.len() == AES_256_KEY_NUM,
{
    gen_rand_key(AES_256_KEY_NUM)
}

/// Encrypts `msg` under `key` with a fresh random nonce, and returns the ciphertext and
/// the nonce. Decrypting the ciphertext under the same key and that nonce gives `msg`.
pub fn aes256_encode(msg: &[u8], key: &[u8]) -> (res: Result<(Vec<u8>, Vec<u8>), Error>)
    requires
        key@.len() == AES_256_KEY_NUM,
    ensures
        res is Ok <==> msg@.len() <= AES_256_MAX_PLAINTEXT,
        res matches Ok((sealed, nonce)) ==> {
            &&& nonce@.len() == AES_256_NONCE_NUM
            &&& sealed@ == aes256_gcm_sealed(key@, nonce@, msg@)
            &&& sealed@.len() == msg@.len() + AES_256_TAG_NUM
            &&& opened_or_error(key@, nonce@, sealed@) == Ok::<Seq<u8>, Error>(msg@)
        },
        res matches Err(e) ==> e == Error::CryptoError,
{
    let nonce = match gen_rand_key(AES_256_NONCE_NUM) {
        Ok(nonce) => nonce,
        Err(e) => { return Err(Error::CryptoError); },
    };
    let sealed = aes256_encode_with_nonce(msg, key, nonce.as_slice())?;
    Ok((sealed, nonce))
}

/// Reads hex text that may start with `0x`.
pub fn from_prefixed_hex(text: &str) -> (bytes: Option<Vec<u8>>)
    ensures
        option_bytes(bytes) == hex_payload(text@),
{
    proof {
        reveal_strlit("0x");
    }
    hex_decode(trim_start(text, "0x").as_bytes())
}

/// What decrypting hex text under a hex key and a hex nonce gives: `CryptoError` where one
/// of the three is not hex text, else what decrypting the bytes gives.
pub open spec fn hex_opening(msg: Seq<char>, key: Seq<char>, nonce: Seq<char>) -> Result<
    Seq<u8>,
    Error,
> {
    match (hex_payload(msg), hex_payload(key), hex_payload(nonce)) {
        (Some(m), Some(k), Some(n)) => opened_or_error(k, n, m),
        _ => Err(Error::CryptoError),
    }
}

/// Decrypts hex ciphertext under a hex key and a hex nonce; each of the three may start
/// with `0x`.
pub fn aes256_hex_decrypt(msg: &str, key: &str, nonce: &str) -> (res: Result<Vec<u8>, Error>)
    requires
        hex_payload(key@) matches Some(k) ==> k.len() == AES_256_KEY_NUM,
        hex_payload(nonce@) matches Some(n) ==> n.len() == AES_256_NONCE_NUM,
    ensures
        bytes_result(res) == hex_opening(msg@, key@, nonce@),
{
    let msg_hex = match from_prefixed_hex(msg) {
        Some(bytes) => bytes,
        None => { return Err(Error::CryptoError); },
    };
    let key_hex = match from_prefixed_hex(key) {
        Some(bytes) => bytes,
        None => { return Err(Error::CryptoError); },
    };
    let nonce_hex = match from_prefixed_hex(nonce) {
        Some(bytes) => bytes,
        None => { return Err(Error::CryptoError); },
    };
    aes256_decode(msg_hex.as_slice(), key_hex.as_slice(), nonce_hex.as_slice())
}

/// Encrypts the bytes of `msg` under a hex key, which may start with `0x`, with a fresh
/// random nonce. Returns the ciphertext and the nonce, both as lowercase hex text.
pub fn aes256_hex_encrypt(msg: &str, key: &str) -> (res: Result<(String, String), Error>)
    requires
        hex_payload(key@) matches Some(k) ==> k.len() == AES_256_KEY_NUM,
    ensures
        res is Ok <==> hex_payload(key@) is Some && encode_utf8(msg@).len()
            <= AES_256_MAX_PLAINTEXT,
        res matches Ok((cipher_hex, nonce_hex)) ==> {
            &&& hex_decoded(encode_utf8(nonce_hex@)) matches Some(nonce)
            &&& nonce.len() == AES_256_NONCE_NUM
            &&& nonce_hex@ == hex_text(nonce)
            &&& cipher_hex@ == hex_text(
                aes256_gcm_sealed(hex_payload(key@)->0, nonce, encode_utf8(msg@)),
            )
        },
        res matches Err(e) ==> e == Error::CryptoError,
{
    let key_hex = match from_prefixed_hex(key) {
        Some(bytes) => bytes,
        None => { return Err(Error::CryptoError); },
    };
    let (ciphertext, nonce) = aes256_encode(msg.as_bytes(), key_hex.as_slice())?;
    let cipher_hex = hex_encode(ciphertext.as_slice());
    let nonce_hex = hex_encode(nonce.as_slice());
    proof {
        lemma_hex_text_bytes(nonce@);
        lemma_hex_round_trip(nonce@);
    }
    Ok((cipher_hex, nonce_hex))
}

/// The key that a password of 1 to 32 bytes widens to: its bytes over and over, cut at
/// the key's width.
pub open spec fn widened_key(password: Seq<u8>) -> Seq<u8> {
    Seq::new(AES_256_KEY_NUM as nat, |i: int| password[i % password.len() as int])
}

/// What widening a password gives: the widened key, or why the password is refused.
pub open spec fn widening(password: Seq<u8>) -> Result<Seq<u8>, Error> {
    if password.len() == 0 {
        Err(Error::InvalidPassword)
    } else if password.len() > AES_256_KEY_NUM {
        Err(Error::PasswordTooLong)
    } else {
        Ok(widened_key(password))
    }
}

/// The widened key is one key wide and starts with the password itself.
pub proof fn lemma_widened_key(password: Seq<u8>)
    requires
        0 < password.len() <= AES_256_KEY_NUM,
    ensures
        widening(password) == Ok::<Seq<u8>, Error>(widened_key(password)),
        widened_key(password).len() == AES_256_KEY_NUM,
        widened_key(password).subrange(0, password.len() as int) == password,
{
    let wide = widened_key(password);
    assert forall|i: int| 0 <= i < password.len() implies wide[i] == password[i] by {
        lemma_small_mod(i as nat, password.len());
    }
    assert(wide.subrange(0, password.len() as int) =~= password);
}

/// Widens a master password to a key: the password's bytes as many whole times as fit,
/// then as much of its start as the key still lacks.
pub fn get_valid_aes_key(key: String) -> (res: Result<Vec<u8>, Error>)
    ensures
        bytes_result(res) == widening(encode_utf8(key@)),
{
    let key_vec = key.as_str().as_bytes();
    let len = key_vec.len();
    if len == 0 {
        return Err(Error::InvalidPassword);
    }
    if len > AES_256_KEY_NUM {
        return Err(Error::PasswordTooLong);
    }
    let mut new_key: Vec<u8> = Vec::new();
    let time = AES_256_KEY_NUM / len;
    let nums = AES_256_KEY_NUM % len;
    proof {
        lemma_fundamental_div_mod(AES_256_KEY_NUM as int, len as int);
    }
    let mut t: usize = 0;
    while t < time
        invariant
            0 < len <= AES_256_KEY_NUM,
            len == key_vec@.len(),
            t <= time,
            len * time + nums == AES_256_KEY_NUM,
            new_key@.len() == len * t,
            forall|j: int| 0 <= j < new_key@.len() ==> new_key@[j] == key_vec@[j % len as int],
        decreases time - t,
    {
        let ghost before = new_key@;
        assert(len * (t + 1) == len * t + len) by (nonlinear_arith);
        assert(len * (t + 1) <= len * time) by (nonlinear_arith)
            requires
                t + 1 <= time,
        ;
        new_key.extend_from_slice(key_vec);
        assert forall|j: int| 0 <= j < new_key@.len() implies new_key@[j] == key_vec@[j
            % len as int] by {
            if j >= before.len() {
                let r = j - before.len();
                lemma_mod_multiples_vanish(t as int, r, len as int);
                lemma_small_mod(r as nat, len as nat);
            }
        }
        t = t + 1;
    }
    let mut i: usize = 0;
    while i < nums
        invariant
            0 < len <= AES_256_KEY_NUM,
            len == key_vec@.len(),
            i <= nums < len,
            len * time + nums == AES_256_KEY_NUM,
            new_key@.len() == len * time + i,
            forall|j: int| 0 <= j < new_key@.len() ==> new_key@[j] == key_vec@[j % len as int],
        decreases nums - i,
    {
        proof {
            lemma_mod_multiples_vanish(time as int, i as int, len as int);
            lemma_small_mod(i as nat, len as nat);
        }
        new_key.push(key_vec[i]);
        i = i + 1;
    }
    assert(new_key@ =~= widened_key(key_vec@));
    Ok(new_key)
}

} // verus!
