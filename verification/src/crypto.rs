use vstd::prelude::*;

use aes_gcm::aead::Aead;
use aes_gcm::{Aes256Gcm, KeyInit};
use base64::Engine;
use rand::Rng;
use sha2::Digest;

use crate::jsontext::{json_quoted, push_lit, push_quoted};
use crate::models::{Alias, EncryptedAlias, EncryptedHistoryEntry, HistoryEntry};
use crate::strutil::{chars_of, chars_to_string, dec_i64, fmt_i64, str_eq};
use vstd::utf8::encode_utf8;

verus! {

/// Why an encryption operation failed.
#[derive(Debug, Clone)]
pub enum EncryptionError {
    EncryptFailed(String),
    DecryptFailed(String),
    GroupKeyNotFound(String),
    KeyFileError(String),
    KeyExchangeError(String),
}

/// What AES-256-GCM encryption returns: a function of the key, the nonce,
/// and the plaintext alone.
pub uninterp spec fn aead_ct(key: Seq<u8>, nonce: Seq<u8>, plaintext: Seq<u8>) -> Seq<u8>;

/// What standard base64 encoding returns: a function of the bytes alone.
pub uninterp spec fn b64_of(bytes: Seq<u8>) -> Seq<char>;

/// What the SHA-256 digest returns: a function of the bytes alone.
pub uninterp spec fn sha256_of(bytes: Seq<u8>) -> Seq<u8>;

/// What the X25519 key agreement returns for a secret key and a peer
/// public key: a function of the two alone.
pub uninterp spec fn dh_shared(secret: Seq<u8>, peer_public: Seq<u8>) -> Seq<u8>;

/// What the X25519 public key derived from a secret key is: a function of
/// the secret alone.
pub uninterp spec fn x25519_pub(secret: Seq<u8>) -> Seq<u8>;

/// Relies on Aes256Gcm::encrypt: deterministic in the key, the nonce, and
/// the plaintext, and refused exactly above the cipher's plaintext bound
/// of 2^36 - 32 bytes.
#[verifier::external_body]
fn aead_encrypt(key: &[u8], nonce: &[u8], plaintext: &[u8]) -> (r: Result<Vec<u8>, ()>)
    requires
        key@.len() == 32,
        nonce@.len() == 12,
    ensures
        r matches Ok(c) ==> c@ == aead_ct(key@, nonce@, plaintext@),
        plaintext@.len() <= 0xF_FFFF_FFE0 <==> r is Ok,
{
    let cipher = Aes256Gcm::new_from_slice(key).map_err(|_| ())?;
    let nonce = aes_gcm::Nonce::try_from(nonce).map_err(|_| ())?;
    cipher.encrypt(&nonce, plaintext).map_err(|_| ())
}

/// Relies on Aes256Gcm::decrypt: among the plaintexts the cipher can
/// encrypt (up to 2^36 - 32 bytes), it accepts exactly their encryptions
/// under this key and nonce, and recovers the plaintext they came from.
#[verifier::external_body]
fn aead_decrypt(key: &[u8], nonce: &[u8], ciphertext: &[u8]) -> (r: Result<Vec<u8>, ()>)
    requires
        key@.len() == 32,
        nonce@.len() == 12,
    ensures
        r is Err ==> (forall|pt: Seq<u8>|
            pt.len() <= 0xF_FFFF_FFE0 ==> aead_ct(key@, nonce@, pt) != ciphertext@),
        r matches Ok(p) ==> (forall|pt: Seq<u8>|
            pt.len() <= 0xF_FFFF_FFE0 && aead_ct(key@, nonce@, pt) == ciphertext@ ==> p@ == pt),
{
    let cipher = Aes256Gcm::new_from_slice(key).map_err(|_| ())?;
    let nonce = aes_gcm::Nonce::try_from(nonce).map_err(|_| ())?;
    cipher.decrypt(&nonce, ciphertext).map_err(|_| ())
}

/// Relies on the standard base64 engine's encode.
#[verifier::external_body]
fn b64_encode(bytes: &[u8]) -> (r: String)
    ensures
        r@ == b64_of(bytes@),
{
    base64::engine::general_purpose::STANDARD.encode(bytes)
}

/// Relies on the standard base64 engine's decode: every canonical
/// encoding is accepted and gives the encoded bytes back, and the strict
/// padded engine accepts nothing but canonical encodings.
#[verifier::external_body]
fn b64_decode(s: &str) -> (r: Result<Vec<u8>, ()>)
    ensures
        r is Err ==> (forall|b: Seq<u8>| b64_of(b) != s@),
        r matches Ok(v) ==> (forall|b: Seq<u8>| b64_of(b) == s@ ==> v@ == b),
        (exists|b: Seq<u8>| b64_of(b) == s@) ==> r is Ok,
        r matches Ok(v) ==> s@ == b64_of(v@),
{
    base64::engine::general_purpose::STANDARD.decode(s).map_err(|_| ())
}

/// Relies on Sha256::digest: a 32-byte digest, deterministic in the bytes.
#[verifier::external_body]
fn sha256(bytes: &[u8]) -> (r: Vec<u8>)
    ensures
        r@ == sha256_of(bytes@),
        r@.len() == 32,
{
    sha2::Sha256::digest(bytes).to_vec()
}

/// Relies on StaticSecret::diffie_hellman: a 32-byte shared secret,
/// deterministic in the two keys, and the same from either side of the
/// exchange when each side pairs its secret with the other's public key.
#[verifier::external_body]
fn x25519_shared(secret: &[u8], peer_public: &[u8]) -> (r: Vec<u8>)
    requires
        secret@.len() == 32,
        peer_public@.len() == 32,
    ensures
        r@ == dh_shared(secret@, peer_public@),
        r@.len() == 32,
        forall|other: Seq<u8>|
            peer_public@ == x25519_pub(other) ==> r@ == dh_shared(other, x25519_pub(secret@)),
{
    let mut a = [0u8; 32];
    a.copy_from_slice(secret);
    let mut b = [0u8; 32];
    b.copy_from_slice(peer_public);
    let s = x25519_dalek::StaticSecret::from(a);
    let p = x25519_dalek::PublicKey::from(b);
    s.diffie_hellman(&p).as_bytes().to_vec()
}

/// Relies on PublicKey::from(&StaticSecret): the 32-byte public key,
/// deterministic in the secret.
#[verifier::external_body]
fn x25519_public(secret: &[u8]) -> (r: Vec<u8>)
    requires
        secret@.len() == 32,
    ensures
        r@ == x25519_pub(secret@),
        r@.len() == 32,
{
    let mut a = [0u8; 32];
    a.copy_from_slice(secret);
    let s = x25519_dalek::StaticSecret::from(a);
    x25519_dalek::PublicKey::from(&s).as_bytes().to_vec()
}

/// Relies on rand's cryptographically secure generator, seeded from the
/// operating system: fills 12 bytes for a fresh nonce. Nothing is promised
/// of the values.
#[verifier::external_body]
fn random_nonce() -> (r: Vec<u8>)
    ensures
        r@.len() == 12,
{
    let mut b = [0u8; 12];
    rand::rng().fill_bytes(&mut b);
    b.to_vec()
}

/// Relies on rand's cryptographically secure generator, seeded from the
/// operating system: fills 32 bytes for a fresh key. Nothing is promised
/// of the values.
#[verifier::external_body]
pub fn random_key32() -> (r: Vec<u8>)
    ensures
        r@.len() == 32,
{
    let mut b = [0u8; 32];
    rand::rng().fill_bytes(&mut b);
    b.to_vec()
}

/// Relies on str::from_utf8: it accepts exactly the byte strings some
/// character sequence encodes to, and recovers that sequence.
#[verifier::external_body]
fn bytes_to_string(bytes: &[u8]) -> (r: Result<String, ()>)
    ensures
        r is Err ==> (forall|s: Seq<char>| encode_utf8(s) != bytes@),
        r matches Ok(v) ==> (forall|s: Seq<char>| encode_utf8(s) == bytes@ ==> v@ == s),
{
    match std::str::from_utf8(bytes) {
        Ok(s) => Ok(s.to_string()),
        Err(_) => Err(()),
    }
}

fn err_msg(text: &str) -> (r: String)
    ensures
        r@ == text@,
{
    let r = String::from_str(text);
    r
}

/// Encrypts a byte string under a fresh random 96-bit nonce. Returns the
/// ciphertext and the nonce it was made with.
pub fn encrypt_field(key: &[u8], plaintext: &[u8]) -> (r: Result<
    (Vec<u8>, Vec<u8>),
    EncryptionError,
>)
    requires
        key@.len() == 32,
    ensures
        r matches Ok(p) ==> {
            let (ct, nonce) = p;
            &&& nonce@.len() == 12
            &&& ct@ == aead_ct(key@, nonce@, plaintext@)
        },
        plaintext@.len() <= 0xF_FFFF_FFE0 <==> r is Ok,
{
    let nonce = random_nonce();
    match aead_encrypt(key, nonce.as_slice(), plaintext) {
        Result::Ok(ct) => Result::Ok((ct, nonce)),
        Result::Err(_) => Result::Err(
            EncryptionError::EncryptFailed(err_msg("encryption refused the input")),
        ),
    }
}

/// Decrypts a byte string. Exactly the ciphertexts that this key and nonce
/// encrypt to are accepted, and each yields the plaintext it was made from:
/// decrypting an encryption gives the original back.
pub fn decrypt_field(key: &[u8], ciphertext: &[u8], nonce: &[u8]) -> (r: Result<
    Vec<u8>,
    EncryptionError,
>)
    requires
        key@.len() == 32,
    ensures
        nonce@.len() == 12 ==> {
            &&& ((exists|pt: Seq<u8>|
                pt.len() <= 0xF_FFFF_FFE0 && aead_ct(key@, nonce@, pt) == ciphertext@) ==> r
                is Ok)
            &&& (forall|pt: Seq<u8>|
                pt.len() <= 0xF_FFFF_FFE0 && aead_ct(key@, nonce@, pt) == ciphertext@ ==> (r
                    matches Ok(p) && p@ == pt))
        },
        nonce@.len() != 12 ==> r is Err,
{
    if nonce.len() != 12 {
        return Result::Err(
            EncryptionError::DecryptFailed(err_msg("nonce must hold twelve bytes")),
        );
    }
    match aead_decrypt(key, nonce, ciphertext) {
        Result::Ok(pt) => Result::Ok(pt),
        Result::Err(_) => Result::Err(
            EncryptionError::DecryptFailed(err_msg("ciphertext was not accepted")),
        ),
    }
}

/// Encrypts a string, returning the ciphertext and the nonce, both base64.
pub fn encrypt_string(key: &[u8], text: &str) -> (r: Result<(String, String), EncryptionError>)
    requires
        key@.len() == 32,
    ensures
        r matches Ok(p) ==> {
            let (ct_b64, nonce_b64) = p;
            exists|nonce: Seq<u8>|
                {
                    &&& nonce.len() == 12
                    &&& #[trigger] nonce_b64@ == b64_of(nonce)
                    &&& ct_b64@ == b64_of(aead_ct(key@, nonce, encode_utf8(text@)))
                }
        },
        encode_utf8(text@).len() <= 0xF_FFFF_FFE0 <==> r is Ok,
{
    let (ct, nonce) = match encrypt_field(key, text.as_bytes()) {
        Result::Ok(p) => p,
        Result::Err(e) => {
            return Result::Err(e);
        },
    };
    let ct_b64 = b64_encode(ct.as_slice());
    let nonce_b64 = b64_encode(nonce.as_slice());
    proof {
        assert(nonce@.len() == 12 && nonce_b64@ == b64_of(nonce@) && ct_b64@ == b64_of(
            aead_ct(key@, nonce@, encode_utf8(text@)),
        ));
    }
    Result::Ok((ct_b64, nonce_b64))
}

/// Decrypts a base64 ciphertext and nonce back to a string: decrypting
/// what `encrypt_string` produced under the same key gives the original
/// text back.
pub fn decrypt_string(key: &[u8], b64_ct: &str, b64_nonce: &str) -> (r: Result<
    String,
    EncryptionError,
>)
    requires
        key@.len() == 32,
    ensures
        forall|text: Seq<char>, nonce: Seq<u8>|
            nonce.len() == 12 && encode_utf8(text).len() <= 0xF_FFFF_FFE0 && b64_nonce@ == b64_of(
                nonce,
            ) && b64_ct@ == #[trigger] b64_of(aead_ct(key@, nonce, encode_utf8(text))) ==> (r
                matches Ok(s) && s@ == text),
{
    let ct = match b64_decode(b64_ct) {
        Result::Ok(v) => v,
        Result::Err(_) => {
            return Result::Err(
                EncryptionError::DecryptFailed(err_msg("ciphertext is not base64")),
            );
        },
    };
    let nonce = match b64_decode(b64_nonce) {
        Result::Ok(v) => v,
        Result::Err(_) => {
            return Result::Err(EncryptionError::DecryptFailed(err_msg("nonce is not base64")));
        },
    };
    let pt = match decrypt_field(key, ct.as_slice(), nonce.as_slice()) {
        Result::Ok(v) => v,
        Result::Err(e) => {
            return Result::Err(e);
        },
    };
    let s = match bytes_to_string(pt.as_slice()) {
        Result::Ok(s) => s,
        Result::Err(_) => {
            return Result::Err(
                EncryptionError::DecryptFailed(err_msg("plaintext is not valid text")),
            );
        },
    };
    proof {
        assert forall|text: Seq<char>, nonce_w: Seq<u8>|
            nonce_w.len() == 12 && encode_utf8(text).len() <= 0xF_FFFF_FFE0 && b64_nonce@
                == b64_of(nonce_w) && b64_ct@ == #[trigger] b64_of(
                aead_ct(key@, nonce_w, encode_utf8(text)),
            ) implies s@ == text by {
            assert(nonce@ == nonce_w);
            assert(ct@ == aead_ct(key@, nonce_w, encode_utf8(text)));
            assert(pt@ == encode_utf8(text));
            assert(s@ == text);
        }
    }
    Result::Ok(s)
}

/// One group's symmetric content key.
pub struct GroupKey {
    pub group: String,
    pub key: Vec<u8>,
}

/// The daemon's key material: its X25519 identity keypair and the
/// symmetric key of each group it can read. Key files are the caller's
/// concern; this holds the bytes.
pub struct KeyStore {
    pub secret: Vec<u8>,
    pub public: Vec<u8>,
    pub group_keys: Vec<GroupKey>,
}

/// The shape of a wrapped group key on the wire: base64 of the fresh nonce
/// followed by the key encrypted under the SHA-256 of the pairwise shared
/// secret.
pub open spec fn wrapped_key_blob(dh: Seq<u8>, nonce: Seq<u8>, group_key: Seq<u8>) -> Seq<char> {
    b64_of(nonce + aead_ct(sha256_of(dh), nonce, group_key))
}

impl KeyStore {
    /// The identity keys are 32 bytes and belong together; group keys are
    /// 32 bytes and named once each.
    pub open spec fn wf(self) -> bool {
        &&& self.secret@.len() == 32
        &&& self.public@ == x25519_pub(self.secret@)
        &&& self.public@.len() == 32
        &&& forall|i: int| 0 <= i < self.group_keys@.len() ==> #[trigger] self.group_keys@[i].key@.len() == 32
        &&& forall|i: int, j: int|
            0 <= i < j < self.group_keys@.len() ==> #[trigger] self.group_keys@[i].group@
                != #[trigger] self.group_keys@[j].group@
    }

    /// Whether a key for this group is held.
    pub open spec fn spec_has_group_key(self, group: Seq<char>) -> bool {
        exists|i: int| 0 <= i < self.group_keys@.len() && #[trigger] self.group_keys@[i].group@ == group
    }

    /// The held key of a group.
    pub open spec fn spec_group_key(self, group: Seq<char>) -> Seq<u8> {
        self.group_keys@[choose|i: int|
            0 <= i < self.group_keys@.len() && #[trigger] self.group_keys@[i].group@ == group].key@
    }

    /// Builds a key store around an existing 32-byte identity secret.
    pub fn from_secret(secret: Vec<u8>) -> (r: KeyStore)
        requires
            secret@.len() == 32,
        ensures
            r.wf(),
            r.secret@ == secret@,
            r.group_keys@.len() == 0,
    {
        let public = x25519_public(secret.as_slice());
        KeyStore { secret, public, group_keys: Vec::new() }
    }

    /// Builds a key store around a fresh random identity secret.
    pub fn generate() -> (r: KeyStore)
        ensures
            r.wf(),
            r.group_keys@.len() == 0,
    {
        let secret = random_key32();
        KeyStore::from_secret(secret)
    }

    /// The identity public key, base64 for the wire.
    pub fn public_key_b64(&self) -> (r: String)
        requires
            self.wf(),
        ensures
            r@ == b64_of(x25519_pub(self.secret@)),
    {
        b64_encode(self.public.as_slice())
    }

    fn find_group(&self, group_name: &str) -> (r: Option<usize>)
        ensures
            match r {
                Option::Some(i) => i < self.group_keys@.len()
                    && self.group_keys@[i as int].group@ == group_name@,
                Option::None => !self.spec_has_group_key(group_name@),
            },
    {
        let mut i: usize = 0;
        while i < self.group_keys.len()
            invariant
                i <= self.group_keys@.len(),
                forall|j: int| 0 <= j < i ==> #[trigger] self.group_keys@[j].group@ != group_name@,
            decreases self.group_keys@.len() - i,
        {
            if str_eq(self.group_keys[i].group.as_str(), group_name) {
                return Option::Some(i);
            }
            i += 1;
        }
        Option::None
    }

    /// Whether a key for this group is held.
    pub fn has_group_key(&self, group_name: &str) -> (r: bool)
        ensures
            r == self.spec_has_group_key(group_name@),
    {
        match self.find_group(group_name) {
            Option::Some(_) => true,
            Option::None => false,
        }
    }

    /// The held key of a group, as bytes.
    pub fn get_group_key(&self, group_name: &str) -> (r: Option<&Vec<u8>>)
        requires
            self.wf(),
        ensures
            match r {
                Option::Some(k) => self.spec_has_group_key(group_name@) && k@
                    == self.spec_group_key(group_name@) && k@.len() == 32,
                Option::None => !self.spec_has_group_key(group_name@),
            },
    {
        match self.find_group(group_name) {
            Option::Some(i) => {
                let k = &self.group_keys[i].key;
                proof {
                    let w = choose|w: int|
                        0 <= w < self.group_keys@.len() && #[trigger] self.group_keys@[w].group@
                            == group_name@;
                    assert(w == i as int);
                }
                Option::Some(k)
            },
            Option::None => Option::None,
        }
    }

    /// Stores a group's 32-byte key, as loaded from the key directory; a
    /// group already present keeps its key.
    pub fn add_group_key(&mut self, group_name: &str, key: Vec<u8>)
        requires
            old(self).wf(),
            key@.len() == 32,
        ensures
            final(self).wf(),
            final(self).spec_has_group_key(group_name@),
            final(self).secret@ == old(self).secret@,
            old(self).spec_has_group_key(group_name@) ==> *final(self) == *old(self),
            !old(self).spec_has_group_key(group_name@) ==> final(self).spec_group_key(group_name@)
                == key@,
    {
        match self.find_group(group_name) {
            Option::Some(_) => {},
            Option::None => {
                let ghost prev = self.group_keys@;
                self.group_keys.push(GroupKey { group: String::from_str(group_name), key });
                proof {
                    assert(self.group_keys@.last().group@ == group_name@);
                    assert(self.spec_has_group_key(group_name@));
                    let w = choose|w: int|
                        0 <= w < self.group_keys@.len() && #[trigger] self.group_keys@[w].group@
                            == group_name@;
                    assert(forall|j: int| 0 <= j < prev.len() ==> self.group_keys@[j] == prev[j]);
                    assert(w == self.group_keys@.len() - 1);
                }
            },
        }
    }

    /// Mints a fresh random 256-bit key for a group and stores it. Returns
    /// a copy of the key so the caller can persist it.
    pub fn create_group_key(&mut self, group_name: &str) -> (r: Vec<u8>)
        requires
            old(self).wf(),
            !old(self).spec_has_group_key(group_name@),
        ensures
            final(self).wf(),
            final(self).spec_has_group_key(group_name@),
            final(self).secret@ == old(self).secret@,
            r@ == final(self).spec_group_key(group_name@),
            r@.len() == 32,
    {
        let key = random_key32();
        let mut copy: Vec<u8> = Vec::new();
        let mut i: usize = 0;
        while i < key.len()
            invariant
                i <= key@.len(),
                copy@ =~= key@.subrange(0, i as int),
            decreases key@.len() - i,
        {
            copy.push(key[i]);
            proof {
                assert(copy@ =~= key@.subrange(0, i + 1 as int));
            }
            i += 1;
        }
        proof {
            assert(copy@ =~= key@);
        }
        self.add_group_key(group_name, key);
        copy
    }

    /// Wraps a group key for one recipient: the key is encrypted, under a
    /// fresh nonce, with the SHA-256 of the X25519 secret shared with the
    /// recipient's public key; the nonce and ciphertext travel together,
    /// base64.
    pub fn wrap_group_key(&self, group_name: &str, recipient_pubkey_b64: &str) -> (r: Result<
        String,
        EncryptionError,
    >)
        requires
            self.wf(),
        ensures
            !self.spec_has_group_key(group_name@) ==> r is Err,
            forall|pk: Seq<u8>|
                pk.len() == 32 && recipient_pubkey_b64@ == #[trigger] b64_of(pk) ==> (r
                    matches Ok(w) ==> (exists|nonce: Seq<u8>|
                    nonce.len() == 12 && w@ == #[trigger] wrapped_key_blob(
                        dh_shared(self.secret@, pk),
                        nonce,
                        self.spec_group_key(group_name@),
                    ))),
            self.spec_has_group_key(group_name@) && (exists|pk: Seq<u8>|
                pk.len() == 32 && recipient_pubkey_b64@ == #[trigger] b64_of(pk)) ==> r is Ok,
    {
        let key_idx = match self.find_group(group_name) {
            Option::Some(i) => i,
            Option::None => {
                return Result::Err(
                    EncryptionError::GroupKeyNotFound(err_msg("no key is held for this group")),
                );
            },
        };
        proof {
            let w = choose|w: int|
                0 <= w < self.group_keys@.len() && #[trigger] self.group_keys@[w].group@
                    == group_name@;
            assert(w == key_idx as int);
        }
        let pk_bytes = match b64_decode(recipient_pubkey_b64) {
            Result::Ok(v) => v,
            Result::Err(_) => {
                return Result::Err(
                    EncryptionError::KeyExchangeError(err_msg("public key is not base64")),
                );
            },
        };
        if pk_bytes.len() != 32 {
            return Result::Err(
                EncryptionError::KeyExchangeError(err_msg("public key must hold 32 bytes")),
            );
        }
        let shared = x25519_shared(self.secret.as_slice(), pk_bytes.as_slice());
        let aes_key = sha256(shared.as_slice());
        let nonce = random_nonce();
        let ct = match aead_encrypt(
            aes_key.as_slice(),
            nonce.as_slice(),
            self.group_keys[key_idx].key.as_slice(),
        ) {
            Result::Ok(c) => c,
            Result::Err(_) => {
                return Result::Err(
                    EncryptionError::EncryptFailed(err_msg("encryption refused the input")),
                );
            },
        };
        let mut packed: Vec<u8> = Vec::new();
        let mut i: usize = 0;
        while i < nonce.len()
            invariant
                i <= nonce@.len(),
                packed@ =~= nonce@.subrange(0, i as int),
            decreases nonce@.len() - i,
        {
            packed.push(nonce[i]);
            proof {
                assert(packed@ =~= nonce@.subrange(0, i + 1 as int));
            }
            i += 1;
        }
        proof {
            assert(packed@ =~= nonce@);
        }
        let mut j: usize = 0;
        while j < ct.len()
            invariant
                j <= ct@.len(),
                packed@ =~= nonce@ + ct@.subrange(0, j as int),
            decreases ct@.len() - j,
        {
            packed.push(ct[j]);
            proof {
                assert(packed@ =~= nonce@ + ct@.subrange(0, j + 1 as int));
            }
            j += 1;
        }
        proof {
            assert(packed@ =~= nonce@ + ct@);
        }
        let out = b64_encode(packed.as_slice());
        proof {
            assert(out@ == wrapped_key_blob(
                dh_shared(self.secret@, pk_bytes@),
                nonce@,
                self.spec_group_key(group_name@),
            ));
            assert forall|pk: Seq<u8>|
                pk.len() == 32 && recipient_pubkey_b64@ == #[trigger] b64_of(pk) implies (exists|
                nonce_w: Seq<u8>,
            |
                nonce_w.len() == 12 && out@ == #[trigger] wrapped_key_blob(
                    dh_shared(self.secret@, pk),
                    nonce_w,
                    self.spec_group_key(group_name@),
                )) by {
                assert(pk_bytes@ == pk);
                assert(nonce@.len() == 12 && out@ == wrapped_key_blob(
                    dh_shared(self.secret@, pk),
                    nonce@,
                    self.spec_group_key(group_name@),
                ));
            }
        }
        Result::Ok(out)
    }

    /// Unwraps a group key received from a peer and stores it: wrapping a
    /// key to this machine's public key and unwrapping it here, with the
    /// sender's public key alongside, recovers and keeps exactly the
    /// original key bytes. Returns a copy so the caller can persist it.
    pub fn unwrap_group_key(
        &mut self,
        group_name: &str,
        wrapped_b64: &str,
        sender_pubkey_b64: &str,
    ) -> (r: Result<Vec<u8>, EncryptionError>)
        requires
            old(self).wf(),
        ensures
            final(self).wf(),
            final(self).secret@ == old(self).secret@,
            r is Err ==> *final(self) == *old(self),
            r matches Ok(k) ==> k@.len() == 32,
            (forall|b: Seq<u8>| b64_of(b) != sender_pubkey_b64@) ==> r is Err,
            (forall|b: Seq<u8>| b64_of(b) != wrapped_b64@) ==> r is Err,
            forall|b: Seq<u8>| #[trigger] b64_of(b) == sender_pubkey_b64@ && b.len() != 32 ==> r
                is Err,
            forall|b: Seq<u8>| #[trigger] b64_of(b) == wrapped_b64@ && b.len() < 12 ==> r is Err,
            forall|sender_secret: Seq<u8>, nonce: Seq<u8>, gk: Seq<u8>|
                {
                    &&& sender_secret.len() == 32
                    &&& x25519_pub(sender_secret).len() == 32
                    &&& nonce.len() == 12
                    &&& gk.len() == 32
                    &&& sender_pubkey_b64@ == b64_of(x25519_pub(sender_secret))
                    &&& wrapped_b64@ == #[trigger] wrapped_key_blob(
                        dh_shared(sender_secret, x25519_pub(old(self).secret@)),
                        nonce,
                        gk,
                    )
                } ==> {
                    &&& r matches Ok(k) && k@ == gk
                    &&& final(self).spec_has_group_key(group_name@)
                    &&& (!old(self).spec_has_group_key(group_name@)
                        ==> final(self).spec_group_key(group_name@) == gk)
                },
    {
        let sender_pk = match b64_decode(sender_pubkey_b64) {
            Result::Ok(v) => v,
            Result::Err(_) => {
                return Result::Err(
                    EncryptionError::KeyExchangeError(err_msg("public key is not base64")),
                );
            },
        };
        if sender_pk.len() != 32 {
            return Result::Err(
                EncryptionError::KeyExchangeError(err_msg("public key must hold 32 bytes")),
            );
        }
        let packed = match b64_decode(wrapped_b64) {
            Result::Ok(v) => v,
            Result::Err(_) => {
                return Result::Err(
                    EncryptionError::KeyExchangeError(err_msg("wrapped key is not base64")),
                );
            },
        };
        if packed.len() < 12 {
            return Result::Err(
                EncryptionError::KeyExchangeError(err_msg("wrapped key is too short")),
            );
        }
        let mut nonce: Vec<u8> = Vec::new();
        let mut i: usize = 0;
        while i < 12
            invariant
                i <= 12 <= packed@.len(),
                nonce@ =~= packed@.subrange(0, i as int),
            decreases 12 - i,
        {
            nonce.push(packed[i]);
            proof {
                assert(nonce@ =~= packed@.subrange(0, i + 1 as int));
            }
            i += 1;
        }
        let mut ct: Vec<u8> = Vec::new();
        let mut j: usize = 12;
        while j < packed.len()
            invariant
                12 <= j <= packed@.len(),
                ct@ =~= packed@.subrange(12, j as int),
            decreases packed@.len() - j,
        {
            ct.push(packed[j]);
            proof {
                assert(ct@ =~= packed@.subrange(12, j + 1 as int));
            }
            j += 1;
        }
        proof {
            assert(packed@ =~= nonce@ + ct@);
        }
        let shared = x25519_shared(self.secret.as_slice(), sender_pk.as_slice());
        let aes_key = sha256(shared.as_slice());
        let plaintext = match decrypt_field(aes_key.as_slice(), ct.as_slice(), nonce.as_slice()) {
            Result::Ok(v) => v,
            Result::Err(_) => {
                proof {
                    assert forall|sender_secret: Seq<u8>, nonce_w: Seq<u8>, gk: Seq<u8>|
                        {
                            &&& sender_secret.len() == 32
                            &&& x25519_pub(sender_secret).len() == 32
                            &&& nonce_w.len() == 12
                            &&& gk.len() == 32
                            &&& sender_pubkey_b64@ == b64_of(x25519_pub(sender_secret))
                            &&& wrapped_b64@ == #[trigger] wrapped_key_blob(
                                dh_shared(sender_secret, x25519_pub(old(self).secret@)),
                                nonce_w,
                                gk,
                            )
                        } implies false by {
                        assert(sender_pk@ == x25519_pub(sender_secret));
                        let dh = dh_shared(sender_secret, x25519_pub(old(self).secret@));
                        assert(shared@ == dh);
                        assert(packed@ == nonce_w + aead_ct(sha256_of(dh), nonce_w, gk));
                        assert(nonce@ =~= nonce_w);
                        assert(ct@ =~= aead_ct(sha256_of(dh), nonce_w, gk));
                    }
                }
                return Result::Err(
                    EncryptionError::KeyExchangeError(err_msg("wrapped key was not accepted")),
                );
            },
        };
        if plaintext.len() != 32 {
            proof {
                assert forall|sender_secret: Seq<u8>, nonce_w: Seq<u8>, gk: Seq<u8>|
                    {
                        &&& sender_secret.len() == 32
                        &&& x25519_pub(sender_secret).len() == 32
                        &&& nonce_w.len() == 12
                        &&& gk.len() == 32
                        &&& sender_pubkey_b64@ == b64_of(x25519_pub(sender_secret))
                        &&& wrapped_b64@ == #[trigger] wrapped_key_blob(
                            dh_shared(sender_secret, x25519_pub(old(self).secret@)),
                            nonce_w,
                            gk,
                        )
                    } implies false by {
                    assert(sender_pk@ == x25519_pub(sender_secret));
                    let dh = dh_shared(sender_secret, x25519_pub(old(self).secret@));
                    assert(shared@ == dh);
                    assert(packed@ == nonce_w + aead_ct(sha256_of(dh), nonce_w, gk));
                    assert(nonce@ =~= nonce_w);
                    assert(ct@ =~= aead_ct(sha256_of(dh), nonce_w, gk));
                    assert(plaintext@ == gk);
                }
            }
            return Result::Err(
                EncryptionError::KeyExchangeError(err_msg("unwrapped key has the wrong length")),
            );
        }
        let mut copy: Vec<u8> = Vec::new();
        let mut k: usize = 0;
        while k < plaintext.len()
            invariant
                k <= plaintext@.len(),
                copy@ =~= plaintext@.subrange(0, k as int),
            decreases plaintext@.len() - k,
        {
            copy.push(plaintext[k]);
            proof {
                assert(copy@ =~= plaintext@.subrange(0, k + 1 as int));
            }
            k += 1;
        }
        proof {
            assert(copy@ =~= plaintext@);
        }
        let ghost self_before = *self;
        self.add_group_key(group_name, plaintext);
        proof {
            assert forall|sender_secret: Seq<u8>, nonce_w: Seq<u8>, gk: Seq<u8>|
                {
                    &&& sender_secret.len() == 32
                    &&& x25519_pub(sender_secret).len() == 32
                    &&& nonce_w.len() == 12
                    &&& gk.len() == 32
                    &&& sender_pubkey_b64@ == b64_of(x25519_pub(sender_secret))
                    &&& wrapped_b64@ == #[trigger] wrapped_key_blob(
                        dh_shared(sender_secret, x25519_pub(old(self).secret@)),
                        nonce_w,
                        gk,
                    )
                } implies {
                &&& copy@ == gk
                &&& final(self).spec_has_group_key(group_name@)
                &&& (!old(self).spec_has_group_key(group_name@) ==> final(self).spec_group_key(
                    group_name@,
                ) == gk)
            } by {
                assert(sender_pk@ == x25519_pub(sender_secret));
                let dh = dh_shared(sender_secret, x25519_pub(old(self).secret@));
                assert(shared@ == dh);
                assert(packed@ == nonce_w + aead_ct(sha256_of(dh), nonce_w, gk));
                assert(nonce@ =~= nonce_w);
                assert(ct@ =~= aead_ct(sha256_of(dh), nonce_w, gk));
                assert(plaintext@ == gk);
            }
        }
        Result::Ok(copy)
    }
}


/// Encrypts an alias for the wire: only the command becomes ciphertext,
/// under a fresh nonce; the name and the rest stay plaintext so the shell
/// file can list the alias.
pub fn encrypt_alias(key: &[u8], alias: &Alias) -> (r: Result<EncryptedAlias, EncryptionError>)
    requires
        key@.len() == 32,
    ensures
        r matches Ok(enc) ==> {
            &&& enc.id == alias.id
            &&& enc.name@ == alias.name@
            &&& enc.group_name@ == alias.group_name@
            &&& enc.created_by_machine@ == alias.created_by_machine@
            &&& enc.created_at == alias.created_at
            &&& enc.updated_at == alias.updated_at
            &&& enc.version == alias.version
            &&& (exists|nonce: Seq<u8>|
                {
                    &&& nonce.len() == 12
                    &&& enc.nonce@ == b64_of(nonce)
                    &&& enc.command@ == #[trigger] b64_of(
                        aead_ct(key@, nonce, encode_utf8(alias.command@)),
                    )
                })
        },
        encode_utf8(alias.command@).len() <= 0xF_FFFF_FFE0 <==> r is Ok,
{
    let (ct_b64, nonce_b64) = match encrypt_string(key, alias.command.as_str()) {
        Result::Ok(p) => p,
        Result::Err(e) => {
            return Result::Err(e);
        },
    };
    Result::Ok(
        EncryptedAlias {
            id: alias.id,
            name: alias.name.clone(),
            command: ct_b64,
            group_name: alias.group_name.clone(),
            created_by_machine: alias.created_by_machine.clone(),
            created_at: alias.created_at,
            updated_at: alias.updated_at,
            version: alias.version,
            nonce: nonce_b64,
        },
    )
}

/// Decrypts a wire alias back to a plain one: decrypting what
/// `encrypt_alias` produced under the same key yields an alias whose
/// command is the original and whose other fields are carried over.
pub fn decrypt_alias(key: &[u8], enc: &EncryptedAlias) -> (r: Result<Alias, EncryptionError>)
    requires
        key@.len() == 32,
    ensures
        r matches Ok(a) ==> {
            &&& a.id == enc.id
            &&& a.name@ == enc.name@
            &&& a.group_name@ == enc.group_name@
            &&& a.created_by_machine@ == enc.created_by_machine@
            &&& a.created_at == enc.created_at
            &&& a.updated_at == enc.updated_at
            &&& a.version == enc.version
        },
        forall|command: Seq<char>, nonce: Seq<u8>|
            nonce.len() == 12 && encode_utf8(command).len() <= 0xF_FFFF_FFE0 && enc.nonce@
                == b64_of(nonce) && enc.command@ == #[trigger] b64_of(
                aead_ct(key@, nonce, encode_utf8(command)),
            ) ==> (r matches Ok(a) && a.command@ == command),
{
    let command = match decrypt_string(key, enc.command.as_str(), enc.nonce.as_str()) {
        Result::Ok(c) => c,
        Result::Err(e) => {
            return Result::Err(e);
        },
    };
    Result::Ok(
        Alias {
            id: enc.id,
            name: enc.name.clone(),
            command,
            group_name: enc.group_name.clone(),
            created_by_machine: enc.created_by_machine.clone(),
            created_at: enc.created_at,
            updated_at: enc.updated_at,
            version: enc.version,
        },
    )
}


/// The wire form of the five per-field nonces: a JSON array of their
/// base64 texts, in field order.
pub open spec fn nonce_array_text(
    n1: Seq<u8>,
    n2: Seq<u8>,
    n3: Seq<u8>,
    n4: Seq<u8>,
    n5: Seq<u8>,
) -> Seq<char> {
    "["@ + (json_quoted(b64_of(n1)) + (","@ + (json_quoted(b64_of(n2)) + (","@ + (json_quoted(
        b64_of(n3),
    ) + (","@ + (json_quoted(b64_of(n4)) + (","@ + (json_quoted(b64_of(n5)) + "]"@)))))))))
}

/// A history-entry envelope as `encrypt_history_entry` builds it: the five
/// sensitive fields encrypted under the five nonces, the numeric fields as
/// their decimal texts, the routing fields plain.
pub open spec fn history_envelope_of(
    key: Seq<u8>,
    e: HistoryEntry,
    enc: EncryptedHistoryEntry,
    n1: Seq<u8>,
    n2: Seq<u8>,
    n3: Seq<u8>,
    n4: Seq<u8>,
    n5: Seq<u8>,
) -> bool {
    &&& n1.len() == 12 && n2.len() == 12 && n3.len() == 12 && n4.len() == 12 && n5.len() == 12
    &&& encode_utf8(e.command@).len() <= 0xF_FFFF_FFE0
    &&& encode_utf8(e.cwd@).len() <= 0xF_FFFF_FFE0
    &&& encode_utf8(e.hostname@).len() <= 0xF_FFFF_FFE0
    &&& enc.id@ == e.id@
    &&& enc.command@ == b64_of(aead_ct(key, n1, encode_utf8(e.command@)))
    &&& enc.cwd@ == b64_of(aead_ct(key, n2, encode_utf8(e.cwd@)))
    &&& enc.exit_code@ == b64_of(aead_ct(key, n3, encode_utf8(dec_i64(e.exit_code as int))))
    &&& enc.duration_ms@ == b64_of(aead_ct(key, n4, encode_utf8(dec_i64(e.duration_ms as int))))
    &&& enc.hostname@ == b64_of(aead_ct(key, n5, encode_utf8(e.hostname@)))
    &&& enc.session_id@ == e.session_id@
    &&& enc.machine_id@ == e.machine_id@
    &&& enc.timestamp == e.timestamp
    &&& enc.shell@ == e.shell@
    &&& enc.group_name@ == e.group_name@
    &&& enc.nonces@ == nonce_array_text(n1, n2, n3, n4, n5)
}

fn fmt_i64_string(n: i64) -> (r: String)
    ensures
        r@ == dec_i64(n as int),
{
    let digits = fmt_i64(n);
    chars_to_string(&digits)
}

/// Parses a decimal text back to the number that renders to it: anything
/// returned re-renders to exactly the input.
pub(crate) fn parse_decimal(text: &str) -> (r: Option<i64>)
    ensures
        r matches Some(x) ==> dec_i64(x as int) == text@,
        forall|n: i64| text@ == dec_i64(n as int) ==> (r matches Some(x) && x == n),
{
    let chars = chars_of(text);
    let mut i: usize = 0;
    let mut neg = false;
    if i < chars.len() && chars[i] == '-' {
        neg = true;
        i += 1;
    }
    let start = i;
    let mut mag: u64 = 0;
    while i < chars.len() && '0' <= chars[i] && chars[i] <= '9'
        invariant
            chars@ == text@,
            start <= i <= chars@.len(),
            start <= 1,
            neg <==> start == 1,
            neg ==> chars@.len() > 0 && chars@[0] == '-',
            !neg ==> chars@.len() == 0 || chars@[0] != '-',
            forall|j: int| start <= j < i ==> ('0' <= #[trigger] chars@[j] && chars@[j] <= '9'),
            mag as int == crate::strutil::digits_val(chars@.subrange(start as int, i as int)),
        decreases chars@.len() - i,
    {
        let c = chars[i];
        proof {
            vstd::utf8::char_u32_cast(c, c as u32);
        }
        let d = ((c as u8) - ('0' as u8)) as u64;
        if mag > (u64::MAX - d) / 10 {
            proof {
                assert forall|n: i64| text@ == dec_i64(n as int) implies false by {
                    crate::strutil::lemma_dec_i64_shape(text@, n as int);
                    let m: int = if n < 0 {
                        -(n as int)
                    } else {
                        n as int
                    };
                    if n < 0 {
                        assert(text@[0] == '-');
                        assert(neg);
                    } else {
                        assert('0' <= text@[0]);
                        assert(!neg);
                    }
                    assert(i - start <= 18);
                    crate::strutil::lemma_digits_val_bound(
                        chars@.subrange(start as int, i as int),
                        18,
                    );
                    assert(crate::strutil::pow10(18) == 1000000000000000000) by {
                        reveal_with_fuel(crate::strutil::pow10, 20);
                    }
                    assert((mag as int) < 1000000000000000000);
                    assert(d <= 9);
                    assert(mag <= (u64::MAX - d) / 10);
                }
            }
            return Option::None;
        }
        mag = mag * 10 + d;
        proof {
            assert(chars@.subrange(start as int, i as int + 1).drop_last() =~= chars@.subrange(
                start as int,
                i as int,
            ));
            assert(chars@.subrange(start as int, i as int + 1).last() == c);
        }
        i += 1;
    }
    if i == start || i < chars.len() {
        proof {
            assert forall|n: i64| text@ == dec_i64(n as int) implies false by {
                crate::strutil::lemma_dec_i64_shape(text@, n as int);
                if n < 0 {
                    assert(text@[0] == '-');
                    assert(neg);
                } else {
                    assert('0' <= text@[0]);
                    assert(!neg);
                }
                if i < chars.len() {
                    assert('0' <= chars@[i as int] && chars@[i as int] <= '9');
                } else {
                    assert(i == start);
                    assert(start < chars@.len());
                }
            }
        }
        return Option::None;
    }
    proof {
        assert forall|n: i64| text@ == dec_i64(n as int) implies {
            &&& (neg <==> n < 0)
            &&& mag as int == (if n < 0 {
                -(n as int)
            } else {
                n as int
            })
        } by {
            crate::strutil::lemma_dec_i64_shape(text@, n as int);
            let m: int = if n < 0 {
                -(n as int)
            } else {
                n as int
            };
            let st: int = if n < 0 {
                1
            } else {
                0
            };
            if n < 0 {
                assert(text@[0] == '-');
                assert(neg);
            } else {
                assert('0' <= text@[0]);
                assert(!neg);
            }
            assert(chars@.subrange(start as int, i as int) =~= text@.skip(st));
        }
    }
    let value: i64 = if neg {
        if mag <= 9223372036854775807u64 {
            -(mag as i64)
        } else if mag == 9223372036854775808u64 {
            i64::MIN
        } else {
            return Option::None;
        }
    } else {
        if mag <= 9223372036854775807u64 {
            mag as i64
        } else {
            return Option::None;
        }
    };
    let rendered = fmt_i64_string(value);
    if str_eq(rendered.as_str(), text) {
        Option::Some(value)
    } else {
        return Option::None;
    }
}

/// Equal one-separator-then-string texts carry the same string and tail.
proof fn lemma_peel_item(sep: Seq<char>, a: Seq<char>, b: Seq<char>, ra: Seq<char>, rb: Seq<char>)
    requires
        sep.len() == 1,
        sep + (json_quoted(a) + ra) == sep + (json_quoted(b) + rb),
    ensures
        a == b,
        ra == rb,
{
    assert((sep + (json_quoted(a) + ra)).skip(1) =~= json_quoted(a) + ra);
    assert((sep + (json_quoted(b) + rb)).skip(1) =~= json_quoted(b) + rb);
    crate::jsontext::lemma_quoted_prefix(a, b, ra, rb);
}

/// The nonce array is a prefix code: equal array texts carry the same five
/// base64 nonce texts.
#[verifier::rlimit(100)]
#[verifier::spinoff_prover]
proof fn lemma_nonce_array_pins(
    p0: Seq<char>,
    p1: Seq<char>,
    p2: Seq<char>,
    p3: Seq<char>,
    p4: Seq<char>,
    n1: Seq<u8>,
    n2: Seq<u8>,
    n3: Seq<u8>,
    n4: Seq<u8>,
    n5: Seq<u8>,
)
    requires
        "["@ + (json_quoted(p0) + (","@ + (json_quoted(p1) + (","@ + (json_quoted(p2) + (","@
            + (json_quoted(p3) + (","@ + (json_quoted(p4) + "]"@))))))))) == nonce_array_text(
            n1,
            n2,
            n3,
            n4,
            n5,
        ),
    ensures
        p0 == b64_of(n1),
        p1 == b64_of(n2),
        p2 == b64_of(n3),
        p3 == b64_of(n4),
        p4 == b64_of(n5),
{
    reveal_strlit("[");
    reveal_strlit(",");
    reveal_strlit("]");
    lemma_peel_item(
        "["@,
        p0,
        b64_of(n1),
        ","@ + (json_quoted(p1) + (","@ + (json_quoted(p2) + (","@ + (json_quoted(p3) + (","@
            + (json_quoted(p4) + "]"@))))))),
        ","@ + (json_quoted(b64_of(n2)) + (","@ + (json_quoted(b64_of(n3)) + (","@ + (json_quoted(
            b64_of(n4),
        ) + (","@ + (json_quoted(b64_of(n5)) + "]"@))))))),
    );
    lemma_peel_item(
        ","@,
        p1,
        b64_of(n2),
        ","@ + (json_quoted(p2) + (","@ + (json_quoted(p3) + (","@ + (json_quoted(p4) + "]"@))))),
        ","@ + (json_quoted(b64_of(n3)) + (","@ + (json_quoted(b64_of(n4)) + (","@ + (json_quoted(
            b64_of(n5),
        ) + "]"@))))),
    );
    lemma_peel_item(
        ","@,
        p2,
        b64_of(n3),
        ","@ + (json_quoted(p3) + (","@ + (json_quoted(p4) + "]"@))),
        ","@ + (json_quoted(b64_of(n4)) + (","@ + (json_quoted(b64_of(n5)) + "]"@))),
    );
    lemma_peel_item(
        ","@,
        p3,
        b64_of(n4),
        ","@ + (json_quoted(p4) + "]"@),
        ","@ + (json_quoted(b64_of(n5)) + "]"@),
    );
    lemma_peel_item(","@, p4, b64_of(n5), "]"@, "]"@);
}

/// Some five nonces make `enc` the envelope of `e` under this key.
pub open spec fn is_history_envelope(
    key: Seq<u8>,
    e: HistoryEntry,
    enc: EncryptedHistoryEntry,
) -> bool {
    exists|n1: Seq<u8>, n2: Seq<u8>, n3: Seq<u8>, n4: Seq<u8>, n5: Seq<u8>|
        #[trigger] history_envelope_of(key, e, enc, n1, n2, n3, n4, n5)
}

/// Encrypts a history entry for the wire: command, working directory, exit
/// code, duration, and hostname become ciphertext under five fresh nonces;
/// the routing fields stay plaintext; the nonces travel alongside as a
/// JSON array of base64 texts.
#[verifier::rlimit(100)]
#[verifier::spinoff_prover]
pub fn encrypt_history_entry(key: &[u8], entry: &HistoryEntry) -> (r: Result<
    EncryptedHistoryEntry,
    EncryptionError,
>)
    requires
        key@.len() == 32,
    ensures
        r matches Ok(enc) ==> is_history_envelope(key@, *entry, enc),
        (encode_utf8(entry.command@).len() <= 0xF_FFFF_FFE0 && encode_utf8(entry.cwd@).len()
            <= 0xF_FFFF_FFE0 && encode_utf8(entry.hostname@).len() <= 0xF_FFFF_FFE0) ==> r is Ok,
{
    let (c_ct, c_n) = match encrypt_string(key, entry.command.as_str()) {
        Result::Ok(p) => p,
        Result::Err(e) => {
            return Result::Err(e);
        },
    };
    let (w_ct, w_n) = match encrypt_string(key, entry.cwd.as_str()) {
        Result::Ok(p) => p,
        Result::Err(e) => {
            return Result::Err(e);
        },
    };
    let exit_text = fmt_i64_string(entry.exit_code as i64);
    proof {
        crate::strutil::lemma_dec_i64_utf8_short(entry.exit_code as int);
    }
    let (x_ct, x_n) = match encrypt_string(key, exit_text.as_str()) {
        Result::Ok(p) => p,
        Result::Err(e) => {
            proof {
                assert(false);
            }
            return Result::Err(e);
        },
    };
    let dur_text = fmt_i64_string(entry.duration_ms);
    proof {
        crate::strutil::lemma_dec_i64_utf8_short(entry.duration_ms as int);
    }
    let (d_ct, d_n) = match encrypt_string(key, dur_text.as_str()) {
        Result::Ok(p) => p,
        Result::Err(e) => {
            proof {
                assert(false);
            }
            return Result::Err(e);
        },
    };
    let (h_ct, h_n) = match encrypt_string(key, entry.hostname.as_str()) {
        Result::Ok(p) => p,
        Result::Err(e) => {
            return Result::Err(e);
        },
    };
    proof {
        assert(exists|n: Seq<u8>|
            n.len() == 12 && #[trigger] c_n@ == b64_of(n) && c_ct@ == b64_of(
                aead_ct(key@, n, encode_utf8(entry.command@)),
            ));
        assert(exists|n: Seq<u8>|
            n.len() == 12 && #[trigger] w_n@ == b64_of(n) && w_ct@ == b64_of(
                aead_ct(key@, n, encode_utf8(entry.cwd@)),
            ));
        assert(exists|n: Seq<u8>|
            n.len() == 12 && #[trigger] x_n@ == b64_of(n) && x_ct@ == b64_of(
                aead_ct(key@, n, encode_utf8(dec_i64(entry.exit_code as int))),
            ));
        assert(exists|n: Seq<u8>|
            n.len() == 12 && #[trigger] d_n@ == b64_of(n) && d_ct@ == b64_of(
                aead_ct(key@, n, encode_utf8(dec_i64(entry.duration_ms as int))),
            ));
        assert(exists|n: Seq<u8>|
            n.len() == 12 && #[trigger] h_n@ == b64_of(n) && h_ct@ == b64_of(
                aead_ct(key@, n, encode_utf8(entry.hostname@)),
            ));
    }
    let ghost wn1 = choose|n: Seq<u8>|
        n.len() == 12 && #[trigger] c_n@ == b64_of(n) && c_ct@ == b64_of(
            aead_ct(key@, n, encode_utf8(entry.command@)),
        );
    let ghost wn2 = choose|n: Seq<u8>|
        n.len() == 12 && #[trigger] w_n@ == b64_of(n) && w_ct@ == b64_of(
            aead_ct(key@, n, encode_utf8(entry.cwd@)),
        );
    let ghost wn3 = choose|n: Seq<u8>|
        n.len() == 12 && #[trigger] x_n@ == b64_of(n) && x_ct@ == b64_of(
            aead_ct(key@, n, encode_utf8(dec_i64(entry.exit_code as int))),
        );
    let ghost wn4 = choose|n: Seq<u8>|
        n.len() == 12 && #[trigger] d_n@ == b64_of(n) && d_ct@ == b64_of(
            aead_ct(key@, n, encode_utf8(dec_i64(entry.duration_ms as int))),
        );
    let ghost wn5 = choose|n: Seq<u8>|
        n.len() == 12 && #[trigger] h_n@ == b64_of(n) && h_ct@ == b64_of(
            aead_ct(key@, n, encode_utf8(entry.hostname@)),
        );
    let mut nonces: Vec<char> = Vec::new();
    push_lit(&mut nonces, "[");
    push_quoted(&mut nonces, c_n.as_str());
    push_lit(&mut nonces, ",");
    push_quoted(&mut nonces, w_n.as_str());
    push_lit(&mut nonces, ",");
    push_quoted(&mut nonces, x_n.as_str());
    push_lit(&mut nonces, ",");
    push_quoted(&mut nonces, d_n.as_str());
    push_lit(&mut nonces, ",");
    push_quoted(&mut nonces, h_n.as_str());
    push_lit(&mut nonces, "]");
    let nonces_s = chars_to_string(&nonces);
    let enc = EncryptedHistoryEntry {
        id: entry.id.clone(),
        command: c_ct,
        cwd: w_ct,
        exit_code: x_ct,
        duration_ms: d_ct,
        session_id: entry.session_id.clone(),
        machine_id: entry.machine_id.clone(),
        hostname: h_ct,
        timestamp: entry.timestamp,
        shell: entry.shell.clone(),
        group_name: entry.group_name.clone(),
        nonces: nonces_s,
    };
    proof {
        assert(enc.nonces@ =~= nonce_array_text(wn1, wn2, wn3, wn4, wn5));
        assert(history_envelope_of(key@, *entry, enc, wn1, wn2, wn3, wn4, wn5));
        assert(is_history_envelope(key@, *entry, enc));
    }
    Result::Ok(enc)
}

/// Decrypts a wire history entry: decrypting what `encrypt_history_entry`
/// produced under the same key yields an entry that agrees with the
/// original on every field.
#[verifier::rlimit(100)]
#[verifier::spinoff_prover]
#[verifier::rlimit(100)]
#[verifier::spinoff_prover]
pub fn decrypt_history_entry(key: &[u8], enc: &EncryptedHistoryEntry) -> (r: Result<
    HistoryEntry,
    EncryptionError,
>)
    requires
        key@.len() == 32,
    ensures
        (exists|
            e: HistoryEntry,
            n1: Seq<u8>,
            n2: Seq<u8>,
            n3: Seq<u8>,
            n4: Seq<u8>,
            n5: Seq<u8>,
        | #[trigger] history_envelope_of(key@, e, *enc, n1, n2, n3, n4, n5)) ==> r is Ok,
        r matches Ok(d) ==> (forall|
            e: HistoryEntry,
            n1: Seq<u8>,
            n2: Seq<u8>,
            n3: Seq<u8>,
            n4: Seq<u8>,
            n5: Seq<u8>,
        |
            #[trigger] history_envelope_of(key@, e, *enc, n1, n2, n3, n4, n5)
                ==> crate::models::history_like(d, e)),
{
    let nonce_chars = chars_of(enc.nonces.as_str());
    let parsed = match crate::protocol::p_five_quoted(&nonce_chars) {
        Option::Some(v) => v,
        Option::None => {
            proof {
                assert forall|
                    e: HistoryEntry,
                    n1: Seq<u8>,
                    n2: Seq<u8>,
                    n3: Seq<u8>,
                    n4: Seq<u8>,
                    n5: Seq<u8>,
                |
                    #[trigger] history_envelope_of(key@, e, *enc, n1, n2, n3, n4, n5)
                        implies false by {
                    assert(nonce_chars@ == crate::protocol::five_quoted_text(
                        b64_of(n1),
                        b64_of(n2),
                        b64_of(n3),
                        b64_of(n4),
                        b64_of(n5),
                    ));
                }
            }
            return Result::Err(
                EncryptionError::DecryptFailed(err_msg("nonce list is not a JSON array")),
            );
        },
    };
    let mut re: Vec<char> = Vec::new();
    push_lit(&mut re, "[");
    push_quoted(&mut re, parsed[0].as_str());
    push_lit(&mut re, ",");
    push_quoted(&mut re, parsed[1].as_str());
    push_lit(&mut re, ",");
    push_quoted(&mut re, parsed[2].as_str());
    push_lit(&mut re, ",");
    push_quoted(&mut re, parsed[3].as_str());
    push_lit(&mut re, ",");
    push_quoted(&mut re, parsed[4].as_str());
    push_lit(&mut re, "]");
    let re_s = chars_to_string(&re);
    if !str_eq(re_s.as_str(), enc.nonces.as_str()) {
        proof {
            assert forall|
                e2: HistoryEntry,
                n1: Seq<u8>,
                n2: Seq<u8>,
                n3: Seq<u8>,
                n4: Seq<u8>,
                n5: Seq<u8>,
            |
                #[trigger] history_envelope_of(key@, e2, *enc, n1, n2, n3, n4, n5)
                    implies false by {
                assert(nonce_chars@ == crate::protocol::five_quoted_text(
                        b64_of(n1),
                        b64_of(n2),
                        b64_of(n3),
                        b64_of(n4),
                        b64_of(n5),
                    ));
                    crate::strutil::lemma_dec_i64_utf8_short(e2.exit_code as int);
                    crate::strutil::lemma_dec_i64_utf8_short(e2.duration_ms as int);
                reveal_strlit("[");
                reveal_strlit(",");
                reveal_strlit("]");
                assert(re_s@ =~= "["@ + (json_quoted(parsed@[0]@) + (","@ + (json_quoted(
                    parsed@[1]@,
                ) + (","@ + (json_quoted(parsed@[2]@) + (","@ + (json_quoted(parsed@[3]@) + (","@
                    + (json_quoted(parsed@[4]@) + "]"@))))))))));
                assert(re_s@ == enc.nonces@);
            }
        }
        return Result::Err(
            EncryptionError::DecryptFailed(err_msg("nonce list is not in canonical form")),
        );
    }
    proof {
        assert forall|
            e: HistoryEntry,
            n1: Seq<u8>,
            n2: Seq<u8>,
            n3: Seq<u8>,
            n4: Seq<u8>,
            n5: Seq<u8>,
        |
            #[trigger] history_envelope_of(key@, e, *enc, n1, n2, n3, n4, n5) implies {
            &&& parsed@[0]@ == b64_of(n1)
            &&& parsed@[1]@ == b64_of(n2)
            &&& parsed@[2]@ == b64_of(n3)
            &&& parsed@[3]@ == b64_of(n4)
            &&& parsed@[4]@ == b64_of(n5)
        } by {
            reveal_strlit("[");
            reveal_strlit(",");
            reveal_strlit("]");
            assert(re_s@ =~= "["@ + (json_quoted(parsed@[0]@) + (","@ + (json_quoted(
                parsed@[1]@,
            ) + (","@ + (json_quoted(parsed@[2]@) + (","@ + (json_quoted(parsed@[3]@) + (","@
                + (json_quoted(parsed@[4]@) + "]"@))))))))));
            lemma_nonce_array_pins(
                parsed@[0]@,
                parsed@[1]@,
                parsed@[2]@,
                parsed@[3]@,
                parsed@[4]@,
                n1,
                n2,
                n3,
                n4,
                n5,
            );
        }
    }
    let command = match decrypt_string(key, enc.command.as_str(), parsed[0].as_str()) {
        Result::Ok(v) => v,
        Result::Err(err) => {
            proof {
                assert forall|
                    e2: HistoryEntry,
                    n1: Seq<u8>,
                    n2: Seq<u8>,
                    n3: Seq<u8>,
                    n4: Seq<u8>,
                    n5: Seq<u8>,
                |
                    #[trigger] history_envelope_of(key@, e2, *enc, n1, n2, n3, n4, n5)
                        implies false by {
                    assert(nonce_chars@ == crate::protocol::five_quoted_text(
                        b64_of(n1),
                        b64_of(n2),
                        b64_of(n3),
                        b64_of(n4),
                        b64_of(n5),
                    ));
                    crate::strutil::lemma_dec_i64_utf8_short(e2.exit_code as int);
                    crate::strutil::lemma_dec_i64_utf8_short(e2.duration_ms as int);
                }
            }
            return Result::Err(err);
        },
    };
    let cwd = match decrypt_string(key, enc.cwd.as_str(), parsed[1].as_str()) {
        Result::Ok(v) => v,
        Result::Err(err) => {
            proof {
                assert forall|
                    e2: HistoryEntry,
                    n1: Seq<u8>,
                    n2: Seq<u8>,
                    n3: Seq<u8>,
                    n4: Seq<u8>,
                    n5: Seq<u8>,
                |
                    #[trigger] history_envelope_of(key@, e2, *enc, n1, n2, n3, n4, n5)
                        implies false by {
                    assert(nonce_chars@ == crate::protocol::five_quoted_text(
                        b64_of(n1),
                        b64_of(n2),
                        b64_of(n3),
                        b64_of(n4),
                        b64_of(n5),
                    ));
                    crate::strutil::lemma_dec_i64_utf8_short(e2.exit_code as int);
                    crate::strutil::lemma_dec_i64_utf8_short(e2.duration_ms as int);
                }
            }
            return Result::Err(err);
        },
    };
    let exit_text = match decrypt_string(key, enc.exit_code.as_str(), parsed[2].as_str()) {
        Result::Ok(v) => v,
        Result::Err(err) => {
            proof {
                assert forall|
                    e2: HistoryEntry,
                    n1: Seq<u8>,
                    n2: Seq<u8>,
                    n3: Seq<u8>,
                    n4: Seq<u8>,
                    n5: Seq<u8>,
                |
                    #[trigger] history_envelope_of(key@, e2, *enc, n1, n2, n3, n4, n5)
                        implies false by {
                    assert(nonce_chars@ == crate::protocol::five_quoted_text(
                        b64_of(n1),
                        b64_of(n2),
                        b64_of(n3),
                        b64_of(n4),
                        b64_of(n5),
                    ));
                    crate::strutil::lemma_dec_i64_utf8_short(e2.exit_code as int);
                    crate::strutil::lemma_dec_i64_utf8_short(e2.duration_ms as int);
                }
            }
            return Result::Err(err);
        },
    };
    let duration_text = match decrypt_string(key, enc.duration_ms.as_str(), parsed[3].as_str()) {
        Result::Ok(v) => v,
        Result::Err(err) => {
            proof {
                assert forall|
                    e2: HistoryEntry,
                    n1: Seq<u8>,
                    n2: Seq<u8>,
                    n3: Seq<u8>,
                    n4: Seq<u8>,
                    n5: Seq<u8>,
                |
                    #[trigger] history_envelope_of(key@, e2, *enc, n1, n2, n3, n4, n5)
                        implies false by {
                    assert(nonce_chars@ == crate::protocol::five_quoted_text(
                        b64_of(n1),
                        b64_of(n2),
                        b64_of(n3),
                        b64_of(n4),
                        b64_of(n5),
                    ));
                    crate::strutil::lemma_dec_i64_utf8_short(e2.exit_code as int);
                    crate::strutil::lemma_dec_i64_utf8_short(e2.duration_ms as int);
                }
            }
            return Result::Err(err);
        },
    };
    let hostname = match decrypt_string(key, enc.hostname.as_str(), parsed[4].as_str()) {
        Result::Ok(v) => v,
        Result::Err(err) => {
            proof {
                assert forall|
                    e2: HistoryEntry,
                    n1: Seq<u8>,
                    n2: Seq<u8>,
                    n3: Seq<u8>,
                    n4: Seq<u8>,
                    n5: Seq<u8>,
                |
                    #[trigger] history_envelope_of(key@, e2, *enc, n1, n2, n3, n4, n5)
                        implies false by {
                    assert(nonce_chars@ == crate::protocol::five_quoted_text(
                        b64_of(n1),
                        b64_of(n2),
                        b64_of(n3),
                        b64_of(n4),
                        b64_of(n5),
                    ));
                    crate::strutil::lemma_dec_i64_utf8_short(e2.exit_code as int);
                    crate::strutil::lemma_dec_i64_utf8_short(e2.duration_ms as int);
                }
            }
            return Result::Err(err);
        },
    };
    let exit_i64 = match parse_decimal(exit_text.as_str()) {
        Option::Some(v) => v,
        Option::None => {
            proof {
                assert forall|
                    e2: HistoryEntry,
                    n1: Seq<u8>,
                    n2: Seq<u8>,
                    n3: Seq<u8>,
                    n4: Seq<u8>,
                    n5: Seq<u8>,
                |
                    #[trigger] history_envelope_of(key@, e2, *enc, n1, n2, n3, n4, n5)
                        implies false by {
                    assert(nonce_chars@ == crate::protocol::five_quoted_text(
                        b64_of(n1),
                        b64_of(n2),
                        b64_of(n3),
                        b64_of(n4),
                        b64_of(n5),
                    ));
                    crate::strutil::lemma_dec_i64_utf8_short(e2.exit_code as int);
                    crate::strutil::lemma_dec_i64_utf8_short(e2.duration_ms as int);
                    assert(exit_text@ == dec_i64(e2.exit_code as int));
                    let w: i64 = e2.exit_code as i64;
                    assert(exit_text@ == dec_i64(w as int));
                }
            }
            return Result::Err(
                EncryptionError::DecryptFailed(err_msg("exit code is not a decimal text")),
            );
        },
    };
    if exit_i64 < i32::MIN as i64 || exit_i64 > i32::MAX as i64 {
        proof {
            assert forall|
                e2: HistoryEntry,
                n1: Seq<u8>,
                n2: Seq<u8>,
                n3: Seq<u8>,
                n4: Seq<u8>,
                n5: Seq<u8>,
            |
                #[trigger] history_envelope_of(key@, e2, *enc, n1, n2, n3, n4, n5)
                    implies false by {
                assert(nonce_chars@ == crate::protocol::five_quoted_text(
                        b64_of(n1),
                        b64_of(n2),
                        b64_of(n3),
                        b64_of(n4),
                        b64_of(n5),
                    ));
                    crate::strutil::lemma_dec_i64_utf8_short(e2.exit_code as int);
                    crate::strutil::lemma_dec_i64_utf8_short(e2.duration_ms as int);
                assert(exit_text@ == dec_i64(e2.exit_code as int));
                let w: i64 = e2.exit_code as i64;
                assert(exit_text@ == dec_i64(w as int));
                assert(exit_i64 == w);
            }
        }
        return Result::Err(
            EncryptionError::DecryptFailed(err_msg("exit code is out of range")),
        );
    }
    let duration_ms = match parse_decimal(duration_text.as_str()) {
        Option::Some(v) => v,
        Option::None => {
            proof {
                assert forall|
                    e2: HistoryEntry,
                    n1: Seq<u8>,
                    n2: Seq<u8>,
                    n3: Seq<u8>,
                    n4: Seq<u8>,
                    n5: Seq<u8>,
                |
                    #[trigger] history_envelope_of(key@, e2, *enc, n1, n2, n3, n4, n5)
                        implies false by {
                    assert(nonce_chars@ == crate::protocol::five_quoted_text(
                        b64_of(n1),
                        b64_of(n2),
                        b64_of(n3),
                        b64_of(n4),
                        b64_of(n5),
                    ));
                    crate::strutil::lemma_dec_i64_utf8_short(e2.exit_code as int);
                    crate::strutil::lemma_dec_i64_utf8_short(e2.duration_ms as int);
                    assert(duration_text@ == dec_i64(e2.duration_ms as int));
                    let w: i64 = e2.duration_ms;
                    assert(duration_text@ == dec_i64(w as int));
                }
            }
            return Result::Err(
                EncryptionError::DecryptFailed(err_msg("duration is not a decimal text")),
            );
        },
    };
    proof {
        assert forall|
            e: HistoryEntry,
            n1: Seq<u8>,
            n2: Seq<u8>,
            n3: Seq<u8>,
            n4: Seq<u8>,
            n5: Seq<u8>,
        |
            #[trigger] history_envelope_of(key@, e, *enc, n1, n2, n3, n4, n5) implies {
            &&& exit_i64 as int == e.exit_code as int
            &&& duration_ms as int == e.duration_ms as int
        } by {
            crate::strutil::lemma_dec_i64_utf8_short(e.exit_code as int);
            crate::strutil::lemma_dec_i64_utf8_short(e.duration_ms as int);
            assert(exit_text@ == dec_i64(e.exit_code as int));
            assert(dec_i64(exit_i64 as int) == dec_i64(e.exit_code as int));
            crate::strutil::lemma_dec_i64_injective(exit_i64 as int, e.exit_code as int);
            assert(duration_text@ == dec_i64(e.duration_ms as int));
            assert(dec_i64(duration_ms as int) == dec_i64(e.duration_ms as int));
            crate::strutil::lemma_dec_i64_injective(duration_ms as int, e.duration_ms as int);
        }
    }
    Result::Ok(
        HistoryEntry {
            id: enc.id.clone(),
            command,
            cwd,
            exit_code: exit_i64 as i32,
            duration_ms,
            session_id: enc.session_id.clone(),
            machine_id: enc.machine_id.clone(),
            hostname,
            timestamp: enc.timestamp,
            shell: enc.shell.clone(),
            group_name: enc.group_name.clone(),
        },
    )
}

} // verus!
