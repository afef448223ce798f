//! Hashing and ECDSA signing primitives, taken on trust from the `sha2` and
//! `k256` crates, together with the spec-level names for their results.

use vstd::prelude::*;

verus! {

/// The SHA-256 digest of a byte sequence, as computed by `sha2::Sha256`.
pub uninterp spec fn sha256_of(message: Seq<u8>) -> Seq<u8>;

/// The UTF-8 bytes of the lossy decoding of a byte sequence, as computed by
/// `String::from_utf8_lossy`.
pub uninterp spec fn lossy_clean(bytes: Seq<u8>) -> Seq<u8>;

/// Whether `sig` is a valid ECDSA signature over `digest` by the secp256k1
/// key SEC1-encoded in `pk`, in the sense of `k256::ecdsa`: `pk` parses with
/// `VerifyingKey::from_sec1_bytes`, `sig` with `Signature::from_slice`, and
/// `Verifier::verify` accepts.
pub uninterp spec fn sig_valid(pk: Seq<u8>, digest: Seq<u8>, sig: Seq<u8>) -> bool;

/// The SEC1 encoding of the public key derived from the 32 secret-key bytes,
/// as computed by `k256::ecdsa::VerifyingKey::from` and `to_sec1_bytes`.
pub uninterp spec fn pubkey_bytes_of(sk: Seq<u8>) -> Seq<u8>;

/// Whether signing a digest with these secret-key bytes succeeds: the bytes
/// parse with `SigningKey::from_slice` and `Signer::try_sign` returns a
/// signature. Deterministic ECDSA (RFC 6979, no added entropy) makes this a
/// function of the two arguments alone.
pub uninterp spec fn sign_ok(sk: Seq<u8>, digest: Seq<u8>) -> bool;

/// The 64-byte fixed encoding of the deterministic ECDSA signature over a
/// digest by these secret-key bytes, as `k256::ecdsa`'s `Signer::try_sign`
/// computes it under RFC 6979.
pub uninterp spec fn sig_of(sk: Seq<u8>, digest: Seq<u8>) -> Seq<u8>;

/// The pubkey-hash that locks P2PKH outputs: the SHA-256 digest of the
/// lossy string form of the SEC1 public-key bytes.
pub open spec fn pub_key_hash_of(pk: Seq<u8>) -> Seq<u8> {
    sha256_of(lossy_clean(pk))
}

/// Relies on `sha2::Sha256` (`Digest::update`, `Digest::finalize`): the
/// SHA-256 digest of `message`, always 32 bytes.
#[verifier::external_body]
pub fn sha256(message: &[u8]) -> (r: Vec<u8>)
    ensures
        r@ == sha256_of(message@),
        r@.len() == 32,
{
    let mut hasher = <sha2::Sha256 as sha2::Digest>::new();
    sha2::Digest::update(&mut hasher, message);
    sha2::Digest::finalize(hasher).to_vec()
}

/// Relies on `String::from_utf8_lossy`: the UTF-8 bytes of the lossy
/// decoding of `bytes`, a function of `bytes` alone.
#[verifier::external_body]
pub(crate) fn lossy_bytes(bytes: &[u8]) -> (r: Vec<u8>)
    ensures
        r@ == lossy_clean(bytes@),
{
    String::from_utf8_lossy(bytes).into_owned().into_bytes()
}

/// Relies on `k256::ecdsa::VerifyingKey::from_sec1_bytes`,
/// `k256::ecdsa::Signature::from_slice` and `Verifier::verify`: whether
/// `sig` is a valid signature over `digest` by the key encoded in `pk`;
/// a result that depends on the three arguments alone.
#[verifier::external_body]
pub(crate) fn verify_digest(pk: &[u8], digest: &[u8], sig: &[u8]) -> (r: bool)
    ensures
        r == sig_valid(pk@, digest@, sig@),
{
    let key = match k256::ecdsa::VerifyingKey::from_sec1_bytes(pk) {
        Ok(k) => k,
        Err(_) => return false,
    };
    let parsed = match k256::ecdsa::Signature::from_slice(sig) {
        Ok(s) => s,
        Err(_) => return false,
    };
    k256::ecdsa::signature::Verifier::verify(&key, digest, &parsed).is_ok()
}

/// Relies on `k256::ecdsa::SigningKey::from_slice` and `Signer::try_sign`:
/// the 64-byte fixed encoding of the RFC 6979 deterministic signature, or
/// `None` when the secret-key bytes do not parse or signing fails. Both the
/// success and the signature are functions of the two arguments alone.
#[verifier::external_body]
pub(crate) fn sign_digest(sk: &[u8], digest: &[u8]) -> (r: Option<Vec<u8>>)
    ensures
        r is Some <==> sign_ok(sk@, digest@),
        r matches Some(sig) ==> sig@ == sig_of(sk@, digest@) && sig@.len() == 64,
{
    let key = match k256::ecdsa::SigningKey::from_slice(sk) {
        Ok(k) => k,
        Err(_) => return None,
    };
    let sig: k256::ecdsa::Signature =
        match k256::ecdsa::signature::Signer::try_sign(&key, digest) {
            Ok(s) => s,
            Err(_) => return None,
        };
    Some(sig.to_vec())
}

/// Relies on `k256::ecdsa::SigningKey::random` over `rand_core::OsRng`,
/// `SigningKey::to_bytes`, `VerifyingKey::from` and `to_sec1_bytes`: a fresh
/// secret key of 32 bytes together with the SEC1 encoding of its public key.
/// Nothing is stated of the key bytes themselves, which are random.
#[verifier::external_body]
fn generate_keypair() -> (r: (Vec<u8>, Vec<u8>))
    ensures
        r.0@.len() == 32,
        r.1@ == pubkey_bytes_of(r.0@),
{
    let sk = k256::ecdsa::SigningKey::random(&mut rand_core::OsRng);
    let vk = k256::ecdsa::VerifyingKey::from(&sk);
    (sk.to_bytes().to_vec(), vk.to_sec1_bytes().to_vec())
}

/// Relies on `std::time::SystemTime::now` and `duration_since`: the seconds
/// of the UNIX timestamp now. The result depends on the clock, of which
/// nothing is stated.
#[verifier::external_body]
pub fn get_timestamp() -> u64 {
    std::time::SystemTime::now()
        .duration_since(std::time::UNIX_EPOCH)
        .map(|d| d.as_secs())
        .unwrap_or(0)
}

/// A key pair: the SEC1-encoded public key and the raw secret-key bytes.
pub struct User {
    pub public_key: Vec<u8>,
    pub private_key: Vec<u8>,
}

impl User {
    /// Generate a fresh key pair.
    pub fn new() -> (r: User)
        ensures
            r.public_key@ == pubkey_bytes_of(r.private_key@),
            r.private_key@.len() == 32,
    {
        let (sk, pk) = generate_keypair();
        User { public_key: pk, private_key: sk }
    }

    /// Sign the SHA-256 digest of `message` with the user's secret key.
    pub fn sign(&self, message: &[u8]) -> (r: Option<Vec<u8>>)
        ensures
            r is Some <==> sign_ok(self.private_key@, sha256_of(message@)),
            r matches Some(sig) ==> sig@ == sig_of(self.private_key@, sha256_of(message@))
                && sig@.len() == 64,
    {
        let digest = sha256(message);
        sign_digest(self.private_key.as_slice(), digest.as_slice())
    }

    /// The SEC1 bytes of the public key.
    pub fn get_pub_key(&self) -> (r: Vec<u8>)
        ensures
            r@ == self.public_key@,
    {
        clone_bytes(&self.public_key)
    }

    /// The pubkey-hash the user's P2PKH outputs are locked to.
    pub fn get_pub_key_hash(&self) -> (r: Vec<u8>)
        ensures
            r@ == pub_key_hash_of(self.public_key@),
            r@.len() == 32,
    {
        let lossy = lossy_bytes(self.public_key.as_slice());
        sha256(lossy.as_slice())
    }
}

/// Copy a byte vector.
pub fn clone_bytes(b: &Vec<u8>) -> (r: Vec<u8>)
    ensures
        r@ == b@,
{
    let mut out: Vec<u8> = Vec::new();
    let mut i: usize = 0;
    while i < b.len()
        invariant
            i <= b.len(),
            out@ == b@.take(i as int),
        decreases b.len() - i,
    {
        out.push(b[i]);
        i = i + 1;
        proof {
            assert(out@ =~= b@.take(i as int));
        }
    }
    proof {
        assert(b@.take(b@.len() as int) =~= b@);
    }
    out
}

} // verus!
