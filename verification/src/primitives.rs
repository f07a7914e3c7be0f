//! The cryptographic operations the library takes from outside crates.
use chacha20poly1305::aead::Aead;
use chacha20poly1305::{ChaCha20Poly1305, Key, KeyInit, Nonce};
use curve25519_elligator2::{MapToPointVariant, MontgomeryPoint, Randomized};
use rand::rngs::OsRng;
use rand::RngCore;
use subtle::ConstantTimeEq;
use vstd::prelude::*;
use x25519_dalek::{PublicKey, StaticSecret};
use zeroize::Zeroize;

verus! {

/// Why the operating system could not supply random bytes.
#[verifier::external_type_specification]
#[verifier::external_body]
pub struct ExRandomError(getrandom::Error);

/// The 32 bytes of `blake3::keyed_hash` for this key and input.
pub uninterp spec fn blake3_keyed(key: Seq<u8>, input: Seq<u8>) -> Seq<u8>;

/// `getrandom::getrandom` on a buffer of 32 bytes. The bytes are chosen by the
/// operating system, so nothing is claimed of them or of when the call fails.
#[verifier::external_body]
pub(crate) fn system_random() -> (r: Result<[u8; 32], getrandom::Error>) {
    let mut bytes = [0u8; 32];
    getrandom::getrandom(&mut bytes)?;
    Ok(bytes)
}

/// `blake3::keyed_hash`: the output is a function of the key and the input,
/// and 32 bytes long.
#[verifier::external_body]
pub(crate) fn keyed_hash(key: &[u8; 32], input: &[u8]) -> (h: [u8; 32])
    ensures
        h@ == blake3_keyed(key@, input@),
{
    blake3::keyed_hash(key, input).into()
}

/// `Zeroize::zeroize` on an array of bytes: every byte becomes zero.
#[verifier::external_body]
pub(crate) fn wipe(bytes: &mut [u8; 32])
    ensures
        final(bytes)@ == Seq::new(32, |i: int| 0u8),
    opens_invariants none
    no_unwind
{
    bytes.zeroize();
}

/// `Zeroize::zeroize` on a vector of bytes: every byte is overwritten and the
/// vector left empty.
#[verifier::external_body]
pub(crate) fn wipe_vec(bytes: &mut Vec<u8>)
    ensures
        final(bytes)@ == Seq::<u8>::empty(),
{
    bytes.zeroize();
}

/// The 32 bytes of `blake3::derive_key` for this context and key material.
pub uninterp spec fn blake3_derived(context: Seq<char>, material: Seq<u8>) -> Seq<u8>;

/// `blake3::derive_key`: the output is a function of the context string and the
/// key material, and 32 bytes long.
#[verifier::external_body]
pub(crate) fn derive_key(context: &str, material: &[u8]) -> (k: [u8; 32])
    ensures
        k@ == blake3_derived(context@, material@),
{
    blake3::derive_key(context, material)
}

/// Equality of `blake3::Hash` values: whether all bytes agree, in constant
/// time.
#[verifier::external_body]
pub(crate) fn hash_equal(a: &[u8; 32], b: &[u8; 32]) -> (r: bool)
    ensures
        r == (a@ == b@),
{
    blake3::Hash::from_bytes(*a) == blake3::Hash::from_bytes(*b)
}

/// `subtle::ConstantTimeEq` on byte slices: whether length and all bytes agree,
/// in time that does not depend on the bytes.
#[verifier::external_body]
pub(crate) fn constant_time_equal(a: &[u8], b: &[u8]) -> (r: bool)
    ensures
        r == (a@ == b@),
{
    a.ct_eq(b).into()
}

/// `OsRng::next_u32`: 32 bits chosen by the operating system, of which nothing
/// is claimed. The call panics where the operating system has none to give.
#[verifier::external_body]
pub(crate) fn system_word() -> (w: u32) {
    OsRng.next_u32()
}

/// `OsRng::fill_bytes` on a buffer of `len` bytes. The bytes are chosen by the
/// operating system; only their number is claimed. The call panics where the
/// operating system has none to give.
#[verifier::external_body]
pub(crate) fn system_bytes(len: usize) -> (bytes: Vec<u8>)
    ensures
        bytes@.len() == len,
{
    let mut bytes: Vec<u8> = vec![0u8; len];
    OsRng.fill_bytes(&mut bytes);
    bytes
}

/// `StaticSecret::random_from_rng` over the operating system's generator: a
/// secret of which nothing is claimed.
#[verifier::external_body]
pub(crate) fn random_secret() -> (s: [u8; 32]) {
    StaticSecret::random_from_rng(OsRng).to_bytes()
}

/// The X25519 public key of a secret.
pub uninterp spec fn x25519_public(secret: Seq<u8>) -> Seq<u8>;

/// `PublicKey::from` on a `StaticSecret`: the public key is a function of the
/// secret bytes, and 32 bytes long.
#[verifier::external_body]
pub(crate) fn public_key(secret: &[u8; 32]) -> (p: [u8; 32])
    ensures
        p@ == x25519_public(secret@),
{
    PublicKey::from(&StaticSecret::from(*secret)).to_bytes()
}

/// The Elligator2 representative (variant `Randomized`) of a secret's public
/// key, where it has one.
pub uninterp spec fn representative_of(secret: Seq<u8>, tweak: u8) -> Option<Seq<u8>>;

/// `Randomized::to_representative`: whether there is a representative, and
/// which, is a function of the secret and the tweak. A representative decodes.
#[verifier::external_body]
pub(crate) fn to_representative(secret: &[u8; 32], tweak: u8) -> (r: Option<[u8; 32]>)
    ensures
        match r {
            Some(repr) => representative_of(secret@, tweak) == Some(repr@) && decoded_point(repr@)
                is Some,
            None => representative_of(secret@, tweak) is None,
        },
{
    Randomized::to_representative(secret, tweak).into()
}

/// The curve point that a representative decodes to, where it decodes.
pub uninterp spec fn decoded_point(repr: Seq<u8>) -> Option<Seq<u8>>;

/// `MontgomeryPoint::from_representative` (variant `Randomized`): whether the
/// representative decodes, and to which point, is a function of its bytes.
#[verifier::external_body]
pub(crate) fn from_representative(repr: &[u8; 32]) -> (p: Option<[u8; 32]>)
    ensures
        match p {
            Some(point) => decoded_point(repr@) == Some(point@),
            None => decoded_point(repr@) is None,
        },
{
    MontgomeryPoint::from_representative::<Randomized>(repr).map(|m| m.0)
}

/// The product of a point with a clamped scalar.
pub uninterp spec fn clamped_product(point: Seq<u8>, scalar: Seq<u8>) -> Seq<u8>;

/// Whether `point` is a public key of `secret`: its X25519 public key, or what
/// a representative of it decodes to.
pub open spec fn is_public_of(point: Seq<u8>, secret: Seq<u8>) -> bool {
    ||| point == x25519_public(secret)
    ||| exists|tweak: u8|
        #[trigger] representative_of(secret, tweak) is Some && decoded_point(
            representative_of(secret, tweak)->Some_0,
        ) == Some(point)
}

/// `MontgomeryPoint::mul_clamped`: the X25519 function. The product is a
/// function of the point and the scalar. It is symmetric: where the point is a
/// public key of some secret, that secret with any public key of the scalar
/// gives the same product, which is what makes it a key agreement.
#[verifier::external_body]
pub(crate) fn multiply_clamped(point: &[u8; 32], scalar: &[u8; 32]) -> (out: [u8; 32])
    ensures
        out@ == clamped_product(point@, scalar@),
        forall|own: Seq<u8>, secret: Seq<u8>|
            #![trigger clamped_product(own, secret)]
            is_public_of(point@, secret) && is_public_of(own, scalar@) ==> out@
                == clamped_product(own, secret),
{
    MontgomeryPoint(*point).mul_clamped(*scalar).0
}

/// Longest plaintext that can be encrypted: 64 bytes for each of the 2^32 - 2
/// blocks of the key stream that come after the one for the tag.
pub const MAX_PLAINTEXT: u64 = 274_877_906_816;

/// The ChaCha20-Poly1305 ciphertext, tag included, with no associated data.
pub uninterp spec fn aead_sealed(key: Seq<u8>, nonce: Seq<u8>, plain: Seq<u8>) -> Seq<u8>;

/// The plaintext of a ChaCha20-Poly1305 ciphertext with no associated data,
/// where its tag verifies.
pub uninterp spec fn aead_opened(key: Seq<u8>, nonce: Seq<u8>, sealed: Seq<u8>) -> Option<Seq<u8>>;

/// `Aead::encrypt` of `ChaCha20Poly1305`. The ciphertext is a function of key,
/// nonce and plaintext, 16 bytes longer than the plaintext, and opens to it
/// under the same key and nonce. On a plaintext longer than the key stream the
/// call fails or panics.
#[verifier::external_body]
pub(crate) fn aead_seal(key: &[u8; 32], nonce: &[u8; 12], plain: &[u8]) -> (sealed: Vec<u8>)
    requires
        plain@.len() <= MAX_PLAINTEXT,
    ensures
        sealed@ == aead_sealed(key@, nonce@, plain@),
        sealed@.len() == plain@.len() + 16,
        aead_opened(key@, nonce@, sealed@) == Some(plain@),
{
    let cipher = ChaCha20Poly1305::new(Key::from_slice(key));
    cipher.encrypt(Nonce::from_slice(nonce), plain).expect("plaintext is in range")
}

/// `Aead::decrypt` of `ChaCha20Poly1305`. Whether the ciphertext opens, and to
/// which plaintext, is a function of key, nonce and ciphertext; a plaintext is
/// 16 bytes shorter than its ciphertext. On a plaintext longer than the key
/// stream the call may panic.
#[verifier::external_body]
pub(crate) fn aead_open(key: &[u8; 32], nonce: &[u8; 12], sealed: &[u8]) -> (plain: Option<Vec<u8>>)
    requires
        sealed@.len() <= MAX_PLAINTEXT + 16,
    ensures
        match plain {
            Some(p) => aead_opened(key@, nonce@, sealed@) == Some(p@) && p@.len() + 16
                == sealed@.len(),
            None => aead_opened(key@, nonce@, sealed@) is None,
        },
{
    let cipher = ChaCha20Poly1305::new(Key::from_slice(key));
    cipher.decrypt(Nonce::from_slice(nonce), sealed).ok()
}

} // verus!
