//! The session handshake and the frame cipher.
//!
//! Each side sends an Elligator2 representative of an ephemeral key, random
//! padding, a MARK by which the other side finds the end of the padding, and a
//! MAC that binds the message to the hour. MARK and MAC are keyed by the
//! server's identity, so that a peer who does not know it gets no answer at
//! all. The session keys come from the two Diffie-Hellman products and the
//! representatives as they travelled.
use crate::primitives::{
    aead_open, aead_opened, aead_seal, aead_sealed, blake3_derived, blake3_keyed, derive_key,
    keyed_hash, public_key, random_secret, wipe, wipe_vec, x25519_public, MAX_PLAINTEXT,
};
use crate::text::{chars_of, digit, is_space, lemma_trimmed_keeps, text_of, trim, trimmed};
use vstd::bytes::*;
use vstd::prelude::*;
use vstd::string::*;

verus! {

/// Bytes in a representative.
pub const PUBKEY_LEN: usize = 32;

/// Bytes in the server's authentication tag.
pub const AUTH_LEN: usize = 32;

/// Attempts to find a secret that has a representative.
pub const ELLIGATOR_RETRY_LIMIT: usize = 64;

/// Bytes in a MARK.
pub const MARK_LEN: usize = 16;

/// Bytes in a MAC.
pub const MAC_LEN: usize = 16;

/// Bytes after which a message without a MARK is given up.
pub const MAX_HANDSHAKE_LEN: usize = 8192;

/// Most random padding in a handshake message.
pub const HS_MAX_PAD: usize = 2048;

/// Bytes in a frame's kind.
pub const KIND_LEN: usize = 1;

/// Bytes in a frame's tag.
pub const TAG_LEN: usize = 16;

/// Kind of a frame that carries a payload.
pub const KIND_REAL: u8 = 1;

/// Kind of a frame that is cover.
pub const KIND_DUMMY: u8 = 2;

/// Why the transport could not read or write.
#[verifier::external_type_specification]
#[verifier::external_body]
pub struct ExIoError(std::io::Error);

/// Why a handshake failed.
#[derive(Debug)]
pub enum HandshakeError {
    Io(std::io::Error),
    Closed,
    NonContributory,
    BadServerAuth,
    ProbeRejected,
}

impl HandshakeError {
    /// Whether `text` describes this error.
    pub open spec fn described_by(self, text: Seq<char>) -> bool {
        match self {
            HandshakeError::Io(e) => exists|shown: String|
                #[trigger] to_string_from_display_ensures::<std::io::Error>(&e, shown) && text
                    == "handshake I/O error: "@ + shown@,
            HandshakeError::Closed => text == "peer closed during handshake"@,
            HandshakeError::NonContributory => text
                == "handshake produced a non-contributory shared secret"@,
            HandshakeError::BadServerAuth => text
                == "server authentication failed (wrong key or MITM)"@,
            HandshakeError::ProbeRejected => text
                == "handshake MARK/MAC did not validate (likely active probe)"@,
        }
    }

    /// The error in words.
    pub fn message(&self) -> (s: String)
        ensures
            self.described_by(s@),
    {
        match self {
            HandshakeError::Io(e) => {
                let shown = e.to_string();
                let mut s = String::from_str("handshake I/O error: ");
                s.append(shown.as_str());
                s
            },
            HandshakeError::Closed => String::from_str("peer closed during handshake"),
            HandshakeError::NonContributory => String::from_str(
                "handshake produced a non-contributory shared secret",
            ),
            HandshakeError::BadServerAuth => String::from_str(
                "server authentication failed (wrong key or MITM)",
            ),
            HandshakeError::ProbeRejected => String::from_str(
                "handshake MARK/MAC did not validate (likely active probe)",
            ),
        }
    }
}

impl From<std::io::Error> for HandshakeError {
    fn from(e: std::io::Error) -> (r: HandshakeError) {
        HandshakeError::Io(e)
    }
}

impl vstd::std_specs::convert::FromSpecImpl<std::io::Error> for HandshakeError {
    open spec fn obeys_from_spec() -> bool {
        true
    }

    open spec fn from_spec(e: std::io::Error) -> HandshakeError {
        HandshakeError::Io(e)
    }
}

/// Bytes on the wire of a frame whose cell has so many bytes.
pub open spec fn frame_len(cell_bytes: nat) -> nat {
    KIND_LEN as nat + cell_bytes + TAG_LEN as nat
}

/// Bytes on the wire of a frame whose cell has `cell_bytes` bytes.
pub fn enc_frame_len(cell_bytes: usize) -> (n: usize)
    requires
        cell_bytes + KIND_LEN + TAG_LEN <= usize::MAX,
    ensures
        n == frame_len(cell_bytes as nat),
{
    KIND_LEN + cell_bytes + TAG_LEN
}

/// The server's long-term identity.
pub struct StaticKeypair {
    secret: [u8; 32],
    public: [u8; 32],
}

impl StaticKeypair {
    /// The secret scalar.
    pub closed spec fn secret_key(&self) -> Seq<u8> {
        self.secret@
    }

    /// The public key.
    pub closed spec fn public_key(&self) -> Seq<u8> {
        self.public@
    }

    /// The public key belongs to the secret.
    pub open spec fn wf(&self) -> bool {
        self.public_key() == x25519_public(self.secret_key())
    }

    /// A fresh random identity.
    pub fn generate() -> (kp: StaticKeypair)
        ensures
            kp.wf(),
    {
        Self::from_secret_bytes(random_secret())
    }

    /// The identity with this secret.
    pub fn from_secret_bytes(bytes: [u8; 32]) -> (kp: StaticKeypair)
        ensures
            kp.wf(),
            kp.secret_key() == bytes@,
            kp.public_key() == x25519_public(bytes@),
    {
        let public = public_key(&bytes);
        StaticKeypair { secret: bytes, public }
    }

    /// The public key, which clients are configured with.
    pub fn public_bytes(&self) -> (b: [u8; 32])
        ensures
            b@ == self.public_key(),
    {
        self.public
    }

    /// The secret, for keeping the identity.
    pub fn secret_bytes(&self) -> (b: [u8; 32])
        ensures
            b@ == self.secret_key(),
    {
        self.secret
    }
}

impl Drop for StaticKeypair {
    fn drop(&mut self)
        opens_invariants none
        no_unwind
    {
        wipe(&mut self.secret);
    }
}

/// The value of a hexadecimal digit, upper or lower case.
pub open spec fn hex_value(c: char) -> Option<u8> {
    let n = c as u32;
    if 48 <= n <= 57 {
        Some((n - 48) as u8)
    } else if 97 <= n <= 102 {
        Some((n - 87) as u8)
    } else if 65 <= n <= 70 {
        Some((n - 55) as u8)
    } else {
        None
    }
}

/// The lower-case hexadecimal digit for `d`.
pub open spec fn hex_digit(d: nat) -> char {
    if d < 10 {
        digit(d)
    } else if d == 10 {
        'a'
    } else if d == 11 {
        'b'
    } else if d == 12 {
        'c'
    } else if d == 13 {
        'd'
    } else if d == 14 {
        'e'
    } else {
        'f'
    }
}

/// A key in hexadecimal: two lower-case digits a byte.
pub open spec fn key_hex(key: Seq<u8>) -> Seq<char> {
    Seq::new(
        2 * key.len(),
        |i: int|
            hex_digit(
                if i % 2 == 0 {
                    key[i / 2] as nat / 16
                } else {
                    key[i / 2] as nat % 16
                },
            ),
    )
}

/// The lower-case hexadecimal digit for `d`.
fn to_hex_digit(d: u8) -> (c: char)
    requires
        d < 16,
    ensures
        c == hex_digit(d as nat),
{
    match d {
        0 => '0',
        1 => '1',
        2 => '2',
        3 => '3',
        4 => '4',
        5 => '5',
        6 => '6',
        7 => '7',
        8 => '8',
        9 => '9',
        10 => 'a',
        11 => 'b',
        12 => 'c',
        13 => 'd',
        14 => 'e',
        _ => 'f',
    }
}

/// The value of a hexadecimal digit.
pub fn from_hex_digit(c: char) -> (v: Option<u8>)
    ensures
        v == hex_value(c),
        v is Some ==> v->Some_0 < 16,
{
    let n: u32 = c as u32;
    if 48 <= n && n <= 57 {
        Some((n - 48) as u8)
    } else if 97 <= n && n <= 102 {
        Some((n - 87) as u8)
    } else if 65 <= n && n <= 70 {
        Some((n - 55) as u8)
    } else {
        None
    }
}

/// A key in hexadecimal: 64 lower-case digits.
pub fn key_to_hex(bytes: &[u8; 32]) -> (s: String)
    ensures
        s@ == key_hex(bytes@),
{
    let mut chars: Vec<char> = Vec::new();
    let mut i: usize = 0;
    while i < 32
        invariant
            i <= 32,
            chars@ == key_hex(bytes@).take(2 * i),
        decreases 32 - i,
    {
        let b: u8 = bytes[i];
        chars.push(to_hex_digit(b / 16));
        chars.push(to_hex_digit(b % 16));
        i = i + 1;
        assert((2 * i - 2) / 2 == i - 1 && (2 * i - 1) / 2 == i - 1);
        assert(chars@ =~= key_hex(bytes@).take(2 * i));
    }
    assert(key_hex(bytes@).take(64) =~= key_hex(bytes@));
    text_of(chars.as_slice())
}

/// Whether `s` is 64 hexadecimal digits.
pub open spec fn is_key_hex(s: Seq<char>) -> bool {
    s.len() == 64 && forall|i: int| 0 <= i < 64 ==> hex_value(#[trigger] s[i]) is Some
}

/// The key that 64 hexadecimal digits write.
pub open spec fn key_of_hex(s: Seq<char>) -> Seq<u8> {
    Seq::new(
        32,
        |i: int|
            (hex_value(s[2 * i])->Some_0 * 16 + hex_value(s[2 * i + 1])->Some_0) as u8,
    )
}

/// The key written as 64 hexadecimal digits, white space around them aside.
pub fn key_from_hex(s: &str) -> (r: Option<[u8; 32]>)
    ensures
        match r {
            Some(key) => is_key_hex(trimmed(s@)) && key@ == key_of_hex(trimmed(s@)),
            None => !is_key_hex(trimmed(s@)),
        },
{
    let chars = chars_of(s);
    let digits = trim(chars.as_slice());
    key_from_digits(digits.as_slice())
}

/// The key written as exactly 64 hexadecimal digits.
pub fn key_from_digits(digits: &[char]) -> (r: Option<[u8; 32]>)
    ensures
        match r {
            Some(key) => is_key_hex(digits@) && key@ == key_of_hex(digits@),
            None => !is_key_hex(digits@),
        },
{
    if digits.len() != 64 {
        return None;
    }
    let mut out = [0u8; 32];
    let mut i: usize = 0;
    while i < 32
        invariant
            i <= 32,
            digits@.len() == 64,
            forall|j: int| 0 <= j < 2 * i ==> hex_value(#[trigger] digits@[j]) is Some,
            forall|j: int| 0 <= j < i ==> out@[j] == key_of_hex(digits@)[j],
        decreases 32 - i,
    {
        let high: u8 = match from_hex_digit(digits[2 * i]) {
            Some(v) => v,
            None => {
                assert(hex_value(digits@[2 * i]) is None);
                return None;
            },
        };
        let low: u8 = match from_hex_digit(digits[2 * i + 1]) {
            Some(v) => v,
            None => {
                assert(hex_value(digits@[2 * i + 1]) is None);
                return None;
            },
        };
        out[i] = high * 16 + low;
        i = i + 1;
    }
    assert(out@ =~= key_of_hex(digits@));
    Some(out)
}

/// A key survives being written in hexadecimal and read back.
pub proof fn law_hex_keys_read_back(key: Seq<u8>)
    requires
        key.len() == 32,
    ensures
        is_key_hex(trimmed(key_hex(key))),
        key_of_hex(trimmed(key_hex(key))) == key,
{
    let s = key_hex(key);
    assert forall|d: nat| d < 16 implies hex_value(#[trigger] hex_digit(d)) == Some(d as u8)
        && !is_space(hex_digit(d)) by {}
    assert forall|i: int| 0 <= i < 64 implies hex_value(#[trigger] s[i]) is Some && !is_space(s[i]) by {
        let d = if i % 2 == 0 {
            key[i / 2] as nat / 16
        } else {
            key[i / 2] as nat % 16
        };
        assert(d < 16);
        assert(s[i] == hex_digit(d));
    }
    lemma_trimmed_keeps(s);
    assert forall|i: int| 0 <= i < 32 implies key_of_hex(s)[i] == key[i] by {
        let high = key[i] as nat / 16;
        let low = key[i] as nat % 16;
        assert((2 * i) / 2 == i && (2 * i + 1) / 2 == i);
        assert(s[2 * i] == hex_digit(high));
        assert(s[2 * i + 1] == hex_digit(low));
        assert(hex_value(hex_digit(high)) == Some(high as u8));
        assert(hex_value(hex_digit(low)) == Some(low as u8));
        assert(high * 16 + low == key[i]);
    }
    assert(key_of_hex(s) =~= key);
}

/// What a frame cipher depends on.
pub struct CipherState {
    pub key: Seq<u8>,
    pub counter: u64,
}

/// The nonce of frame number `counter`: four zero bytes and the number, least
/// significant byte first.
pub open spec fn nonce_of(counter: u64) -> Seq<u8> {
    seq![0u8, 0u8, 0u8, 0u8] + spec_u64_to_le_bytes(counter)
}

impl CipherState {
    /// The cipher after one frame.
    pub open spec fn next(self) -> CipherState {
        CipherState {
            key: self.key,
            counter: if self.counter == u64::MAX {
                0
            } else {
                (self.counter + 1) as u64
            },
        }
    }

    /// The next frame with this kind and cell. The kind is part of what is
    /// encrypted.
    pub open spec fn sealed(self, kind: u8, cell: Seq<u8>) -> Seq<u8> {
        Seq::new(
            frame_len(cell.len()),
            |i: int| aead_sealed(self.key, nonce_of(self.counter), seq![kind] + cell)[i],
        )
    }

    /// The kind and the cell of a frame, where it is the next frame. What is
    /// longer than any frame is none.
    pub open spec fn opened(self, frame: Seq<u8>) -> Option<(u8, Seq<u8>)> {
        if frame.len() > MAX_PLAINTEXT + TAG_LEN {
            None
        } else {
            match aead_opened(self.key, nonce_of(self.counter), frame) {
                Some(plain) => if plain.len() >= KIND_LEN {
                    Some((plain[0], plain.skip(KIND_LEN as int)))
                } else {
                    None
                },
                None => None,
            }
        }
    }

    /// Whether `frame` is the next frame with this kind and cell, and opens to
    /// them.
    pub open spec fn seals(self, kind: u8, cell: Seq<u8>, frame: Seq<u8>) -> bool {
        &&& frame == self.sealed(kind, cell)
        &&& self.opened(frame) == Some((kind, cell))
    }

    /// The cipher after `n` frames.
    pub open spec fn after(self, n: nat) -> CipherState
        decreases n,
    {
        if n == 0 {
            self
        } else {
            self.after((n - 1) as nat).next()
        }
    }

    /// Whether these are the frames that come of sealing `sent`, one after the
    /// other.
    pub open spec fn seals_all(self, sent: Seq<(u8, Seq<u8>)>, frames: Seq<Seq<u8>>) -> bool {
        &&& frames.len() == sent.len()
        &&& forall|i: int|
            0 <= i < sent.len() ==> self.after(i as nat).seals(
                sent[i].0,
                sent[i].1,
                #[trigger] frames[i],
            )
    }

    /// What comes of opening frames one after the other, and the cipher after
    /// them. A frame that does not open counts like any other.
    pub open spec fn opened_all(self, frames: Seq<Seq<u8>>) -> (
        Seq<Option<(u8, Seq<u8>)>>,
        CipherState,
    )
        decreases frames.len(),
    {
        if frames.len() == 0 {
            (Seq::empty(), self)
        } else {
            let (before, cipher) = self.opened_all(frames.drop_last());
            (before.push(cipher.opened(frames.last())), cipher.next())
        }
    }
}

/// Each frame is opened by the cipher of its place.
proof fn lemma_opened_all(cipher: CipherState, frames: Seq<Seq<u8>>)
    ensures
        cipher.opened_all(frames).0.len() == frames.len(),
        cipher.opened_all(frames).1 == cipher.after(frames.len()),
        forall|i: int|
            0 <= i < frames.len() ==> #[trigger] cipher.opened_all(frames).0[i] == cipher.after(
                i as nat,
            ).opened(frames[i]),
    decreases frames.len(),
{
    if frames.len() > 0 {
        lemma_opened_all(cipher, frames.drop_last());
    }
}

/// Two ciphers of one key stay in step: of the frames that one seals and the
/// other opens in order, every frame that arrives as it was sent opens to its
/// kind and its cell, whatever became of the others. A frame that does not open
/// counts too, so those after it still open.
pub proof fn law_ciphers_stay_in_step(
    key: Seq<u8>,
    sent: Seq<(u8, Seq<u8>)>,
    frames: Seq<Seq<u8>>,
    received: Seq<Seq<u8>>,
)
    requires
        (CipherState { key, counter: 0 }).seals_all(sent, frames),
        received.len() == frames.len(),
    ensures
        ({
            let fresh = CipherState { key, counter: 0 };
            let (opened, after) = fresh.opened_all(received);
            &&& opened.len() == sent.len()
            &&& after == fresh.after(sent.len())
            &&& forall|i: int|
                0 <= i < sent.len() && received[i] == frames[i] ==> #[trigger] opened[i] == Some(
                    sent[i],
                )
        }),
{
    let fresh = CipherState { key, counter: 0 };
    lemma_opened_all(fresh, received);
    assert forall|i: int| 0 <= i < sent.len() && received[i] == frames[i] implies #[trigger] fresh.opened_all(
        received,
    ).0[i] == Some(sent[i]) by {
        assert(fresh.after(i as nat).seals(sent[i].0, sent[i].1, frames[i]));
    }
}

/// Real frames and cover look alike on the wire: the length of a frame is that
/// of its cell and 17 bytes more, whatever its kind and wherever it stands.
pub proof fn law_real_and_dummy_frames_are_the_same_size(
    a: CipherState,
    b: CipherState,
    cell_a: Seq<u8>,
    cell_b: Seq<u8>,
)
    requires
        cell_a.len() == cell_b.len(),
    ensures
        a.sealed(KIND_REAL, cell_a).len() == b.sealed(KIND_DUMMY, cell_b).len(),
        a.sealed(KIND_REAL, cell_a).len() == frame_len(cell_a.len()),
        frame_len(cell_a.len()) == cell_a.len() + 17,
{
}

/// No nonce is used twice before the counter wraps around.
pub proof fn law_nonces_differ(a: u64, b: u64)
    requires
        nonce_of(a) == nonce_of(b),
    ensures
        a == b,
{
    lemma_auto_spec_u64_to_from_le_bytes();
    let zeros = seq![0u8, 0u8, 0u8, 0u8];
    assert(nonce_of(a).skip(4) =~= spec_u64_to_le_bytes(a));
    assert(nonce_of(b).skip(4) =~= spec_u64_to_le_bytes(b));
}

/// Encrypts or decrypts the frames of one direction, each under its own nonce.
pub struct FrameCipher {
    key: [u8; 32],
    counter: u64,
}

impl View for FrameCipher {
    type V = CipherState;

    closed spec fn view(&self) -> CipherState {
        CipherState { key: self.key@, counter: self.counter }
    }
}

impl Drop for FrameCipher {
    fn drop(&mut self)
        opens_invariants none
        no_unwind
    {
        wipe(&mut self.key);
    }
}

impl FrameCipher {
    /// The cipher under this key, at its first frame.
    pub fn new(key: [u8; 32]) -> (c: FrameCipher)
        ensures
            c@ == (CipherState { key: key@, counter: 0 }),
    {
        FrameCipher { key, counter: 0 }
    }

    fn next_nonce(&mut self) -> (n: [u8; 12])
        ensures
            n@ == nonce_of(old(self)@.counter),
            final(self)@ == old(self)@.next(),
    {
        let le = u64_to_le_bytes(self.counter);
        let mut n = [0u8; 12];
        let mut i: usize = 0;
        while i < 8
            invariant
                i <= 8,
                le@.len() == 8,
                forall|j: int| 0 <= j < 4 ==> n@[j] == 0,
                forall|j: int| 0 <= j < i ==> #[trigger] n@[4 + j] == le@[j],
            decreases 8 - i,
        {
            n[4 + i] = le[i];
            i = i + 1;
        }
        assert forall|j: int| 4 <= j < 12 implies n@[j] == le@[j - 4] by {
            assert(n@[4 + (j - 4)] == le@[j - 4]);
        }
        assert(n@ =~= nonce_of(self.counter));
        self.counter = self.counter.wrapping_add(1);
        n
    }

    /// Encrypts a kind and a cell into the next frame. A cipher in the same
    /// state opens the frame to the same kind and cell.
    pub fn seal(&mut self, kind: u8, cell: &[u8]) -> (frame: Vec<u8>)
        requires
            cell@.len() + KIND_LEN <= MAX_PLAINTEXT,
        ensures
            old(self)@.seals(kind, cell@, frame@),
            frame@.len() == frame_len(cell@.len()),
            final(self)@ == old(self)@.next(),
    {
        let mut plain: Vec<u8> = Vec::new();
        plain.push(kind);
        plain.extend_from_slice(cell);
        let ghost state = self@;
        assert(plain@ =~= seq![kind] + cell@);
        assert(plain@.skip(KIND_LEN as int) =~= cell@);
        let nonce = self.next_nonce();
        let frame = aead_seal(&self.key, &nonce, plain.as_slice());
        assert(frame@ =~= state.sealed(kind, cell@));
        wipe_vec(&mut plain);
        frame
    }

    /// Decrypts the next frame. A frame that was not sealed as this one is
    /// refused.
    pub fn open(&mut self, frame: &[u8]) -> (r: Result<(u8, Vec<u8>), HandshakeError>)
        ensures
            match r {
                Ok((kind, cell)) => old(self)@.opened(frame@) == Some((kind, cell@)),
                Err(e) => old(self)@.opened(frame@) is None && e == HandshakeError::BadServerAuth,
            },
            final(self)@ == old(self)@.next(),
    {
        let ghost state = self@;
        let nonce = self.next_nonce();
        if frame.len() as u128 > MAX_PLAINTEXT as u128 + TAG_LEN as u128 {
            return Err(HandshakeError::BadServerAuth);
        }
        let mut plain = match aead_open(&self.key, &nonce, frame) {
            Some(plain) => plain,
            None => {
                return Err(HandshakeError::BadServerAuth);
            },
        };
        if plain.len() < KIND_LEN {
            wipe_vec(&mut plain);
            return Err(HandshakeError::BadServerAuth);
        }
        let kind: u8 = plain[0];
        let mut cell: Vec<u8> = Vec::new();
        let mut i: usize = KIND_LEN;
        while i < plain.len()
            invariant
                KIND_LEN <= i <= plain@.len(),
                cell@ == plain@.subrange(KIND_LEN as int, i as int),
            decreases plain@.len() - i,
        {
            cell.push(plain[i]);
            i = i + 1;
            assert(cell@ =~= plain@.subrange(KIND_LEN as int, i as int));
        }
        assert(cell@ =~= plain@.skip(KIND_LEN as int));
        wipe_vec(&mut plain);
        Ok((kind, cell))
    }
}

/// What is hashed into the session's key seed: both products, the server's
/// identity, both representatives and the protocol's name.
pub open spec fn secret_input(
    dh1: Seq<u8>,
    dh2: Seq<u8>,
    b_pub: Seq<u8>,
    x_repr: Seq<u8>,
    y_repr: Seq<u8>,
) -> Seq<u8> {
    dh1 + dh2 + b_pub + x_repr + y_repr + "mixtor-ntor-v1".spec_bytes()
}

/// The session's key seed.
pub open spec fn key_seed(
    dh1: Seq<u8>,
    dh2: Seq<u8>,
    b_pub: Seq<u8>,
    x_repr: Seq<u8>,
    y_repr: Seq<u8>,
) -> Seq<u8> {
    blake3_derived("mixtor-ntor-v1:key_extract"@, secret_input(dh1, dh2, b_pub, x_repr, y_repr))
}

/// What both sides derive: the key for each direction, and the tag by which the
/// server shows that it holds its identity's secret.
pub struct SessionKeys {
    pub client_to_server: Seq<u8>,
    pub server_to_client: Seq<u8>,
    pub auth: Seq<u8>,
}

/// What follows from the two products and the transcript.
pub open spec fn session_keys(
    dh1: Seq<u8>,
    dh2: Seq<u8>,
    b_pub: Seq<u8>,
    x_repr: Seq<u8>,
    y_repr: Seq<u8>,
) -> SessionKeys {
    let seed = key_seed(dh1, dh2, b_pub, x_repr, y_repr);
    SessionKeys {
        client_to_server: blake3_derived("mixtor-ntor-v1:c2s"@, seed),
        server_to_client: blake3_derived("mixtor-ntor-v1:s2c"@, seed),
        auth: blake3_keyed(
            seed,
            "mixtor-ntor-v1:server-auth".spec_bytes() + b_pub + x_repr + y_repr,
        ),
    }
}

/// Derives the keys for the direction to the server, the direction to the
/// client, and the server's tag.
pub fn derive_session(
    dh1: &[u8; 32],
    dh2: &[u8; 32],
    b_pub: &[u8; 32],
    x_repr: &[u8; 32],
    y_repr: &[u8; 32],
) -> (r: ([u8; 32], [u8; 32], [u8; 32]))
    ensures
        ({
            let keys = session_keys(dh1@, dh2@, b_pub@, x_repr@, y_repr@);
            r.0@ == keys.client_to_server && r.1@ == keys.server_to_client && r.2@ == keys.auth
        }),
{
    let mut input: Vec<u8> = Vec::new();
    input.extend_from_slice(dh1.as_slice());
    input.extend_from_slice(dh2.as_slice());
    input.extend_from_slice(b_pub.as_slice());
    input.extend_from_slice(x_repr.as_slice());
    input.extend_from_slice(y_repr.as_slice());
    input.extend_from_slice("mixtor-ntor-v1".as_bytes());
    assert(input@ =~= secret_input(dh1@, dh2@, b_pub@, x_repr@, y_repr@));
    let mut seed = derive_key("mixtor-ntor-v1:key_extract", input.as_slice());
    wipe_vec(&mut input);
    let c2s = derive_key("mixtor-ntor-v1:c2s", seed.as_slice());
    let s2c = derive_key("mixtor-ntor-v1:s2c", seed.as_slice());
    let mut transcript: Vec<u8> = Vec::new();
    transcript.extend_from_slice("mixtor-ntor-v1:server-auth".as_bytes());
    transcript.extend_from_slice(b_pub.as_slice());
    transcript.extend_from_slice(x_repr.as_slice());
    transcript.extend_from_slice(y_repr.as_slice());
    assert(transcript@ =~= "mixtor-ntor-v1:server-auth".spec_bytes() + b_pub@ + x_repr@ + y_repr@);
    let auth = keyed_hash(&seed, transcript.as_slice());
    wipe(&mut seed);
    (c2s, s2c, auth)
}

/// Hexadecimal digits have their usual values: the ten decimal digits, and the
/// letters from a to f, small or capital, for ten to fifteen. They are written
/// with small letters.
pub proof fn law_hex_digits_have_their_value(c: char, d: nat)
    requires
        d < 16,
    ensures
        hex_value(c) == Some(d as u8) <==> c as u32 == if d < 10 {
            48 + d
        } else {
            87 + d
        } || (d >= 10 && c as u32 == 55 + d),
        hex_digit(d) as u32 == if d < 10 {
            48 + d
        } else {
            87 + d
        },
{
}

/// Keys are written byte by byte, in order: what two parts write together is what
/// the first writes and then what the second writes, and a byte writes the digit
/// of its higher half and then that of its lower half.
pub proof fn law_keys_are_written_in_order(a: Seq<u8>, b: Seq<u8>, byte: u8)
    ensures
        key_hex(a + b) == key_hex(a) + key_hex(b),
        key_hex(seq![byte]) == seq![hex_digit(byte as nat / 16), hex_digit(byte as nat % 16)],
{
    let s = a + b;
    assert forall|i: int| 0 <= i < 2 * s.len() implies key_hex(s)[i] == (key_hex(a) + key_hex(b))[i] by {
        if i >= 2 * a.len() {
            assert((i - 2 * a.len()) / 2 == i / 2 - a.len());
            assert((i - 2 * a.len()) % 2 == i % 2);
        }
    }
    assert(key_hex(s) =~= key_hex(a) + key_hex(b));
    assert(key_hex(seq![byte]) =~= seq![
        hex_digit(byte as nat / 16),
        hex_digit(byte as nat % 16),
    ]);
}

/// The key seed is bound to everything that the two sides agree on: it is derived
/// from a text from which both products, the server's identity and both
/// representatives can be told.
pub proof fn law_key_seeds_are_bound_to_the_transcript(
    a: (Seq<u8>, Seq<u8>, Seq<u8>, Seq<u8>, Seq<u8>),
    b: (Seq<u8>, Seq<u8>, Seq<u8>, Seq<u8>, Seq<u8>),
)
    requires
        a.0.len() == 32 && a.1.len() == 32 && a.2.len() == 32 && a.3.len() == 32 && a.4.len() == 32,
        b.0.len() == 32 && b.1.len() == 32 && b.2.len() == 32 && b.3.len() == 32 && b.4.len() == 32,
        secret_input(a.0, a.1, a.2, a.3, a.4) == secret_input(b.0, b.1, b.2, b.3, b.4),
    ensures
        a == b,
        key_seed(a.0, a.1, a.2, a.3, a.4) == blake3_derived(
            "mixtor-ntor-v1:key_extract"@,
            a.0 + a.1 + a.2 + a.3 + a.4 + "mixtor-ntor-v1".spec_bytes(),
        ),
{
    let s = secret_input(a.0, a.1, a.2, a.3, a.4);
    let t = secret_input(b.0, b.1, b.2, b.3, b.4);
    assert(s.subrange(0, 32) =~= a.0 && t.subrange(0, 32) =~= b.0);
    assert(s.subrange(32, 64) =~= a.1 && t.subrange(32, 64) =~= b.1);
    assert(s.subrange(64, 96) =~= a.2 && t.subrange(64, 96) =~= b.2);
    assert(s.subrange(96, 128) =~= a.3 && t.subrange(96, 128) =~= b.3);
    assert(s.subrange(128, 160) =~= a.4 && t.subrange(128, 160) =~= b.4);
}

/// Each direction has a key of its own, and the server's tag is bound to the
/// transcript: the three are derived from the key seed under names of their own.
pub proof fn law_directions_have_their_own_keys(
    dh1: Seq<u8>,
    dh2: Seq<u8>,
    b_pub: Seq<u8>,
    x_repr: Seq<u8>,
    y_repr: Seq<u8>,
)
    ensures
        ({
            let seed = key_seed(dh1, dh2, b_pub, x_repr, y_repr);
            let keys = session_keys(dh1, dh2, b_pub, x_repr, y_repr);
            &&& keys.client_to_server == blake3_derived("mixtor-ntor-v1:c2s"@, seed)
            &&& keys.server_to_client == blake3_derived("mixtor-ntor-v1:s2c"@, seed)
            &&& keys.auth == blake3_keyed(
                seed,
                "mixtor-ntor-v1:server-auth".spec_bytes() + b_pub + x_repr + y_repr,
            )
            &&& "mixtor-ntor-v1:c2s"@ != "mixtor-ntor-v1:s2c"@
        }),
{
    reveal_strlit("mixtor-ntor-v1:c2s");
    reveal_strlit("mixtor-ntor-v1:s2c");
    assert("mixtor-ntor-v1:c2s"@[15] != "mixtor-ntor-v1:s2c"@[15]);
}

/// The counter of a cipher is the number of frames it has sealed or opened, and
/// the nonce of a frame is four zero bytes and that number, least significant
/// byte first. The kind is encrypted with the cell, before it.
pub proof fn law_frames_are_numbered(key: Seq<u8>, n: nat, kind: u8, cell: Seq<u8>)
    requires
        n <= u64::MAX,
    ensures
        (CipherState { key, counter: 0 }).after(n) == (CipherState { key, counter: n as u64 }),
        nonce_of(n as u64).len() == 12,
        nonce_of(n as u64).take(4) == seq![0u8, 0u8, 0u8, 0u8],
        spec_u64_from_le_bytes(nonce_of(n as u64).skip(4)) == n,
        forall|i: int|
            0 <= i < cell.len() + 17 ==> #[trigger] (CipherState { key, counter: n as u64 }).sealed(
                kind,
                cell,
            )[i] == aead_sealed(key, nonce_of(n as u64), seq![kind] + cell)[i],
    decreases n,
{
    if n > 0 {
        law_frames_are_numbered(key, (n - 1) as nat, kind, cell);
    }
    lemma_auto_spec_u64_to_from_le_bytes();
    assert(nonce_of(n as u64).take(4) =~= seq![0u8, 0u8, 0u8, 0u8]);
    assert(nonce_of(n as u64).skip(4) =~= spec_u64_to_le_bytes(n as u64));
}

/// Which texts write a key: 64 hexadecimal digits, two a byte, the higher half
/// first.
pub proof fn law_keys_are_read_in_order(s: Seq<char>, i: int)
    requires
        0 <= i < 32,
    ensures
        is_key_hex(s) <==> s.len() == 64 && (forall|j: int|
            0 <= j < 64 ==> {
                ||| 48 <= #[trigger] s[j] as u32 <= 57
                ||| 65 <= s[j] as u32 <= 70
                ||| 97 <= s[j] as u32 <= 102
            }),
        is_key_hex(s) ==> key_of_hex(s).len() == 32 && key_of_hex(s)[i] == 16 * hex_value(
            s[2 * i],
        )->Some_0 + hex_value(s[2 * i + 1])->Some_0,
{
    if is_key_hex(s) {
        assert forall|j: int| 0 <= j < 64 implies {
            ||| 48 <= #[trigger] s[j] as u32 <= 57
            ||| 65 <= s[j] as u32 <= 70
            ||| 97 <= s[j] as u32 <= 102
        } by {
            assert(hex_value(s[j]) is Some);
        }
        assert(hex_value(s[2 * i]) is Some && hex_value(s[2 * i + 1]) is Some);
    }
}

} // verus!
