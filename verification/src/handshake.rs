//! Handshake messages and the two sides of the handshake, as functions from
//! the bytes received to what is sent and what is derived.
use crate::bytes::{
    all_zero, all_zero_spec, array_at, copy_range, extend, find_spec, find_subslice,
    lemma_first_match, lemma_match_is_first, stands_at,
};
use crate::crypto::{
    derive_session, session_keys, CipherState, FrameCipher, HandshakeError, SessionKeys,
    StaticKeypair, AUTH_LEN, ELLIGATOR_RETRY_LIMIT, HS_MAX_PAD, MAC_LEN, MARK_LEN,
    MAX_HANDSHAKE_LEN, PUBKEY_LEN,
};
use crate::primitives::{
    blake3_derived, blake3_keyed, clamped_product, constant_time_equal, decoded_point, derive_key,
    from_representative, hash_equal, is_public_of, keyed_hash, multiply_clamped,
    representative_of, system_bytes, system_word, to_representative, wipe, x25519_public,
};
use crate::text::{decimal_bytes, push_decimal_bytes};
use vstd::prelude::*;
use vstd::string::*;

verus! {

/// The key of MARK and MAC, which follows from the server's identity.
pub open spec fn mac_key_of(server_pub: Seq<u8>) -> Seq<u8> {
    blake3_derived("mixtor-probe-v1:identity-mac"@, server_pub)
}

/// The key of MARK and MAC.
pub fn identity_mac_key(server_pub: &[u8; 32]) -> (key: [u8; 32])
    ensures
        key@ == mac_key_of(server_pub@),
{
    derive_key("mixtor-probe-v1:identity-mac", server_pub.as_slice())
}

/// A keyed hash, cut to 16 bytes.
pub open spec fn keyed16_spec(key: Seq<u8>, data: Seq<u8>) -> Seq<u8> {
    Seq::new(16, |i: int| blake3_keyed(key, data)[i])
}

/// A keyed hash, cut to 16 bytes.
fn keyed16(key: &[u8; 32], data: &[u8]) -> (out: Vec<u8>)
    ensures
        out@ == keyed16_spec(key@, data@),
        out@.len() == 16,
{
    let h = keyed_hash(key, data);
    let out = copy_range(h.as_slice(), 0, 16);
    assert(out@ =~= keyed16_spec(key@, data@));
    out
}

/// The number of an hour since the epoch as it enters a MAC: in decimal, with a
/// minus sign in front where it is negative.
pub open spec fn hour_text(hour: int) -> Seq<u8> {
    if hour < 0 {
        seq![45u8] + decimal_bytes((-hour) as nat)
    } else {
        decimal_bytes(hour as nat)
    }
}

/// The MAC over `data` in an hour.
pub open spec fn mac_spec(key: Seq<u8>, data: Seq<u8>, hour: int) -> Seq<u8> {
    keyed16_spec(key, data + hour_text(hour))
}

/// The MAC over `data`, `offset` hours from `hour`.
pub fn mac_with_epoch(key: &[u8; 32], data: &[u8], hour: u64, offset: i64) -> (mac: Vec<u8>)
    requires
        hour <= 0x7fff_ffff_ffff_fff0,
        -1 <= offset <= 1,
    ensures
        mac@ == mac_spec(key@, data@, hour + offset),
        mac@.len() == MAC_LEN,
{
    let mut buf: Vec<u8> = Vec::new();
    extend(&mut buf, data);
    let at: i64 = hour as i64 + offset;
    if at < 0 {
        buf.push(45);
        push_decimal_bytes(&mut buf, (-at) as u64);
    } else {
        push_decimal_bytes(&mut buf, at as u64);
    }
    assert(buf@ =~= data@ + hour_text(hour + offset));
    keyed16(key, buf.as_slice())
}

/// Whether `received` is the MAC over `data` in this hour, the hour before or
/// the hour after.
pub open spec fn mac_valid(key: Seq<u8>, data: Seq<u8>, received: Seq<u8>, hour: int) -> bool {
    ||| received == mac_spec(key, data, hour)
    ||| received == mac_spec(key, data, hour - 1)
    ||| received == mac_spec(key, data, hour + 1)
}

/// Whether `received` is a MAC of this hour or of a neighbouring one. All three
/// are always compared.
pub fn verify_mac_epochs(key: &[u8; 32], data: &[u8], received: &[u8], hour: u64) -> (ok: bool)
    requires
        hour <= 0x7fff_ffff_ffff_fff0,
    ensures
        ok == mac_valid(key@, data@, received@, hour as int),
{
    let now = mac_with_epoch(key, data, hour, 0);
    let before = mac_with_epoch(key, data, hour, -1);
    let after = mac_with_epoch(key, data, hour, 1);
    let is_now = constant_time_equal(now.as_slice(), received);
    let is_before = constant_time_equal(before.as_slice(), received);
    let is_after = constant_time_equal(after.as_slice(), received);
    is_now || is_before || is_after
}

/// The length of padding that a drawn word stands for: its remainder by one more
/// than the longest.
pub open spec fn pad_length_spec(word: u32, max: nat) -> nat {
    word as nat % (max + 1)
}

/// The length of padding that a drawn word stands for.
pub fn pad_length(word: u32, max: usize) -> (len: usize)
    requires
        max < usize::MAX,
    ensures
        len == pad_length_spec(word, max as nat),
        len <= max,
{
    word as usize % (max + 1)
}

/// Random padding of at most `max` bytes. Its length is the one that some 32-bit
/// word stands for; the word and the bytes are left to chance.
fn random_pad(max: usize) -> (pad: Vec<u8>)
    requires
        max < usize::MAX,
    ensures
        exists|word: u32| pad@.len() == #[trigger] pad_length_spec(word, max as nat),
        pad@.len() <= max,
{
    let word: u32 = system_word();
    let len: usize = pad_length(word, max);
    system_bytes(len)
}

/// A handshake message: the prefix, the padding, the MARK over the leading
/// representative, and the MAC over all of it.
pub open spec fn marked(mac_key: Seq<u8>, prefix: Seq<u8>, pad: Seq<u8>, hour: int) -> Seq<u8> {
    let body = prefix + pad + keyed16_spec(mac_key, prefix.take(PUBKEY_LEN as int));
    body + mac_spec(mac_key, body, hour)
}

/// A handshake message with this padding.
pub fn marked_message(mac_key: &[u8; 32], prefix: &[u8], pad: &[u8], hour: u64) -> (msg: Vec<u8>)
    requires
        prefix@.len() >= PUBKEY_LEN,
        hour <= 0x7fff_ffff_ffff_fff0,
    ensures
        msg@ == marked(mac_key@, prefix@, pad@, hour as int),
{
    let repr = copy_range(prefix, 0, PUBKEY_LEN);
    assert(repr@ =~= prefix@.take(PUBKEY_LEN as int));
    let mark = keyed16(mac_key, repr.as_slice());
    let mut msg: Vec<u8> = Vec::new();
    extend(&mut msg, prefix);
    extend(&mut msg, pad);
    extend(&mut msg, mark.as_slice());
    assert(msg@ =~= prefix@ + pad@ + mark@);
    let mac = mac_with_epoch(mac_key, msg.as_slice(), hour, 0);
    extend(&mut msg, mac.as_slice());
    msg
}

/// A handshake message with random padding.
pub fn build_marked_message(mac_key: &[u8; 32], prefix: &[u8], hour: u64) -> (msg: Vec<u8>)
    requires
        prefix@.len() >= PUBKEY_LEN,
        hour <= 0x7fff_ffff_ffff_fff0,
    ensures
        exists|pad: Seq<u8>|
            pad.len() <= HS_MAX_PAD && msg@ == #[trigger] marked(
                mac_key@,
                prefix@,
                pad,
                hour as int,
            ),
{
    let pad = random_pad(HS_MAX_PAD);
    marked_message(mac_key, prefix, pad.as_slice(), hour)
}

/// What the bytes received so far amount to.
#[derive(Clone, Copy, Debug, PartialEq, Eq, Structural)]
pub enum Scan {
    /// A whole message with a valid MARK and MAC.
    Accept,
    /// No valid message, and none can come of it.
    Reject,
    /// Part of a message.
    More,
}

/// What bytes without a whole message amount to: too many are given up.
pub open spec fn unfinished(len: nat) -> Scan {
    if len >= MAX_HANDSHAKE_LEN {
        Scan::Reject
    } else {
        Scan::More
    }
}

/// The position of the MARK, which follows the prefix, if it is there.
pub open spec fn mark_position(buf: Seq<u8>, mac_key: Seq<u8>, prefix_len: nat) -> Option<nat> {
    match find_spec(
        buf.skip(prefix_len as int),
        keyed16_spec(mac_key, buf.take(PUBKEY_LEN as int)),
    ) {
        Some(at) => Some(prefix_len + at),
        None => None,
    }
}

/// What `buf` amounts to: the first MARK after the prefix decides, once the MAC
/// behind it is there.
pub open spec fn scan_spec(buf: Seq<u8>, mac_key: Seq<u8>, prefix_len: nat, hour: int) -> Scan {
    if buf.len() < prefix_len {
        unfinished(buf.len())
    } else {
        match mark_position(buf, mac_key, prefix_len) {
            None => unfinished(buf.len()),
            Some(at) => {
                let body = (at + MARK_LEN) as int;
                if buf.len() < body + MAC_LEN {
                    unfinished(buf.len())
                } else if mac_valid(
                    mac_key,
                    buf.take(body),
                    buf.subrange(body, body + MAC_LEN),
                    hour,
                ) {
                    Scan::Accept
                } else {
                    Scan::Reject
                }
            },
        }
    }
}

/// What the bytes received so far amount to.
pub fn scan_marked(buf: &[u8], mac_key: &[u8; 32], prefix_len: usize, hour: u64) -> (s: Scan)
    requires
        prefix_len >= PUBKEY_LEN,
        hour <= 0x7fff_ffff_ffff_fff0,
        buf@.len() + MARK_LEN + MAC_LEN <= usize::MAX,
    ensures
        s == scan_spec(buf@, mac_key@, prefix_len as nat, hour as int),
{
    if buf.len() >= prefix_len {
        let repr = copy_range(buf, 0, PUBKEY_LEN);
        assert(repr@ =~= buf@.take(PUBKEY_LEN as int));
        let mark = keyed16(mac_key, repr.as_slice());
        let rest = copy_range(buf, prefix_len, buf.len());
        assert(rest@ =~= buf@.skip(prefix_len as int));
        if let Some(at) = find_subslice(rest.as_slice(), mark.as_slice()) {
            proof {
                lemma_first_match(rest@, mark@, 0);
            }
            let body_end: usize = prefix_len + at + MARK_LEN;
            let mac_end: usize = body_end + MAC_LEN;
            if buf.len() >= mac_end {
                let received = copy_range(buf, body_end, mac_end);
                let body = copy_range(buf, 0, body_end);
                assert(body@ =~= buf@.take(body_end as int));
                if verify_mac_epochs(mac_key, body.as_slice(), received.as_slice(), hour) {
                    return Scan::Accept;
                }
                return Scan::Reject;
            }
        }
    }
    if buf.len() >= MAX_HANDSHAKE_LEN {
        Scan::Reject
    } else {
        Scan::More
    }
}

/// Collects the bytes of a handshake message.
pub struct MarkedReader {
    buf: Vec<u8>,
    mac_key: [u8; 32],
    prefix_len: usize,
}

/// What a reader has seen.
pub struct ReaderState {
    pub buf: Seq<u8>,
    pub mac_key: Seq<u8>,
    pub prefix_len: nat,
}

impl ReaderState {
    /// The prefix holds a representative, and no message is overdue.
    pub open spec fn wf(self) -> bool {
        &&& self.prefix_len >= PUBKEY_LEN
        &&& self.buf.len() < MAX_HANDSHAKE_LEN
    }
}

/// What a reader makes of a chunk.
pub enum ReadStep {
    /// More bytes are needed.
    More,
    /// The message is valid; this is its prefix.
    Prefix(Vec<u8>),
    /// The message is given up.
    Failed(HandshakeError),
}

impl View for MarkedReader {
    type V = ReaderState;

    closed spec fn view(&self) -> ReaderState {
        ReaderState {
            buf: self.buf@,
            mac_key: self.mac_key@,
            prefix_len: self.prefix_len as nat,
        }
    }
}

impl MarkedReader {
    /// A reader that has seen nothing.
    pub fn new(mac_key: [u8; 32], prefix_len: usize) -> (r: MarkedReader)
        requires
            prefix_len >= PUBKEY_LEN,
        ensures
            r@.wf(),
            r@ == (ReaderState {
                buf: Seq::empty(),
                mac_key: mac_key@,
                prefix_len: prefix_len as nat,
            }),
    {
        MarkedReader { buf: Vec::new(), mac_key, prefix_len }
    }

    /// Takes in a chunk as it was read in this hour; an empty chunk means that
    /// the peer has closed.
    pub fn feed(&mut self, chunk: &[u8], hour: u64) -> (step: ReadStep)
        requires
            old(self)@.wf(),
            chunk@.len() + 2 * MAX_HANDSHAKE_LEN <= usize::MAX,
            hour <= 0x7fff_ffff_ffff_fff0,
        ensures
            final(self)@ == (ReaderState { buf: old(self)@.buf + chunk@, ..old(self)@ }),
            if chunk@.len() == 0 {
                step == ReadStep::Failed(HandshakeError::Closed)
            } else {
                match scan_spec(
                    final(self)@.buf,
                    old(self)@.mac_key,
                    old(self)@.prefix_len,
                    hour as int,
                ) {
                    Scan::More => step == ReadStep::More && final(self)@.wf(),
                    Scan::Reject => step == ReadStep::Failed(HandshakeError::ProbeRejected),
                    Scan::Accept => step is Prefix && step->Prefix_0@ == final(self)@.buf.take(
                        old(self)@.prefix_len as int,
                    ) && step->Prefix_0@.len() == old(self)@.prefix_len,
                }
            },
    {
        if chunk.len() == 0 {
            assert(self.buf@ =~= self.buf@ + chunk@);
            return ReadStep::Failed(HandshakeError::Closed);
        }
        extend(&mut self.buf, chunk);
        match scan_marked(self.buf.as_slice(), &self.mac_key, self.prefix_len, hour) {
            Scan::More => ReadStep::More,
            Scan::Reject => ReadStep::Failed(HandshakeError::ProbeRejected),
            Scan::Accept => {
                let prefix = copy_range(self.buf.as_slice(), 0, self.prefix_len);
                assert(prefix@ =~= self.buf@.take(self.prefix_len as int));
                ReadStep::Prefix(prefix)
            },
        }
    }
}

/// The MARK of a message with this prefix.
pub open spec fn mark_of(mac_key: Seq<u8>, prefix: Seq<u8>) -> Seq<u8> {
    keyed16_spec(mac_key, prefix.take(PUBKEY_LEN as int))
}

/// Whether the MARK of a message first appears where it was put, and not by
/// chance earlier: in the padding, or reaching from the padding into it.
pub open spec fn mark_is_first(mac_key: Seq<u8>, prefix: Seq<u8>, pad: Seq<u8>, hour: int) -> bool {
    let mark = mark_of(mac_key, prefix);
    let mac = mac_spec(mac_key, prefix + pad + mark, hour);
    forall|j: int| 0 <= j < pad.len() ==> !stands_at(pad + mark + mac, mark, j)
}

/// A message is accepted by a reader with the same key in the same hour or a
/// neighbouring one, and reads back as its prefix, unless the MARK turns up in
/// the padding by chance: the reader would then look for the MAC in the wrong
/// place.
pub proof fn law_marked_messages_are_accepted(
    mac_key: Seq<u8>,
    prefix: Seq<u8>,
    pad: Seq<u8>,
    sent_hour: int,
    read_hour: int,
)
    requires
        prefix.len() >= PUBKEY_LEN,
        sent_hour - 1 <= read_hour <= sent_hour + 1,
    ensures
        mark_is_first(mac_key, prefix, pad, sent_hour) ==> scan_spec(
            marked(mac_key, prefix, pad, sent_hour),
            mac_key,
            prefix.len(),
            read_hour,
        ) == Scan::Accept,
        marked(mac_key, prefix, pad, sent_hour).take(prefix.len() as int) == prefix,
{
    let msg = marked(mac_key, prefix, pad, sent_hour);
    let mark = mark_of(mac_key, prefix);
    let body = prefix + pad + mark;
    let mac = mac_spec(mac_key, body, sent_hour);
    assert(msg.take(PUBKEY_LEN as int) =~= prefix.take(PUBKEY_LEN as int));
    assert(msg.take(prefix.len() as int) =~= prefix);
    let rest = msg.skip(prefix.len() as int);
    assert(rest =~= pad + mark + mac);
    let at = pad.len() as int;
    assert(rest.subrange(at, at + mark.len()) =~= mark);
    assert(stands_at(rest, mark, at));
    if mark_is_first(mac_key, prefix, pad, sent_hour) {
        lemma_match_is_first(rest, mark, 0, pad.len());
    }
    let end = (prefix.len() + pad.len() + MARK_LEN) as int;
    assert(msg.take(end) =~= body);
    assert(msg.subrange(end, end + MAC_LEN) =~= mac);
}

/// Nothing but a valid message is accepted, and so answered: behind its prefix
/// stands the MARK that only the server's identity gives, and behind that a MAC
/// over all before it, of this hour or a neighbouring one.
pub proof fn law_accepted_messages_are_authentic(
    buf: Seq<u8>,
    mac_key: Seq<u8>,
    prefix_len: nat,
    hour: int,
)
    requires
        prefix_len >= PUBKEY_LEN,
        scan_spec(buf, mac_key, prefix_len, hour) == Scan::Accept,
    ensures
        exists|at: int|
            #![trigger stands_at(buf, mark_of(mac_key, buf), at)]
            prefix_len <= at && stands_at(buf, mark_of(mac_key, buf), at) && at + MARK_LEN + MAC_LEN
                <= buf.len() && mac_valid(
                mac_key,
                buf.take(at + MARK_LEN),
                buf.subrange(at + MARK_LEN, at + MARK_LEN + MAC_LEN),
                hour,
            ),
{
    let rest = buf.skip(prefix_len as int);
    let mark = mark_of(mac_key, buf);
    lemma_first_match(rest, mark, 0);
    let rel = find_spec(rest, mark)->Some_0 as int;
    let at = prefix_len + rel;
    assert(rest.subrange(rel, rel + mark.len()) =~= buf.subrange(at, at + mark.len()));
    assert(stands_at(buf, mark, at));
}

/// A part of a message that ends before its MAC is complete never gets it
/// refused: the reader asks for more, as long as the whole message is short
/// enough.
pub proof fn law_partial_messages_are_waited_for(
    mac_key: Seq<u8>,
    prefix: Seq<u8>,
    pad: Seq<u8>,
    sent_hour: int,
    read_hour: int,
    n: int,
)
    requires
        prefix.len() >= PUBKEY_LEN,
        0 <= n < prefix.len() + pad.len() + MARK_LEN + MAC_LEN,
        n < MAX_HANDSHAKE_LEN,
    ensures
        mark_is_first(mac_key, prefix, pad, sent_hour) ==> scan_spec(
            marked(mac_key, prefix, pad, sent_hour).take(n),
            mac_key,
            prefix.len(),
            read_hour,
        ) == Scan::More,
{
    let msg = marked(mac_key, prefix, pad, sent_hour);
    let part = msg.take(n);
    let mark = mark_of(mac_key, prefix);
    let mac = mac_spec(mac_key, prefix + pad + mark, sent_hour);
    if mark_is_first(mac_key, prefix, pad, sent_hour) && n >= prefix.len() {
        assert(part.take(PUBKEY_LEN as int) =~= prefix.take(PUBKEY_LEN as int));
        let whole = pad + mark + mac;
        let rest = part.skip(prefix.len() as int);
        assert(rest =~= whole.take(n - prefix.len()));
        lemma_first_match(rest, mark, 0);
        if let Some(at) = find_spec(rest, mark) {
            if at < pad.len() {
                let from = at as int;
                let to = from + mark.len();
                assert(rest.subrange(from, to) =~= whole.subrange(from, to));
                assert(stands_at(whole, mark, from));
                assert(false);
            }
        }
    }
}

/// Whether `repr` is a representative of a secret, and decodes.
pub open spec fn represents(repr: Seq<u8>, secret: Seq<u8>) -> bool {
    &&& decoded_point(repr) is Some
    &&& exists|tweak: u8| #[trigger] representative_of(secret, tweak) == Some(repr)
}

/// Whether all of these are secrets without a representative under the tweak.
pub open spec fn all_unrepresentable(drawn: Seq<Seq<u8>>, tweak: u8) -> bool {
    forall|i: int|
        0 <= i < drawn.len() ==> (#[trigger] drawn[i]).len() == 32 && representative_of(
            drawn[i],
            tweak,
        ) is None
}

/// Whether a search that has passed over these secrets, within the attempts it
/// has, ends with this secret and its representative.
pub open spec fn found_after(
    passed_over: Seq<Seq<u8>>,
    tweak: u8,
    secret: Seq<u8>,
    repr: Seq<u8>,
) -> bool {
    &&& passed_over.len() < ELLIGATOR_RETRY_LIMIT
    &&& all_unrepresentable(passed_over, tweak)
    &&& representative_of(secret, tweak) == Some(repr)
}

/// Whether a search can end with this secret and its representative.
pub open spec fn is_found(secret: Seq<u8>, repr: Seq<u8>) -> bool {
    exists|passed_over: Seq<Seq<u8>>, tweak: u8|
        #[trigger] found_after(passed_over, tweak, secret, repr)
}

/// Whether a search ends with nothing: as many secrets were drawn as there are
/// attempts, and none of them has a representative under the one tweak.
pub open spec fn search_exhausted() -> bool {
    exists|drawn: Seq<Seq<u8>>, tweak: u8|
        drawn.len() == ELLIGATOR_RETRY_LIMIT && #[trigger] all_unrepresentable(drawn, tweak)
}

/// Draws secrets until one has a representative, within a limited number of
/// attempts and under one tweak. Which secrets and which tweak are drawn is left
/// to chance. The first secret that has a representative is taken, and there is
/// none only where every attempt drew a secret without one.
pub fn gen_representable_ephemeral() -> (r: Option<([u8; 32], [u8; 32])>)
    ensures
        r matches Some(pair) ==> represents(pair.1@, pair.0@),
        r matches Some(pair) ==> is_found(pair.0@, pair.1@),
        r is None ==> search_exhausted(),
{
    let word: u32 = system_word();
    let tweak: u8 = tweak_of(word);
    let ghost mut drawn: Seq<Seq<u8>> = Seq::empty();
    let mut attempt: usize = 0;
    loop
        invariant
            attempt < ELLIGATOR_RETRY_LIMIT,
            drawn.len() == attempt,
            all_unrepresentable(drawn, tweak),
        decreases ELLIGATOR_RETRY_LIMIT - attempt,
    {
        let bytes = system_bytes(32);
        let secret = array_at(bytes.as_slice(), 0);
        match judge_attempt(attempt, &secret, tweak) {
            Attempt::Take(repr) => {
                assert(representative_of(secret@, tweak) == Some(repr@));
                assert(found_after(drawn, tweak, secret@, repr@));
                assert(is_found(secret@, repr@));
                return Some((secret, repr));
            },
            Attempt::Retry => {
                proof {
                    drawn = drawn.push(secret@);
                }
                attempt = attempt + 1;
            },
            Attempt::GiveUp => {
                proof {
                    drawn = drawn.push(secret@);
                    assert(all_unrepresentable(drawn, tweak));
                }
                return None;
            },
        }
    }
}

/// The tweak that a drawn word stands for: its lowest byte.
pub fn tweak_of(word: u32) -> (tweak: u8)
    ensures
        tweak == word % 256,
{
    (word % 256) as u8
}

/// What an attempt to find an ephemeral secret comes to.
#[derive(Clone, Copy, Debug, PartialEq, Eq)]
pub enum Attempt {
    /// The secret is taken; this is its representative.
    Take([u8; 32]),
    /// Another secret is drawn.
    Retry,
    /// The search ends with nothing.
    GiveUp,
}

/// Judges attempt number `attempt`, counted from zero, which drew this secret:
/// a secret that has a representative is taken, and one that has none is passed
/// over while attempts are left.
pub fn judge_attempt(attempt: usize, secret: &[u8; 32], tweak: u8) -> (a: Attempt)
    ensures
        match representative_of(secret@, tweak) {
            Some(repr) => a is Take && a->Take_0@ == repr && represents(repr, secret@),
            None => a == if attempt + 1 < ELLIGATOR_RETRY_LIMIT {
                Attempt::Retry
            } else {
                Attempt::GiveUp
            },
        },
{
    match represent(secret, tweak) {
        Some(repr) => Attempt::Take(repr),
        None => {
            if attempt < ELLIGATOR_RETRY_LIMIT - 1 {
                Attempt::Retry
            } else {
                Attempt::GiveUp
            }
        },
    }
}

/// The representative of a secret, if it has one.
pub fn represent(secret: &[u8; 32], tweak: u8) -> (r: Option<[u8; 32]>)
    ensures
        match r {
            Some(repr) => representative_of(secret@, tweak) == Some(repr@) && represents(
                repr@,
                secret@,
            ),
            None => representative_of(secret@, tweak) is None,
        },
{
    to_representative(secret, tweak)
}

/// The point that a peer's representative stands for, if it decodes.
pub fn decode_representative(repr: &[u8; 32]) -> (p: Option<[u8; 32]>)
    ensures
        match p {
            Some(point) => decoded_point(repr@) == Some(point@),
            None => decoded_point(repr@) is None,
        },
{
    from_representative(repr)
}

/// Whether a product shows that the peer's key was degenerate.
pub fn dh_is_zero(out: &[u8; 32]) -> (b: bool)
    ensures
        b == all_zero_spec(out@),
{
    all_zero(out.as_slice())
}

/// What a side derives from its two products, unless one of them is zero.
pub open spec fn agreed_keys(
    dh1: Seq<u8>,
    dh2: Seq<u8>,
    b_pub: Seq<u8>,
    x_repr: Seq<u8>,
    y_repr: Seq<u8>,
) -> Option<SessionKeys> {
    if all_zero_spec(dh1) || all_zero_spec(dh2) {
        None
    } else {
        Some(session_keys(dh1, dh2, b_pub, x_repr, y_repr))
    }
}

/// What a server with these secrets derives for a client's representative, or
/// nothing where the client's key is degenerate or does not decode.
pub open spec fn server_keys(
    b_pub: Seq<u8>,
    b_secret: Seq<u8>,
    y_secret: Seq<u8>,
    y_repr: Seq<u8>,
    x_repr: Seq<u8>,
) -> Option<SessionKeys> {
    match decoded_point(x_repr) {
        None => None,
        Some(x) => agreed_keys(
            clamped_product(x, y_secret),
            clamped_product(x, b_secret),
            b_pub,
            x_repr,
            y_repr,
        ),
    }
}

/// What a client with this secret derives for a server's representative, or
/// nothing where the server's key is degenerate or does not decode.
pub open spec fn client_keys(
    b_pub: Seq<u8>,
    x_secret: Seq<u8>,
    x_repr: Seq<u8>,
    y_repr: Seq<u8>,
) -> Option<SessionKeys> {
    match decoded_point(y_repr) {
        None => None,
        Some(y) => agreed_keys(
            clamped_product(y, x_secret),
            clamped_product(b_pub, x_secret),
            b_pub,
            x_repr,
            y_repr,
        ),
    }
}

/// Whether the four values are those of a server: its identity belongs to its
/// secret, and its representative to its ephemeral secret.
pub open spec fn honest_server(
    b_pub: Seq<u8>,
    b_secret: Seq<u8>,
    y_secret: Seq<u8>,
    y_repr: Seq<u8>,
) -> bool {
    &&& b_pub == x25519_public(b_secret)
    &&& represents(y_repr, y_secret)
}

/// What the server answers, and under which keys the session then runs.
pub struct ServerReply {
    pub message: Vec<u8>,
    pub send: FrameCipher,
    pub recv: FrameCipher,
}

/// The server's side once the client's representative is in: the reply and the
/// ciphers for the direction to the client and from it. The ephemeral pair and
/// the padding are given.
pub fn server_finish(
    kp: &StaticKeypair,
    x_repr: &[u8; 32],
    y_secret: &[u8; 32],
    y_repr: &[u8; 32],
    pad: &[u8],
    hour: u64,
) -> (r: Result<ServerReply, HandshakeError>)
    requires
        kp.wf(),
        hour <= 0x7fff_ffff_ffff_fff0,
    ensures
        match server_keys(kp.public_key(), kp.secret_key(), y_secret@, y_repr@, x_repr@) {
            None => r is Err && r->Err_0 == HandshakeError::NonContributory,
            Some(keys) => {
                &&& r is Ok
                &&& keys.auth.len() == AUTH_LEN
                &&& r->Ok_0.message@ == marked(
                    mac_key_of(kp.public_key()),
                    y_repr@ + keys.auth,
                    pad@,
                    hour as int,
                )
                &&& r->Ok_0.send@ == (CipherState { key: keys.server_to_client, counter: 0 })
                &&& r->Ok_0.recv@ == (CipherState { key: keys.client_to_server, counter: 0 })
            },
        },
{
    let x_point = match decode_representative(x_repr) {
        Some(point) => point,
        None => {
            return Err(HandshakeError::NonContributory);
        },
    };
    let b_pub = kp.public_bytes();
    let mut b_secret = kp.secret_bytes();
    let mut dh1 = multiply_clamped(&x_point, y_secret);
    let mut dh2 = multiply_clamped(&x_point, &b_secret);
    wipe(&mut b_secret);
    if dh_is_zero(&dh1) || dh_is_zero(&dh2) {
        return Err(HandshakeError::NonContributory);
    }
    let (c2s, s2c, auth) = derive_session(&dh1, &dh2, &b_pub, x_repr, y_repr);
    wipe(&mut dh1);
    wipe(&mut dh2);
    let mut prefix: Vec<u8> = Vec::new();
    extend(&mut prefix, y_repr.as_slice());
    extend(&mut prefix, auth.as_slice());
    assert(prefix@ =~= y_repr@ + auth@);
    let mac_key = identity_mac_key(&b_pub);
    let message = marked_message(&mac_key, prefix.as_slice(), pad, hour);
    Ok(ServerReply { message, send: FrameCipher::new(s2c), recv: FrameCipher::new(c2s) })
}

/// The client's side once the server's reply is in: the ciphers for the
/// direction to the server and from it. The server's tag must be the one that
/// only the holder of the identity's secret can make. Where the reply is that
/// of an honest server, both sides end with the same keys.
pub fn client_finish(
    server_pub: &[u8; 32],
    x_secret: &[u8; 32],
    x_repr: &[u8; 32],
    prefix: &[u8],
) -> (r: Result<(FrameCipher, FrameCipher), HandshakeError>)
    requires
        prefix@.len() == PUBKEY_LEN + AUTH_LEN,
    ensures
        match client_keys(server_pub@, x_secret@, x_repr@, prefix@.take(PUBKEY_LEN as int)) {
            None => r is Err && r->Err_0 == HandshakeError::NonContributory,
            Some(keys) => if prefix@.skip(PUBKEY_LEN as int) == keys.auth {
                &&& r is Ok
                &&& r->Ok_0.0@ == (CipherState { key: keys.client_to_server, counter: 0 })
                &&& r->Ok_0.1@ == (CipherState { key: keys.server_to_client, counter: 0 })
            } else {
                r is Err && r->Err_0 == HandshakeError::BadServerAuth
            },
        },
        forall|b_secret: Seq<u8>, y_secret: Seq<u8>|
            #![trigger server_keys(server_pub@, b_secret, y_secret, prefix@.take(PUBKEY_LEN as int), x_repr@)]
            honest_server(server_pub@, b_secret, y_secret, prefix@.take(PUBKEY_LEN as int))
                && represents(x_repr@, x_secret@) ==> {
                match server_keys(
                    server_pub@,
                    b_secret,
                    y_secret,
                    prefix@.take(PUBKEY_LEN as int),
                    x_repr@,
                ) {
                    Some(keys) => prefix@.skip(PUBKEY_LEN as int) == keys.auth ==> {
                        &&& r is Ok
                        &&& r->Ok_0.0@ == (CipherState { key: keys.client_to_server, counter: 0 })
                        &&& r->Ok_0.1@ == (CipherState { key: keys.server_to_client, counter: 0 })
                    },
                    None => true,
                }
            },
{
    let y_repr = array_at(prefix, 0);
    let auth_received = array_at(prefix, PUBKEY_LEN);
    assert(y_repr@ =~= prefix@.take(PUBKEY_LEN as int));
    assert(auth_received@ =~= prefix@.skip(PUBKEY_LEN as int));
    let y_point = match decode_representative(&y_repr) {
        Some(point) => point,
        None => {
            return Err(HandshakeError::NonContributory);
        },
    };
    let mut dh1 = multiply_clamped(&y_point, x_secret);
    let mut dh2 = multiply_clamped(server_pub, x_secret);
    proof {
        assert forall|b_secret: Seq<u8>, y_secret: Seq<u8>|
            honest_server(server_pub@, b_secret, y_secret, y_repr@) && represents(
                x_repr@,
                x_secret@,
            ) implies #[trigger] server_keys(
            server_pub@,
            b_secret,
            y_secret,
            y_repr@,
            x_repr@,
        ) == client_keys(server_pub@, x_secret@, x_repr@, y_repr@) by {
            let x_point = decoded_point(x_repr@)->Some_0;
            let ty = choose|tweak: u8|
                #[trigger] representative_of(y_secret, tweak) == Some(y_repr@);
            let tx = choose|tweak: u8|
                #[trigger] representative_of(x_secret@, tweak) == Some(x_repr@);
            assert(representative_of(y_secret, ty) is Some);
            assert(representative_of(x_secret@, tx) is Some);
            assert(is_public_of(y_point@, y_secret));
            assert(is_public_of(x_point, x_secret@));
            assert(is_public_of(server_pub@, b_secret));
            assert(dh1@ == clamped_product(x_point, y_secret));
            assert(dh2@ == clamped_product(x_point, b_secret));
        }
    }
    if dh_is_zero(&dh1) || dh_is_zero(&dh2) {
        return Err(HandshakeError::NonContributory);
    }
    let (c2s, s2c, auth) = derive_session(&dh1, &dh2, server_pub, x_repr, &y_repr);
    wipe(&mut dh1);
    wipe(&mut dh2);
    if !hash_equal(&auth, &auth_received) {
        return Err(HandshakeError::BadServerAuth);
    }
    Ok((FrameCipher::new(c2s), FrameCipher::new(s2c)))
}

/// What the server does after a chunk.
pub enum ServerStep {
    /// Waits for more bytes, and sends nothing.
    More,
    /// Sends the reply; the session begins.
    Reply(ServerReply),
    /// Gives up, and sends nothing.
    Failed(HandshakeError),
    /// No ephemeral key was found, and nothing is sent.
    NoEphemeral,
}

/// Whether a reply is one that a server with this identity gives to a client's
/// representative, for some ephemeral key and padding.
pub open spec fn is_reply_to(
    reply: ServerReply,
    b_pub: Seq<u8>,
    b_secret: Seq<u8>,
    x_repr: Seq<u8>,
    hour: int,
) -> bool {
    exists|y_secret: Seq<u8>, y_repr: Seq<u8>, pad: Seq<u8>|
        #![trigger replies(reply, b_pub, b_secret, x_repr, y_secret, y_repr, pad, hour)]
        replies(reply, b_pub, b_secret, x_repr, y_secret, y_repr, pad, hour)
}

/// Whether a reply is the one for this ephemeral key and padding.
pub open spec fn replies(
    reply: ServerReply,
    b_pub: Seq<u8>,
    b_secret: Seq<u8>,
    x_repr: Seq<u8>,
    y_secret: Seq<u8>,
    y_repr: Seq<u8>,
    pad: Seq<u8>,
    hour: int,
) -> bool {
    &&& represents(y_repr, y_secret)
    &&& y_repr.len() == PUBKEY_LEN
    &&& pad.len() <= HS_MAX_PAD
    &&& server_keys(b_pub, b_secret, y_secret, y_repr, x_repr) matches Some(keys) && {
        &&& keys.auth.len() == AUTH_LEN
        &&& reply.message@ == marked(mac_key_of(b_pub), y_repr + keys.auth, pad, hour)
        &&& reply.send@ == (CipherState { key: keys.server_to_client, counter: 0 })
        &&& reply.recv@ == (CipherState { key: keys.client_to_server, counter: 0 })
    }
}

/// Whether a server with this identity refuses a client's representative for
/// some ephemeral key of its own.
pub open spec fn is_refused(b_pub: Seq<u8>, b_secret: Seq<u8>, x_repr: Seq<u8>) -> bool {
    exists|y_secret: Seq<u8>, y_repr: Seq<u8>|
        represents(y_repr, y_secret) && #[trigger] server_keys(
            b_pub,
            b_secret,
            y_secret,
            y_repr,
            x_repr,
        ) is None
}

/// The server's side of the handshake, fed with what the client sends.
pub struct ServerHandshake {
    reader: MarkedReader,
}

impl View for ServerHandshake {
    type V = ReaderState;

    closed spec fn view(&self) -> ReaderState {
        self.reader@
    }
}

impl ServerHandshake {
    /// A server that has heard nothing.
    pub fn new(kp: &StaticKeypair) -> (h: ServerHandshake)
        ensures
            h@.wf(),
            h@ == (ReaderState {
                buf: Seq::empty(),
                mac_key: mac_key_of(kp.public_key()),
                prefix_len: PUBKEY_LEN as nat,
            }),
    {
        let public = kp.public_bytes();
        ServerHandshake { reader: MarkedReader::new(identity_mac_key(&public), PUBKEY_LEN) }
    }

    /// Takes in a chunk as it was read in this hour; an empty chunk means that
    /// the client has closed. The server answers only to a message whose MARK
    /// and MAC are valid; to anything else it sends nothing.
    pub fn feed(&mut self, chunk: &[u8], kp: &StaticKeypair, hour: u64) -> (step: ServerStep)
        requires
            old(self)@.wf(),
            old(self)@.prefix_len == PUBKEY_LEN,
            kp.wf(),
            chunk@.len() + 2 * MAX_HANDSHAKE_LEN <= usize::MAX,
            hour <= 0x7fff_ffff_ffff_fff0,
        ensures
            final(self)@ == (ReaderState { buf: old(self)@.buf + chunk@, ..old(self)@ }),
            if chunk@.len() == 0 {
                step == ServerStep::Failed(HandshakeError::Closed)
            } else {
                match scan_spec(
                    final(self)@.buf,
                    old(self)@.mac_key,
                    old(self)@.prefix_len,
                    hour as int,
                ) {
                    Scan::More => step == ServerStep::More && final(self)@.wf(),
                    Scan::Reject => step == ServerStep::Failed(HandshakeError::ProbeRejected),
                    Scan::Accept => {
                        let x_repr = final(self)@.buf.take(PUBKEY_LEN as int);
                        if decoded_point(x_repr) is None {
                            step == ServerStep::Failed(HandshakeError::NonContributory)
                        } else {
                            match step {
                                ServerStep::Reply(reply) => is_reply_to(
                                    reply,
                                    kp.public_key(),
                                    kp.secret_key(),
                                    x_repr,
                                    hour as int,
                                ),
                                ServerStep::Failed(e) => e == HandshakeError::NonContributory
                                    && is_refused(kp.public_key(), kp.secret_key(), x_repr),
                                ServerStep::NoEphemeral => search_exhausted(),
                                ServerStep::More => false,
                            }
                        }
                    },
                }
            },
    {
        let prefix = match self.reader.feed(chunk, hour) {
            ReadStep::More => {
                return ServerStep::More;
            },
            ReadStep::Failed(e) => {
                return ServerStep::Failed(e);
            },
            ReadStep::Prefix(prefix) => prefix,
        };
        let x_repr = array_at(prefix.as_slice(), 0);
        assert(x_repr@ =~= self@.buf.take(PUBKEY_LEN as int));
        if decode_representative(&x_repr).is_none() {
            return ServerStep::Failed(HandshakeError::NonContributory);
        }
        let (mut y_secret, y_repr) = match gen_representable_ephemeral() {
            Some(pair) => pair,
            None => {
                return ServerStep::NoEphemeral;
            },
        };
        let ghost secret = y_secret@;
        let pad = random_pad(HS_MAX_PAD);
        let r = server_finish(kp, &x_repr, &y_secret, &y_repr, pad.as_slice(), hour);
        wipe(&mut y_secret);
        match r {
            Ok(reply) => {
                assert(replies(
                    reply,
                    kp.public_key(),
                    kp.secret_key(),
                    x_repr@,
                    secret,
                    y_repr@,
                    pad@,
                    hour as int,
                ));
                ServerStep::Reply(reply)
            },
            Err(e) => {
                assert(server_keys(
                    kp.public_key(),
                    kp.secret_key(),
                    secret,
                    y_repr@,
                    x_repr@,
                ) is None);
                ServerStep::Failed(e)
            },
        }
    }
}

/// What the client does after a chunk.
pub enum ClientStep {
    /// Waits for more bytes.
    More,
    /// The session begins: the ciphers to the server and from it.
    Done(FrameCipher, FrameCipher),
    /// Gives up.
    Failed(HandshakeError),
}

/// What a client has and has heard.
pub struct ClientState {
    pub server_pub: Seq<u8>,
    pub x_secret: Seq<u8>,
    pub x_repr: Seq<u8>,
    pub reader: ReaderState,
}

impl ClientState {
    /// The representative is that of the secret, and the reader waits for a
    /// representative and a tag.
    pub open spec fn wf(self) -> bool {
        &&& represents(self.x_repr, self.x_secret)
        &&& self.reader.wf()
        &&& self.reader.prefix_len == PUBKEY_LEN + AUTH_LEN
        &&& self.reader.mac_key == mac_key_of(self.server_pub)
    }
}

/// The client's side of the handshake, fed with what the server sends.
pub struct ClientHandshake {
    server_pub: [u8; 32],
    x_secret: [u8; 32],
    x_repr: [u8; 32],
    reader: MarkedReader,
}

impl View for ClientHandshake {
    type V = ClientState;

    closed spec fn view(&self) -> ClientState {
        ClientState {
            server_pub: self.server_pub@,
            x_secret: self.x_secret@,
            x_repr: self.x_repr@,
            reader: self.reader@,
        }
    }
}

impl Drop for ClientHandshake {
    fn drop(&mut self)
        opens_invariants none
        no_unwind
    {
        wipe(&mut self.x_secret);
    }
}

impl ClientHandshake {
    /// A client of this server, and the message it opens with. There is none
    /// only where the search for an ephemeral key ended with nothing.
    pub fn start(server_pub: &[u8; 32], hour: u64) -> (r: Option<(ClientHandshake, Vec<u8>)>)
        requires
            hour <= 0x7fff_ffff_ffff_fff0,
        ensures
            match r {
                Some((client, message)) => {
                    &&& client@.wf()
                    &&& client@.server_pub == server_pub@
                    &&& client@.reader.buf.len() == 0
                    &&& is_found(client@.x_secret, client@.x_repr)
                    &&& exists|pad: Seq<u8>|
                        pad.len() <= HS_MAX_PAD && message@ == #[trigger] marked(
                            mac_key_of(server_pub@),
                            client@.x_repr,
                            pad,
                            hour as int,
                        )
                },
                None => search_exhausted(),
            },
    {
        let (x_secret, x_repr) = match gen_representable_ephemeral() {
            Some(pair) => pair,
            None => {
                return None;
            },
        };
        let mac_key = identity_mac_key(server_pub);
        let message = build_marked_message(&mac_key, x_repr.as_slice(), hour);
        let reader = MarkedReader::new(mac_key, PUBKEY_LEN + AUTH_LEN);
        Some((ClientHandshake { server_pub: *server_pub, x_secret, x_repr, reader }, message))
    }

    /// Takes in a chunk as it was read in this hour; an empty chunk means that
    /// the server has closed. Where what arrived is a reply by the holder of the
    /// identity's secret, the client sends under the key that the server receives
    /// under, and receives under the key that the server sends under.
    pub fn feed(&mut self, chunk: &[u8], hour: u64) -> (step: ClientStep)
        requires
            old(self)@.wf(),
            chunk@.len() + 2 * MAX_HANDSHAKE_LEN <= usize::MAX,
            hour <= 0x7fff_ffff_ffff_fff0,
        ensures
            final(self)@ == (ClientState {
                reader: ReaderState {
                    buf: old(self)@.reader.buf + chunk@,
                    ..old(self)@.reader
                },
                ..old(self)@
            }),
            if chunk@.len() == 0 {
                step == ClientStep::Failed(HandshakeError::Closed)
            } else {
                match scan_spec(
                    final(self)@.reader.buf,
                    old(self)@.reader.mac_key,
                    old(self)@.reader.prefix_len,
                    hour as int,
                ) {
                    Scan::More => step == ClientStep::More && final(self)@.wf(),
                    Scan::Reject => step == ClientStep::Failed(HandshakeError::ProbeRejected),
                    Scan::Accept => {
                        let y_repr = final(self)@.reader.buf.take(PUBKEY_LEN as int);
                        let tag = final(self)@.reader.buf.subrange(
                            PUBKEY_LEN as int,
                            PUBKEY_LEN + AUTH_LEN,
                        );
                        match client_keys(
                            old(self)@.server_pub,
                            old(self)@.x_secret,
                            old(self)@.x_repr,
                            y_repr,
                        ) {
                            None => step == ClientStep::Failed(HandshakeError::NonContributory),
                            Some(keys) => if tag == keys.auth {
                                &&& step is Done
                                &&& step->Done_0@ == (CipherState {
                                    key: keys.client_to_server,
                                    counter: 0,
                                })
                                &&& step->Done_1@ == (CipherState {
                                    key: keys.server_to_client,
                                    counter: 0,
                                })
                            } else {
                                step == ClientStep::Failed(HandshakeError::BadServerAuth)
                            },
                        }
                    },
                }
            },
            forall|reply: ServerReply, b_secret: Seq<u8>, sent: int|
                #![trigger is_reply_to(reply, old(self)@.server_pub, b_secret, old(self)@.x_repr, sent)]
                {
                    &&& is_reply_to(
                        reply,
                        old(self)@.server_pub,
                        b_secret,
                        old(self)@.x_repr,
                        sent,
                    )
                    &&& old(self)@.server_pub == x25519_public(b_secret)
                    &&& chunk@.len() > 0
                    &&& scan_spec(
                        final(self)@.reader.buf,
                        old(self)@.reader.mac_key,
                        old(self)@.reader.prefix_len,
                        hour as int,
                    ) == Scan::Accept
                    &&& final(self)@.reader.buf.take(PUBKEY_LEN + AUTH_LEN)
                        == reply.message@.take(PUBKEY_LEN + AUTH_LEN)
                } ==> step is Done && step->Done_0@ == reply.recv@ && step->Done_1@
                    == reply.send@,
    {
        let prefix = match self.reader.feed(chunk, hour) {
            ReadStep::More => {
                return ClientStep::More;
            },
            ReadStep::Failed(e) => {
                return ClientStep::Failed(e);
            },
            ReadStep::Prefix(prefix) => prefix,
        };
        assert(prefix@.take(PUBKEY_LEN as int) =~= self@.reader.buf.take(PUBKEY_LEN as int));
        assert(prefix@.skip(PUBKEY_LEN as int) =~= self@.reader.buf.subrange(
            PUBKEY_LEN as int,
            PUBKEY_LEN + AUTH_LEN,
        ));
        let r = client_finish(&self.server_pub, &self.x_secret, &self.x_repr, prefix.as_slice());
        proof {
            assert forall|reply: ServerReply, b_secret: Seq<u8>, sent: int|
                #[trigger] is_reply_to(reply, self@.server_pub, b_secret, self@.x_repr, sent)
                    && self@.server_pub == x25519_public(b_secret) && prefix@
                    == reply.message@.take(PUBKEY_LEN + AUTH_LEN) implies r is Ok && r->Ok_0.0@
                == reply.recv@ && r->Ok_0.1@ == reply.send@ by {
                let b_pub = self@.server_pub;
                let x_repr = self@.x_repr;
                let (y_secret, y_repr, pad) = choose|
                    y_secret: Seq<u8>,
                    y_repr: Seq<u8>,
                    pad: Seq<u8>,
                |
                    #![trigger replies(reply, b_pub, b_secret, x_repr, y_secret, y_repr, pad, sent)]
                    replies(reply, b_pub, b_secret, x_repr, y_secret, y_repr, pad, sent);
                let keys = server_keys(b_pub, b_secret, y_secret, y_repr, x_repr)->Some_0;
                assert(prefix@ =~= y_repr + keys.auth);
                assert(prefix@.take(PUBKEY_LEN as int) =~= y_repr);
                assert(prefix@.skip(PUBKEY_LEN as int) =~= keys.auth);
            }
        }
        match r {
            Ok((send, recv)) => ClientStep::Done(send, recv),
            Err(e) => ClientStep::Failed(e),
        }
    }
}

/// How a handshake message is laid out: the prefix, then the padding, then 16
/// bytes that depend on the first 32 alone, then 16 bytes that depend on all
/// before them and on the hour.
pub proof fn law_messages_are_laid_out(mac_key: Seq<u8>, prefix: Seq<u8>, pad: Seq<u8>, hour: int)
    requires
        prefix.len() >= 32,
    ensures
        ({
            let msg = marked(mac_key, prefix, pad, hour);
            let body = (prefix.len() + pad.len() + 16) as int;
            &&& msg.len() == prefix.len() + pad.len() + 32
            &&& msg.take(prefix.len() as int) == prefix
            &&& msg.subrange(prefix.len() as int, (prefix.len() + pad.len()) as int) == pad
            &&& msg.subrange(body - 16, body) == keyed16_spec(mac_key, prefix.take(32))
            &&& msg.skip(body) == keyed16_spec(mac_key, msg.take(body) + hour_text(hour))
            &&& forall|i: int|
                0 <= i < 16 ==> #[trigger] keyed16_spec(mac_key, prefix.take(32))[i] == blake3_keyed(
                    mac_key,
                    prefix.take(32),
                )[i]
        }),
{
    let msg = marked(mac_key, prefix, pad, hour);
    let mark = mark_of(mac_key, prefix);
    let body = prefix + pad + mark;
    assert(msg.take(prefix.len() as int) =~= prefix);
    assert(msg.subrange(prefix.len() as int, (prefix.len() + pad.len()) as int) =~= pad);
    assert(msg.subrange(body.len() - 16, body.len() as int) =~= mark);
    assert(msg.take(body.len() as int) =~= body);
    assert(msg.skip(body.len() as int) =~= mac_spec(mac_key, body, hour));
}

/// Which hours a MAC is good for: its own and the two around it.
pub proof fn law_macs_are_good_for_three_hours(
    key: Seq<u8>,
    data: Seq<u8>,
    received: Seq<u8>,
    hour: int,
    sent: int,
)
    ensures
        mac_valid(key, data, received, hour) <==> exists|h: int|
            hour - 1 <= h <= hour + 1 && received == #[trigger] keyed16_spec(
                key,
                data + hour_text(h),
            ),
        hour - 1 <= sent <= hour + 1 ==> mac_valid(key, data, mac_spec(key, data, sent), hour),
{
    if mac_valid(key, data, received, hour) {
        assert(received == keyed16_spec(key, data + hour_text(hour)) || received == keyed16_spec(
            key,
            data + hour_text(hour - 1),
        ) || received == keyed16_spec(key, data + hour_text(hour + 1)));
    }
}

/// Nothing is waited for without end: bytes without a valid message are given up
/// once there are 8192 of them, and before that only where a MAC is wrong.
pub proof fn law_long_garbage_is_given_up(buf: Seq<u8>, mac_key: Seq<u8>, prefix_len: nat, hour: int)
    requires
        prefix_len >= 32,
    ensures
        buf.len() >= 8192 ==> scan_spec(buf, mac_key, prefix_len, hour) != Scan::More,
        buf.len() < 8192 && (buf.len() < prefix_len + 32 || forall|at: int|
            prefix_len <= at ==> !#[trigger] stands_at(buf, mark_of(mac_key, buf), at)) ==> scan_spec(
            buf,
            mac_key,
            prefix_len,
            hour,
        ) == Scan::More,
        buf.len() >= 8192 && (forall|at: int|
            prefix_len <= at ==> !#[trigger] stands_at(buf, mark_of(mac_key, buf), at)) ==> scan_spec(
            buf,
            mac_key,
            prefix_len,
            hour,
        ) == Scan::Reject,
{
    if buf.len() >= prefix_len {
        let rest = buf.skip(prefix_len as int);
        let mark = mark_of(mac_key, buf);
        lemma_first_match(rest, mark, 0);
        if let Some(rel) = find_spec(rest, mark) {
            let from = rel as int;
            let at = prefix_len + from;
            assert(rest.subrange(from, from + mark.len()) =~= buf.subrange(at, at + mark.len()));
            assert(stands_at(buf, mark, at));
        }
    }
}

/// Degenerate keys are refused: no keys come of a product that is zero in all its
/// bytes, and keys always come of products that are not.
pub proof fn law_zero_products_are_refused(
    dh1: Seq<u8>,
    dh2: Seq<u8>,
    b_pub: Seq<u8>,
    x_repr: Seq<u8>,
    y_repr: Seq<u8>,
)
    ensures
        agreed_keys(dh1, dh2, b_pub, x_repr, y_repr) is Some <==> (exists|i: int|
            0 <= i < dh1.len() && #[trigger] dh1[i] != 0) && (exists|i: int|
            0 <= i < dh2.len() && #[trigger] dh2[i] != 0),
        agreed_keys(dh1, dh2, b_pub, x_repr, y_repr) is Some ==> agreed_keys(
            dh1,
            dh2,
            b_pub,
            x_repr,
            y_repr,
        )->Some_0 == session_keys(dh1, dh2, b_pub, x_repr, y_repr),
{
    if !all_zero_spec(dh1) {
        assert(exists|i: int| 0 <= i < dh1.len() && #[trigger] dh1[i] != 0);
    }
    if !all_zero_spec(dh2) {
        assert(exists|i: int| 0 <= i < dh2.len() && #[trigger] dh2[i] != 0);
    }
}

/// Padding of every length up to the longest can come, and none that is longer.
pub proof fn law_paddings_have_every_length(word: u32, max: nat, len: u32)
    requires
        len <= max,
    ensures
        pad_length_spec(word, max) <= max,
        pad_length_spec(len, max) == len,
        word > max ==> pad_length_spec(word, max) == pad_length_spec(
            (word - max - 1) as u32,
            max,
        ),
{
    let m = (max + 1) as int;
    vstd::arithmetic::div_mod::lemma_mod_bound(word as int, m);
    vstd::arithmetic::div_mod::lemma_small_mod(len as nat, m as nat);
    if word > max {
        vstd::arithmetic::div_mod::lemma_mod_sub_multiples_vanish(word as int, m);
    }
}

/// Every hour has a text of its own.
pub proof fn law_hours_have_their_own_text(a: int, b: int)
    requires
        hour_text(a) == hour_text(b),
    ensures
        a == b,
{
    lemma_decimal_bytes(if a < 0 { (-a) as nat } else { a as nat });
    lemma_decimal_bytes(if b < 0 { (-b) as nat } else { b as nat });
    let x = hour_text(a);
    let y = hour_text(b);
    assert(x[0] == y[0]);
    if a < 0 {
        assert(x.drop_first() =~= decimal_bytes((-a) as nat));
    }
    if b < 0 {
        assert(y.drop_first() =~= decimal_bytes((-b) as nat));
    }
}

spec fn value_of_bytes(s: Seq<u8>) -> int
    decreases s.len(),
{
    if s.len() == 0 {
        0
    } else {
        value_of_bytes(s.drop_last()) * 10 + (s.last() - 48)
    }
}

proof fn lemma_decimal_bytes(n: nat)
    ensures
        decimal_bytes(n).len() > 0,
        decimal_bytes(n)[0] >= 48,
        value_of_bytes(decimal_bytes(n)) == n,
    decreases n,
{
    let s = decimal_bytes(n);
    if n < 10 {
        assert(s.drop_last() =~= Seq::<u8>::empty());
        assert(value_of_bytes(s.drop_last()) == 0);
    } else {
        lemma_decimal_bytes(n / 10);
        assert(s.drop_last() =~= decimal_bytes(n / 10));
        assert(s[0] == decimal_bytes(n / 10)[0]);
    }
}

} // verus!
