//! A seeded ChaCha20 generator whose output is a function of its seed and of
//! the draws made from it so far.
use rand::{Rng, RngCore};
use rand_chacha::rand_core::SeedableRng;
use rand_chacha::ChaCha20Rng;
use vstd::prelude::*;

verus! {

/// The generator itself; nothing inside it is visible to proofs.
#[verifier::external_type_specification]
#[verifier::external_body]
pub struct ExChaCha20Rng(ChaCha20Rng);

/// One request made of a generator.
#[allow(inconsistent_fields)]
pub enum Draw {
    /// 32 uniform bits.
    Word32,
    /// 64 uniform bits.
    Word64,
    /// A uniform 32-bit integer between two bounds, both included.
    Range32 { lo: u32, hi: u32 },
    /// A uniform 64-bit integer between two bounds, both included.
    Range64 { lo: u64, hi: u64 },
    /// A truth value that holds `numerator` times out of `denominator`.
    Ratio { numerator: u32, denominator: u32 },
    /// A run of uniform bytes.
    Bytes { len: nat },
}

impl Draw {
    /// The request for a count between two bounds.
    pub open spec fn count(lo: usize, hi: usize) -> Draw {
        if usize::MAX <= u32::MAX {
            Draw::Range32 { lo: lo as u32, hi: hi as u32 }
        } else {
            Draw::Range64 { lo: lo as u64, hi: hi as u64 }
        }
    }
}

/// What a generator's future output depends on: the seed it was made from and
/// the requests already answered, in order.
pub struct RngState {
    pub seed: Seq<u8>,
    pub log: Seq<Draw>,
}

impl RngState {
    /// The state of a fresh generator.
    pub open spec fn fresh(seed: Seq<u8>) -> RngState {
        RngState { seed, log: Seq::empty() }
    }

    /// The state once one more request has been answered.
    pub open spec fn then_draw(self, d: Draw) -> RngState {
        RngState { seed: self.seed, log: self.log.push(d) }
    }

    /// The answer to [`Draw::Word32`] in this state.
    pub open spec fn word32(self) -> u32 {
        drawn_word32(self.seed, self.log)
    }

    /// The answer to [`Draw::Word64`] in this state.
    pub open spec fn word64(self) -> u64 {
        drawn_word64(self.seed, self.log)
    }

    /// The answer to [`Draw::Range32`] in this state, which lies between the
    /// bounds.
    pub open spec fn range32(self, lo: u32, hi: u32) -> u32 {
        let drawn = drawn_range32(self.seed, self.log, lo, hi);
        if lo <= drawn <= hi {
            drawn
        } else {
            lo
        }
    }

    /// The answer to [`Draw::Range64`] in this state, which lies between the
    /// bounds.
    pub open spec fn range64(self, lo: u64, hi: u64) -> u64 {
        let drawn = drawn_range64(self.seed, self.log, lo, hi);
        if lo <= drawn <= hi {
            drawn
        } else {
            lo
        }
    }

    /// The count between two bounds, both included, that is drawn in this state.
    /// Counts are drawn as integers as wide as a `usize`.
    pub open spec fn count(self, lo: usize, hi: usize) -> usize {
        if usize::MAX <= u32::MAX {
            self.range32(lo as u32, hi as u32) as usize
        } else {
            self.range64(lo as u64, hi as u64) as usize
        }
    }

    /// The answer to [`Draw::Ratio`] in this state.
    pub open spec fn ratio(self, numerator: u32, denominator: u32) -> bool {
        drawn_ratio(self.seed, self.log, numerator, denominator)
    }

    /// The answer to [`Draw::Bytes`] in this state.
    pub open spec fn bytes(self, len: nat) -> Seq<u8> {
        Seq::new(len, |i: int| drawn_bytes(self.seed, self.log, len)[i])
    }
}

/// The 32-bit word that `RngCore::next_u32` returns on a ChaCha20 generator
/// with this seed once the requests in `log` have been answered.
pub uninterp spec fn drawn_word32(seed: Seq<u8>, log: Seq<Draw>) -> u32;

/// The 64-bit word that `RngCore::next_u64` returns in that state.
pub uninterp spec fn drawn_word64(seed: Seq<u8>, log: Seq<Draw>) -> u64;

/// The integer that `Rng::gen_range(lo..=hi)` over `u32` returns in that state.
pub uninterp spec fn drawn_range32(seed: Seq<u8>, log: Seq<Draw>, lo: u32, hi: u32) -> u32;

/// The integer that `Rng::gen_range(lo..=hi)` over `u64` returns in that state.
pub uninterp spec fn drawn_range64(seed: Seq<u8>, log: Seq<Draw>, lo: u64, hi: u64) -> u64;

/// The truth value that `Rng::gen_ratio` returns in that state.
pub uninterp spec fn drawn_ratio(seed: Seq<u8>, log: Seq<Draw>, numerator: u32, denominator: u32) -> bool;

/// The bytes that `RngCore::fill_bytes` writes to a buffer of `len` bytes in
/// that state.
pub uninterp spec fn drawn_bytes(seed: Seq<u8>, log: Seq<Draw>, len: nat) -> Seq<u8>;

/// A ChaCha20 generator together with the history that determines its output.
pub struct SeededRng {
    rng: ChaCha20Rng,
    state: Ghost<RngState>,
}

impl View for SeededRng {
    type V = RngState;

    closed spec fn view(&self) -> RngState {
        self.state@
    }
}

impl SeededRng {
    /// `ChaCha20Rng::from_seed`: a generator with no request answered yet. Its
    /// output is fixed by the 32 seed bytes.
    #[verifier::external_body]
    fn from_seed(seed: [u8; 32]) -> (r: SeededRng)
        ensures
            r@ == RngState::fresh(seed@),
    {
        SeededRng { rng: ChaCha20Rng::from_seed(seed), state: Ghost(RngState::fresh(seed@)) }
    }

    /// `RngCore::next_u32` on the generator.
    #[verifier::external_body]
    fn draw_word32(&mut self) -> (w: u32)
        ensures
            w == drawn_word32(old(self)@.seed, old(self)@.log),
            final(self)@ == old(self)@.then_draw(Draw::Word32),
    {
        self.rng.next_u32()
    }

    /// `RngCore::next_u64` on the generator.
    #[verifier::external_body]
    fn draw_word64(&mut self) -> (w: u64)
        ensures
            w == drawn_word64(old(self)@.seed, old(self)@.log),
            final(self)@ == old(self)@.then_draw(Draw::Word64),
    {
        self.rng.next_u64()
    }

    /// `Rng::gen_range` on an inclusive range of `u32`. The result lies in the
    /// range; the call panics on an empty one.
    #[verifier::external_body]
    fn draw_range32(&mut self, lo: u32, hi: u32) -> (n: u32)
        requires
            lo <= hi,
        ensures
            n == drawn_range32(old(self)@.seed, old(self)@.log, lo, hi),
            lo <= n <= hi,
            final(self)@ == old(self)@.then_draw(Draw::Range32 { lo, hi }),
    {
        self.rng.gen_range(lo..=hi)
    }

    /// `Rng::gen_range` on an inclusive range of `u64`. The result lies in the
    /// range; the call panics on an empty one.
    #[verifier::external_body]
    fn draw_range64(&mut self, lo: u64, hi: u64) -> (n: u64)
        requires
            lo <= hi,
        ensures
            n == drawn_range64(old(self)@.seed, old(self)@.log, lo, hi),
            lo <= n <= hi,
            final(self)@ == old(self)@.then_draw(Draw::Range64 { lo, hi }),
    {
        self.rng.gen_range(lo..=hi)
    }

    /// `Rng::gen_ratio`. The result is true if the numerator equals the
    /// denominator and false if the numerator is zero; the call panics if the
    /// ratio exceeds one or the denominator is zero.
    #[verifier::external_body]
    fn draw_ratio(&mut self, numerator: u32, denominator: u32) -> (b: bool)
        requires
            numerator <= denominator,
            denominator > 0,
        ensures
            b == drawn_ratio(old(self)@.seed, old(self)@.log, numerator, denominator),
            numerator == denominator ==> b,
            numerator == 0 ==> !b,
            final(self)@ == old(self)@.then_draw(Draw::Ratio { numerator, denominator }),
    {
        self.rng.gen_ratio(numerator, denominator)
    }

    /// `Rng::fill` on a buffer of `len` bytes, which it overwrites in full.
    #[verifier::external_body]
    fn draw_bytes(&mut self, len: usize) -> (bytes: Vec<u8>)
        ensures
            bytes@ == drawn_bytes(old(self)@.seed, old(self)@.log, len as nat),
            bytes@.len() == len,
            final(self)@ == old(self)@.then_draw(Draw::Bytes { len: len as nat }),
    {
        let mut bytes: Vec<u8> = vec![0u8; len];
        self.rng.fill(bytes.as_mut_slice());
        bytes
    }

    /// The generator with this seed.
    pub fn new(seed: [u8; 32]) -> (r: SeededRng)
        ensures
            r@ == RngState::fresh(seed@),
    {
        Self::from_seed(seed)
    }

    /// 32 uniform bits.
    pub fn next_u32(&mut self) -> (w: u32)
        ensures
            w == old(self)@.word32(),
            final(self)@ == old(self)@.then_draw(Draw::Word32),
    {
        self.draw_word32()
    }

    /// 64 uniform bits.
    pub fn next_u64(&mut self) -> (w: u64)
        ensures
            w == old(self)@.word64(),
            final(self)@ == old(self)@.then_draw(Draw::Word64),
    {
        self.draw_word64()
    }

    /// A uniform integer between `lo` and `hi`, both included.
    pub fn range_u32(&mut self, lo: u32, hi: u32) -> (n: u32)
        requires
            lo <= hi,
        ensures
            n == old(self)@.range32(lo, hi),
            lo <= n <= hi,
            final(self)@ == old(self)@.then_draw(Draw::Range32 { lo, hi }),
    {
        self.draw_range32(lo, hi)
    }

    /// A uniform integer between `lo` and `hi`, both included.
    pub fn range_u64(&mut self, lo: u64, hi: u64) -> (n: u64)
        requires
            lo <= hi,
        ensures
            n == old(self)@.range64(lo, hi),
            lo <= n <= hi,
            final(self)@ == old(self)@.then_draw(Draw::Range64 { lo, hi }),
    {
        self.draw_range64(lo, hi)
    }

    /// A uniform count between `lo` and `hi`, both included, drawn as an integer
    /// as wide as a `usize`.
    pub fn range_usize(&mut self, lo: usize, hi: usize) -> (n: usize)
        requires
            lo <= hi,
        ensures
            n == old(self)@.count(lo, hi),
            lo <= n <= hi,
            final(self)@ == old(self)@.then_draw(Draw::count(lo, hi)),
    {
        if usize::MAX as u64 <= u32::MAX as u64 {
            self.draw_range32(lo as u32, hi as u32) as usize
        } else {
            self.draw_range64(lo as u64, hi as u64) as usize
        }
    }

    /// True `numerator` times out of `denominator`.
    pub fn ratio(&mut self, numerator: u32, denominator: u32) -> (b: bool)
        requires
            numerator <= denominator,
            denominator > 0,
        ensures
            b == old(self)@.ratio(numerator, denominator),
            final(self)@ == old(self)@.then_draw(Draw::Ratio { numerator, denominator }),
    {
        self.draw_ratio(numerator, denominator)
    }

    /// `len` uniform bytes.
    pub fn bytes(&mut self, len: usize) -> (bytes: Vec<u8>)
        ensures
            bytes@ == old(self)@.bytes(len as nat),
            bytes@.len() == len,
            final(self)@ == old(self)@.then_draw(Draw::Bytes { len: len as nat }),
    {
        let bytes = self.draw_bytes(len);
        assert(bytes@ =~= old(self)@.bytes(len as nat));
        bytes
    }
}

} // verus!
