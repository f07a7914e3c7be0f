//! Ephemeral seed material: two independent 256-bit seeds per session, kept in
//! memory only, wiped when dropped and replaced after a rotation interval.
use crate::bytes::{all_zero, all_zero_spec, equal};
use crate::clock::{Duration, Instant, NANOS_PER_SEC};
use crate::primitives::{blake3_keyed, keyed_hash, system_random, wipe};
use vstd::prelude::*;
use vstd::string::*;

verus! {

/// Bytes in a seed.
pub const SEED_LEN: usize = 32;

/// Seconds in the default rotation interval: one day.
pub const DEFAULT_ROTATION_SECS: u64 = 86_400;

/// What a seed may be used for.
#[derive(Clone, Copy, Debug, PartialEq, Eq, Structural)]
pub enum SeedRole {
    TimingAndPool,
    BurstComposition,
}

impl SeedRole {
    /// The role's name.
    pub open spec fn name_spec(self) -> Seq<char> {
        match self {
            SeedRole::TimingAndPool => "TimingAndPool"@,
            SeedRole::BurstComposition => "BurstComposition"@,
        }
    }

    /// The role's name.
    pub fn name(&self) -> (s: &'static str)
        ensures
            s@ == self.name_spec(),
    {
        match self {
            SeedRole::TimingAndPool => "TimingAndPool",
            SeedRole::BurstComposition => "BurstComposition",
        }
    }
}

/// Why seeds could not be made.
#[derive(Debug)]
pub enum SeedError {
    Random(getrandom::Error),
    AllZeroSeed { role: SeedRole },
    DuplicateSeeds,
    InvalidRotationInterval,
}

impl SeedError {
    /// Whether `text` describes this error.
    pub open spec fn described_by(self, text: Seq<char>) -> bool {
        match self {
            SeedError::Random(error) => exists|shown: String|
                #[trigger] to_string_from_display_ensures::<getrandom::Error>(&error, shown)
                    && text == "failed to read OS CSPRNG: "@ + shown@,
            SeedError::AllZeroSeed { role } => text == "generated all-zero seed for "@
                + role.name_spec(),
            SeedError::DuplicateSeeds => text == "generated duplicate dual-seed material"@,
            SeedError::InvalidRotationInterval => text
                == "seed rotation interval must be non-zero"@,
        }
    }

    /// The error in words.
    pub fn message(&self) -> (s: String)
        ensures
            self.described_by(s@),
    {
        match self {
            SeedError::Random(error) => {
                let shown = error.to_string();
                let mut s = String::from_str("failed to read OS CSPRNG: ");
                s.append(shown.as_str());
                s
            },
            SeedError::AllZeroSeed { role } => {
                let mut s = String::from_str("generated all-zero seed for ");
                s.append(role.name());
                s
            },
            SeedError::DuplicateSeeds => String::from_str("generated duplicate dual-seed material"),
            SeedError::InvalidRotationInterval => String::from_str(
                "seed rotation interval must be non-zero",
            ),
        }
    }
}

/// A 256-bit seed bound to one role. It cannot be copied or cloned, and its
/// bytes are wiped when it is dropped.
pub struct EphemeralSeed {
    role: SeedRole,
    bytes: [u8; 32],
}

impl EphemeralSeed {
    /// What the seed may be used for.
    pub closed spec fn spec_role(&self) -> SeedRole {
        self.role
    }

    /// The seed's bytes.
    pub closed spec fn material(&self) -> [u8; 32] {
        self.bytes
    }

    /// The outcome of making a seed from what the operating system supplied.
    pub open spec fn from_random_spec(
        role: SeedRole,
        random: Result<[u8; 32], getrandom::Error>,
        result: Result<EphemeralSeed, SeedError>,
    ) -> bool {
        match random {
            Err(e) => result == Err::<EphemeralSeed, SeedError>(SeedError::Random(e)),
            Ok(bytes) => if all_zero_spec(bytes@) {
                result == Err::<EphemeralSeed, SeedError>(SeedError::AllZeroSeed { role })
            } else {
                result is Ok && result->Ok_0.spec_role() == role && result->Ok_0.material()
                    == bytes
            },
        }
    }

    /// Makes a seed from what the operating system supplied. All-zero bytes are
    /// refused.
    pub fn from_random(role: SeedRole, random: Result<[u8; 32], getrandom::Error>) -> (r: Result<
        EphemeralSeed,
        SeedError,
    >)
        ensures
            Self::from_random_spec(role, random, r),
    {
        match random {
            Err(e) => Err(SeedError::Random(e)),
            Ok(bytes) => {
                if all_zero(bytes.as_slice()) {
                    return Err(SeedError::AllZeroSeed { role });
                }
                Ok(EphemeralSeed { role, bytes })
            },
        }
    }

    /// Draws a fresh seed from the operating system.
    fn generate(role: SeedRole) -> (r: Result<EphemeralSeed, SeedError>)
        ensures
            exists|random: Result<[u8; 32], getrandom::Error>|
                #[trigger] Self::from_random_spec(role, random, r),
    {
        let random = system_random();
        let ghost drawn = random;
        let r = Self::from_random(role, random);
        assert(Self::from_random_spec(role, drawn, r));
        r
    }

    /// Hands the seed bytes to `read` and returns what it returns.
    pub fn with_bytes<R, F: FnOnce(&[u8; 32]) -> R>(&self, read: F) -> (r: R)
        requires
            call_requires(read, (&self.material(),)),
        ensures
            call_ensures(read, (&self.material(),), r),
    {
        read(&self.bytes)
    }

    /// A subkey for `domain`, independent of every other domain's.
    pub fn derive_rng_seed(&self, domain: &[u8]) -> (key: [u8; 32])
        ensures
            key@ == blake3_keyed(self.material()@, domain@),
    {
        keyed_hash(&self.bytes, domain)
    }

    /// What the seed may be used for.
    pub fn role(&self) -> (r: SeedRole)
        ensures
            r == self.spec_role(),
    {
        self.role
    }

    /// How the seed is shown: its role, and never its bytes.
    pub open spec fn redacted_spec(role: SeedRole) -> Seq<char> {
        "EphemeralSeed { role: "@ + role.name_spec()
            + ", bytes: \"[redacted; zeroized on drop]\" }"@
    }

    /// Shows the seed without its bytes.
    pub fn redacted(&self) -> (s: String)
        ensures
            s@ == Self::redacted_spec(self.spec_role()),
    {
        let mut s = String::from_str("EphemeralSeed { role: ");
        s.append(self.role.name());
        s.append(", bytes: \"[redacted; zeroized on drop]\" }");
        s
    }
}

impl Drop for EphemeralSeed {
    fn drop(&mut self)
        opens_invariants none
        no_unwind
    {
        wipe(&mut self.bytes);
    }
}

/// The text of `{:?}` for a `std::time::Duration` of this many seconds and
/// nanoseconds.
pub uninterp spec fn duration_debug_text(secs: u64, nanos: u32) -> Seq<char>;

/// `Debug` of `std::time::Duration`. `Duration::new` panics only where the
/// nanoseconds carry into the seconds.
#[verifier::external_body]
fn duration_debug(secs: u64, nanos: u32) -> (s: String)
    requires
        nanos < NANOS_PER_SEC,
    ensures
        s@ == duration_debug_text(secs, nanos),
{
    format!("{:?}", std::time::Duration::new(secs, nanos))
}

/// The two seeds of a session: one for timing and pooling, one for burst
/// composition.
pub struct SessionSeeds {
    timing_and_pool: EphemeralSeed,
    burst_composition: EphemeralSeed,
    generated_at: Instant,
    rotation_interval: Duration,
}

impl SessionSeeds {
    /// The seed for timing and pooling.
    pub closed spec fn timing_seed(&self) -> EphemeralSeed {
        self.timing_and_pool
    }

    /// The seed for burst composition.
    pub closed spec fn burst_seed(&self) -> EphemeralSeed {
        self.burst_composition
    }

    /// When the seeds were made.
    pub closed spec fn born(&self) -> Instant {
        self.generated_at
    }

    /// How long the seeds may be used.
    pub closed spec fn interval(&self) -> Duration {
        self.rotation_interval
    }

    /// Each seed has its own role, the two differ, neither is all zero, and
    /// they expire.
    pub open spec fn wf(&self) -> bool {
        &&& self.timing_seed().spec_role() == SeedRole::TimingAndPool
        &&& self.burst_seed().spec_role() == SeedRole::BurstComposition
        &&& self.timing_seed().material()@ != self.burst_seed().material()@
        &&& !all_zero_spec(self.timing_seed().material()@)
        &&& !all_zero_spec(self.burst_seed().material()@)
        &&& self.interval().nanos > 0
    }

    /// The outcome of making seeds at `now`, given what the operating system
    /// supplied for the first seed and for the second.
    pub open spec fn generated(
        rotation_interval: Duration,
        now: Instant,
        first: Result<[u8; 32], getrandom::Error>,
        second: Result<[u8; 32], getrandom::Error>,
        r: Result<SessionSeeds, SeedError>,
    ) -> bool {
        if rotation_interval.nanos == 0 {
            r == Err::<SessionSeeds, SeedError>(SeedError::InvalidRotationInterval)
        } else if first is Err {
            r == Err::<SessionSeeds, SeedError>(SeedError::Random(first->Err_0))
        } else if all_zero_spec(first->Ok_0@) {
            r == Err::<SessionSeeds, SeedError>(
                SeedError::AllZeroSeed { role: SeedRole::TimingAndPool },
            )
        } else if second is Err {
            r == Err::<SessionSeeds, SeedError>(SeedError::Random(second->Err_0))
        } else if all_zero_spec(second->Ok_0@) {
            r == Err::<SessionSeeds, SeedError>(
                SeedError::AllZeroSeed { role: SeedRole::BurstComposition },
            )
        } else if first->Ok_0@ == second->Ok_0@ {
            r == Err::<SessionSeeds, SeedError>(SeedError::DuplicateSeeds)
        } else {
            &&& r is Ok
            &&& r->Ok_0.wf()
            &&& r->Ok_0.timing_seed().material() == first->Ok_0
            &&& r->Ok_0.burst_seed().material() == second->Ok_0
            &&& r->Ok_0.born() == now
            &&& r->Ok_0.interval() == rotation_interval
        }
    }

    /// Joins two seeds to a session's pair, unless they are the same.
    pub fn pair(
        timing_and_pool: EphemeralSeed,
        burst_composition: EphemeralSeed,
        rotation_interval: Duration,
        now: Instant,
    ) -> (r: Result<SessionSeeds, SeedError>)
        ensures
            timing_and_pool.material()@ == burst_composition.material()@ <==> r is Err,
            r is Err ==> r->Err_0 == SeedError::DuplicateSeeds,
            r is Ok ==> r->Ok_0.timing_seed() == timing_and_pool && r->Ok_0.burst_seed()
                == burst_composition && r->Ok_0.born() == now && r->Ok_0.interval()
                == rotation_interval,
    {
        if equal(timing_and_pool.bytes.as_slice(), burst_composition.bytes.as_slice()) {
            return Err(SeedError::DuplicateSeeds);
        }
        Ok(
            SessionSeeds {
                timing_and_pool,
                burst_composition,
                generated_at: now,
                rotation_interval,
            },
        )
    }

    /// Draws seeds that are to be rotated once a day.
    pub fn generate(now: Instant) -> (r: Result<SessionSeeds, SeedError>)
        ensures
            exists|first: Result<[u8; 32], getrandom::Error>, second: Result<[u8; 32], getrandom::Error>|
                #[trigger] Self::generated(
                    Duration { nanos: (DEFAULT_ROTATION_SECS * NANOS_PER_SEC) as u128 },
                    now,
                    first,
                    second,
                    r,
                ),
    {
        let interval = Duration::from_secs(DEFAULT_ROTATION_SECS);
        assert(interval == (Duration {
            nanos: (DEFAULT_ROTATION_SECS * NANOS_PER_SEC) as u128,
        }));
        Self::generate_with_rotation_interval(interval, now)
    }

    /// Draws seeds that are to be rotated once `rotation_interval` has passed.
    pub fn generate_with_rotation_interval(rotation_interval: Duration, now: Instant) -> (r: Result<
        SessionSeeds,
        SeedError,
    >)
        ensures
            r == Err::<SessionSeeds, SeedError>(SeedError::InvalidRotationInterval) <==>
                rotation_interval.nanos == 0,
            exists|first: Result<[u8; 32], getrandom::Error>, second: Result<[u8; 32], getrandom::Error>|
                #[trigger] Self::generated(rotation_interval, now, first, second, r),
    {
        let ghost nothing: Result<[u8; 32], getrandom::Error> = arbitrary();
        if rotation_interval.is_zero() {
            let r = Err(SeedError::InvalidRotationInterval);
            assert(Self::generated(rotation_interval, now, nothing, nothing, r));
            return r;
        }
        let a = EphemeralSeed::generate(SeedRole::TimingAndPool);
        let ghost first = choose|random: Result<[u8; 32], getrandom::Error>|
            #[trigger] EphemeralSeed::from_random_spec(SeedRole::TimingAndPool, random, a);
        let timing_and_pool = match a {
            Ok(seed) => seed,
            Err(e) => {
                let r = Err(e);
                assert(Self::generated(rotation_interval, now, first, nothing, r));
                return r;
            },
        };
        let b = EphemeralSeed::generate(SeedRole::BurstComposition);
        let ghost second = choose|random: Result<[u8; 32], getrandom::Error>|
            #[trigger] EphemeralSeed::from_random_spec(SeedRole::BurstComposition, random, b);
        let burst_composition = match b {
            Ok(seed) => seed,
            Err(e) => {
                let r = Err(e);
                assert(Self::generated(rotation_interval, now, first, second, r));
                return r;
            },
        };
        let r = Self::pair(timing_and_pool, burst_composition, rotation_interval, now);
        assert(Self::generated(rotation_interval, now, first, second, r));
        r
    }

    /// The seed for timing and pooling.
    pub fn timing_and_pool(&self) -> (seed: &EphemeralSeed)
        ensures
            *seed == self.timing_seed(),
    {
        &self.timing_and_pool
    }

    /// The seed for burst composition.
    pub fn burst_composition(&self) -> (seed: &EphemeralSeed)
        ensures
            *seed == self.burst_seed(),
    {
        &self.burst_composition
    }

    /// Whether the rotation interval has passed at `now`.
    pub fn should_rotate(&self, now: Instant) -> (b: bool)
        requires
            self.wf(),
        ensures
            b == (now.nanos >= self.born().nanos + self.interval().nanos),
    {
        now.since(self.generated_at).nanos >= self.rotation_interval.nanos
    }

    /// Puts a new pair in the place of the old one, date and interval included.
    /// Where there is none, the old pair stays and the error is handed on.
    pub fn adopt(&mut self, next: Result<SessionSeeds, SeedError>) -> (r: Result<(), SeedError>)
        ensures
            match next {
                Ok(pair) => r is Ok && *final(self) == pair,
                Err(e) => r == Err::<(), SeedError>(e) && *final(self) == *old(self),
            },
    {
        match next {
            Ok(pair) => {
                *self = pair;
                Ok(())
            },
            Err(e) => Err(e),
        }
    }

    /// Replaces both seeds by fresh ones with the same rotation interval. On an
    /// error the old seeds stay.
    pub fn rotate(&mut self, now: Instant) -> (r: Result<(), SeedError>)
        requires
            old(self).wf(),
        ensures
            final(self).wf(),
            final(self).interval() == old(self).interval(),
            r is Err ==> *final(self) == *old(self),
            r is Ok ==> final(self).born() == now,
            exists|
                first: Result<[u8; 32], getrandom::Error>,
                second: Result<[u8; 32], getrandom::Error>,
                next: Result<SessionSeeds, SeedError>,
            |
                #[trigger] Self::generated(old(self).interval(), now, first, second, next) && match r {
                    Ok(_) => next is Ok && *final(self) == next->Ok_0,
                    Err(e) => next == Err::<SessionSeeds, SeedError>(e),
                },
    {
        let next = Self::generate_with_rotation_interval(self.rotation_interval, now);
        self.adopt(next)
    }

    /// How long the seeds may be used.
    pub fn rotation_interval(&self) -> (d: Duration)
        ensures
            d == self.interval(),
    {
        self.rotation_interval
    }

    /// How a pair of seeds is shown: the roles and the interval, and never the
    /// bytes.
    pub open spec fn redacted_spec(
        first: SeedRole,
        second: SeedRole,
        interval: Duration,
    ) -> Seq<char> {
        "SessionSeeds { timing_and_pool: "@ + EphemeralSeed::redacted_spec(first)
            + ", burst_composition: "@ + EphemeralSeed::redacted_spec(second)
            + ", rotation_interval: "@ + duration_debug_text(
            (interval.nanos / NANOS_PER_SEC) as u64,
            (interval.nanos % NANOS_PER_SEC) as u32,
        ) + " }"@
    }

    /// Shows the seeds without their bytes.
    pub fn redacted(&self) -> (s: String)
        requires
            self.interval().nanos / NANOS_PER_SEC <= u64::MAX,
        ensures
            s@ == Self::redacted_spec(
                self.timing_seed().spec_role(),
                self.burst_seed().spec_role(),
                self.interval(),
            ),
    {
        let secs: u64 = (self.rotation_interval.nanos / NANOS_PER_SEC) as u64;
        let nanos: u32 = (self.rotation_interval.nanos % NANOS_PER_SEC) as u32;
        let shown = duration_debug(secs, nanos);
        let mut s = String::from_str("SessionSeeds { timing_and_pool: ");
        s.append(self.timing_and_pool.redacted().as_str());
        s.append(", burst_composition: ");
        s.append(self.burst_composition.redacted().as_str());
        s.append(", rotation_interval: ");
        s.append(shown.as_str());
        s.append(" }");
        s
    }
}

/// When seeds come of what the operating system supplies: exactly when they are
/// to last some time, both draws succeed, neither is all zero and the two differ.
/// They are then those that were drawn, the first for timing and pooling.
pub proof fn law_seeds_are_what_was_drawn(
    interval: Duration,
    now: Instant,
    first: Result<[u8; 32], getrandom::Error>,
    second: Result<[u8; 32], getrandom::Error>,
    r: Result<SessionSeeds, SeedError>,
)
    requires
        SessionSeeds::generated(interval, now, first, second, r),
    ensures
        r is Ok <==> interval.nanos > 0 && first is Ok && second is Ok && first->Ok_0@
            != second->Ok_0@ && (exists|i: int| 0 <= i < 32 && #[trigger] first->Ok_0@[i] != 0)
            && (exists|i: int| 0 <= i < 32 && #[trigger] second->Ok_0@[i] != 0),
        r is Ok ==> {
            &&& r->Ok_0.timing_seed().material() == first->Ok_0
            &&& r->Ok_0.burst_seed().material() == second->Ok_0
            &&& r->Ok_0.timing_seed().spec_role() == SeedRole::TimingAndPool
            &&& r->Ok_0.burst_seed().spec_role() == SeedRole::BurstComposition
            &&& r->Ok_0.born() == now
            &&& r->Ok_0.interval() == interval
        },
{
    if first is Ok {
        if all_zero_spec(first->Ok_0@) {
            assert forall|i: int| 0 <= i < 32 implies #[trigger] first->Ok_0@[i] == 0 by {}
        } else {
            assert(exists|i: int| 0 <= i < 32 && #[trigger] first->Ok_0@[i] != 0);
        }
    }
    if second is Ok {
        if all_zero_spec(second->Ok_0@) {
            assert forall|i: int| 0 <= i < 32 implies #[trigger] second->Ok_0@[i] == 0 by {}
        } else {
            assert(exists|i: int| 0 <= i < 32 && #[trigger] second->Ok_0@[i] != 0);
        }
    }
}

} // verus!
