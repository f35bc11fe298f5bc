//! Traffic shaping for TCP: a cap on the bandwidth, a random delay for each
//! chunk, and the size of the chunks.

use std::time::Instant;

use vstd::arithmetic::div_mod::lemma_small_mod;
use vstd::prelude::*;

use crate::plugin::Direction;
use crate::text::str_eq;
use crate::time::{duration_between, nanos_between, unix_time, Duration};

verus! {

/// Which direction of a connection is shaped. "In" is the traffic from the
/// client in to the target, "out" is the traffic back out to the client.
#[derive(Debug, Clone, Copy, PartialEq, Eq, Structural)]
pub enum WaitInOut {
    In,
    Out,
    Both,
}

impl Default for WaitInOut {
    fn default() -> (w: Self)
        ensures
            w == WaitInOut::Both,
    {
        WaitInOut::Both
    }
}

impl WaitInOut {
    pub open spec fn selects(self, direction: Direction) -> bool {
        match self {
            WaitInOut::In => direction == Direction::ClientToTarget,
            WaitInOut::Out => direction == Direction::TargetToClient,
            WaitInOut::Both => true,
        }
    }

    /// Whether traffic in this direction is shaped.
    pub fn applies_to(self, direction: Direction) -> (applies: bool)
        ensures
            applies == self.selects(direction),
    {
        match self {
            WaitInOut::In => direction == Direction::ClientToTarget,
            WaitInOut::Out => direction == Direction::TargetToClient,
            WaitInOut::Both => true,
        }
    }

    pub open spec fn word(self) -> Seq<char> {
        match self {
            WaitInOut::In => "in"@,
            WaitInOut::Out => "out"@,
            WaitInOut::Both => "both"@,
        }
    }

    /// The word for it, as it is written on a command line.
    pub fn as_str(self) -> (word: &'static str)
        ensures
            word@ == self.word(),
    {
        match self {
            WaitInOut::In => "in",
            WaitInOut::Out => "out",
            WaitInOut::Both => "both",
        }
    }

    /// Reads the word for it.
    pub fn parse_word(s: &str) -> (result: Result<WaitInOut, String>)
        ensures
            match result {
                Ok(w) => w.word() == s@,
                Err(e) => s@ != "in"@ && s@ != "out"@ && s@ != "both"@ && e@
                    == wait_in_out_error(s@),
            },
    {
        if str_eq(s, "in") {
            Ok(WaitInOut::In)
        } else if str_eq(s, "out") {
            Ok(WaitInOut::Out)
        } else if str_eq(s, "both") {
            Ok(WaitInOut::Both)
        } else {
            let mut text = "invalid wait-in-out value ".to_string();
            text.append(debug_quote(s).as_str());
            text.append(" (expected in, out, or both)");
            Err(text)
        }
    }
}

/// What is said of a word that is none of the three.
pub open spec fn wait_in_out_error(s: Seq<char>) -> Seq<char> {
    "invalid wait-in-out value "@ + debug_quoted(s) + " (expected in, out, or both)"@
}

/// Different directions have different words, so that each word is read as the
/// one that it was written for.
pub proof fn words_are_distinct(a: WaitInOut, b: WaitInOut)
    ensures
        a.word() == b.word() ==> a == b,
{
    reveal_strlit("in");
    reveal_strlit("out");
    reveal_strlit("both");
    assert("in"@.len() == 2 && "out"@.len() == 3 && "both"@.len() == 4);
}

impl std::str::FromStr for WaitInOut {
    type Err = String;

    fn from_str(s: &str) -> (result: Result<Self, String>)
        ensures
            match result {
                Ok(w) => w.word() == s@,
                Err(e) => s@ != "in"@ && s@ != "out"@ && s@ != "both"@ && e@
                    == wait_in_out_error(s@),
            },
    {
        WaitInOut::parse_word(s)
    }
}

/// Text as `std` shows it to a programmer: in quotes, with escapes.
pub uninterp spec fn debug_quoted(s: Seq<char>) -> Seq<char>;

/// `str`'s `Debug`: the text in quotes, with escapes. Which characters are
/// escaped is left to `std`.
#[verifier::external_body]
pub(crate) fn debug_quote(s: &str) -> (text: String)
    ensures
        text@ == debug_quoted(s@),
{
    format!("{s:?}")
}

/// How a connection is shaped.
#[derive(Debug, Clone, Copy, PartialEq, Eq, Structural)]
pub struct ShapingConfig {
    /// Bits per second, where there is a cap.
    pub max_bandwidth_bps: Option<u64>,
    pub wait_in_out: WaitInOut,
    /// Milliseconds that a chunk is delayed at most, where it is.
    pub random_wait_ms: Option<u64>,
    /// Size of the chunks. Smaller ones are paced more evenly and cost more.
    pub bufsize: usize,
}

impl ShapingConfig {
    /// Whether chunks are ever delayed.
    pub fn is_active(&self) -> (active: bool)
        ensures
            active == (self.max_bandwidth_bps is Some || self.random_wait_ms is Some),
    {
        self.max_bandwidth_bps.is_some() || self.random_wait_ms.is_some()
    }
}

/// The nanoseconds that sending some bytes takes at a rate, rounded up.
pub open spec fn nanos_to_send(bytes: nat, bits_per_sec: nat) -> nat
    recommends
        bits_per_sec > 0,
{
    ((bytes * 8_000_000_000 + bits_per_sec - 1) / bits_per_sec as int) as nat
}

/// Nanoseconds after which a limiter starts to count anew.
pub const LIMITER_WINDOW_NANOS: u128 = 10_000_000_000;

/// Counts the bytes sent against a cap, and says how long to wait before the
/// next chunk.
pub struct RateLimiter {
    pub bits_per_sec: u64,
    pub window_start: Instant,
    pub bytes_sent: u64,
}

impl RateLimiter {
    /// Whether `n` more bytes can be counted: there is a rate, and neither the
    /// count nor the time at that rate, in whole seconds, takes more than 64
    /// bits.
    pub open spec fn can_count(&self, n: nat) -> bool {
        &&& self.bits_per_sec > 0
        &&& self.bytes_sent + n <= u64::MAX
        &&& (self.bytes_sent + n) * 8 < self.bits_per_sec * 0x1_0000_0000_0000_0000
    }

    /// The limiter after `n` more bytes, `elapsed` after it has started.
    pub open spec fn after(&self, n: nat, elapsed: Duration, now: Instant) -> RateLimiter {
        if elapsed.nanos > LIMITER_WINDOW_NANOS {
            RateLimiter { bits_per_sec: self.bits_per_sec, window_start: now, bytes_sent: 0 }
        } else {
            RateLimiter {
                bits_per_sec: self.bits_per_sec,
                window_start: self.window_start,
                bytes_sent: (self.bytes_sent + n) as u64,
            }
        }
    }

    /// How long to wait after `n` more bytes, `elapsed` after the limiter has
    /// started.
    pub open spec fn wait(&self, n: nat, elapsed: Duration) -> nat {
        let expected = nanos_to_send((self.bytes_sent + n) as nat, self.bits_per_sec as nat);
        if expected > elapsed.nanos {
            (expected - elapsed.nanos) as nat
        } else {
            0
        }
    }

    /// Whether `n` more bytes can be counted.
    pub fn has_room_for(&self, n: usize) -> (has_room: bool)
        ensures
            has_room == self.can_count(n as nat),
    {
        self.bits_per_sec > 0 && self.bytes_sent <= u64::MAX - n as u64 && (self.bytes_sent
            + n as u64) as u128 * 8 < self.bits_per_sec as u128 * 0x1_0000_0000_0000_0000
    }

    /// A limiter that starts now.
    pub fn new(bits_per_sec: u64) -> (limiter: Self)
        ensures
            limiter.bits_per_sec == bits_per_sec,
            limiter.bytes_sent == 0,
    {
        RateLimiter { bits_per_sec, window_start: Instant::now(), bytes_sent: 0 }
    }

    /// Counts `n` more bytes, `elapsed` after the limiter has started, and
    /// returns how long to wait so that the average rate stays within the cap.
    /// It starts anew from time to time, so that the count does not grow
    /// without bounds.
    pub fn wait_for_at(&mut self, n: usize, elapsed: Duration, now: Instant) -> (wait: Duration)
        requires
            old(self).can_count(n as nat),
        ensures
            wait.nanos == old(self).wait(n as nat, elapsed),
            *final(self) == old(self).after(n as nat, elapsed, now),
    {
        self.bytes_sent = self.bytes_sent + n as u64;
        let scaled: u128 = self.bytes_sent as u128 * 8_000_000_000 + self.bits_per_sec as u128 - 1;
        let expected = Duration::from_nanos(scaled / self.bits_per_sec as u128);
        if elapsed.nanos > LIMITER_WINDOW_NANOS {
            self.window_start = now;
            self.bytes_sent = 0;
        }
        expected.saturating_sub(elapsed)
    }

    /// Counts `n` more bytes sent by now, and returns how long to wait so that
    /// the average rate stays within the cap.
    pub fn wait_for(&mut self, n: usize) -> (wait: Duration)
        requires
            old(self).can_count(n as nat),
        ensures
            exists|now: Instant, elapsed: Duration|
                {
                    &&& elapsed.nanos == nanos_between(now, old(self).window_start)
                    &&& wait.nanos == old(self).wait(n as nat, elapsed)
                    &&& *final(self) == #[trigger] old(self).after(n as nat, elapsed, now)
                },
    {
        let now = Instant::now();
        let elapsed = duration_between(now, self.window_start);
        self.wait_for_at(n, elapsed, now)
    }
}

/// Once the wait is over, the average rate since the limiter has started is
/// within the cap: in the time that has passed, at least as many bits could
/// have been sent as were.
pub proof fn rate_stays_within_cap(limiter: &RateLimiter, n: nat, elapsed: Duration)
    requires
        limiter.bits_per_sec > 0,
    ensures
        (limiter.bytes_sent + n) * 8_000_000_000 <= (elapsed.nanos + limiter.wait(n, elapsed))
            * limiter.bits_per_sec,
{
    let bits = (limiter.bytes_sent + n) * 8_000_000_000;
    let rate = limiter.bits_per_sec as int;
    let expected = nanos_to_send((limiter.bytes_sent + n) as nat, rate as nat);
    let waited = elapsed.nanos + limiter.wait(n, elapsed);
    assert(expected * rate >= bits) by (nonlinear_arith)
        requires
            rate > 0,
            expected == (bits + rate - 1) / rate,
    ;
    assert(waited * rate >= expected * rate) by (nonlinear_arith)
        requires
            waited >= expected,
            rate > 0,
    ;
}

/// Sending nothing since the limiter has started takes no wait.
pub proof fn nothing_sent_needs_no_wait(limiter: &RateLimiter, elapsed: Duration)
    requires
        limiter.bits_per_sec > 0,
        limiter.bytes_sent == 0,
    ensures
        limiter.wait(0, elapsed) == 0,
{
    let rate = limiter.bits_per_sec as int;
    assert((rate - 1) / rate == 0) by (nonlinear_arith)
        requires
            rate > 0,
    ;
}

/// A small random number generator.
pub struct Jitter(pub u64);

/// The number that follows `x`.
pub open spec fn xorshift(x: u64) -> u64 {
    let a = x ^ (x << 13);
    let b = a ^ (a >> 7);
    b ^ (b << 17)
}

/// The milliseconds that a number drawn at random stands for: it is folded into
/// what is allowed. Where every number is allowed, it stands as it is.
pub open spec fn drawn_ms(draw: u64, max_ms: u64) -> nat {
    draw as nat % (max_ms as nat + 1)
}

/// The first state for a reading of the wall clock: an odd number, so never
/// zero.
pub open spec fn jitter_seed(since_epoch: Option<Duration>) -> u64 {
    let bits = match since_epoch {
        Some(d) => (d.nanos % 0x1_0000_0000_0000_0000) as u64,
        None => 0x9E3779B97F4A7C15,
    };
    bits | 1
}

impl Jitter {
    /// The generator needs a state other than zero.
    pub open spec fn wf(&self) -> bool {
        self.0 != 0
    }

    /// A generator whose numbers depend on the wall clock.
    pub fn new() -> (jitter: Self)
        ensures
            jitter.wf(),
            exists|clock: Option<Duration>| jitter.0 == #[trigger] jitter_seed(clock),
    {
        Self::at(unix_time())
    }

    /// A generator for a given reading of the wall clock.
    pub fn at(since_epoch: Option<Duration>) -> (jitter: Self)
        ensures
            jitter.wf(),
            jitter.0 == jitter_seed(since_epoch),
    {
        let bits: u64 = match since_epoch {
            Some(d) => (d.nanos % 0x1_0000_0000_0000_0000) as u64,
            None => 0x9E3779B97F4A7C15,
        };
        assert(bits | 1 != 0) by (bit_vector);
        Jitter(bits | 1)
    }

    fn next_u64(&mut self) -> (x: u64)
        ensures
            x == xorshift(old(self).0),
            final(self).0 == x,
            old(self).wf() ==> final(self).wf(),
    {
        let mut x: u64 = self.0;
        proof {
            xorshift_keeps_nonzero(x);
        }
        x = x ^ (x << 13);
        x = x ^ (x >> 7);
        x = x ^ (x << 17);
        self.0 = x;
        x
    }

    /// A random delay of at most `max_ms` milliseconds.
    pub fn random_wait(&mut self, max_ms: u64) -> (wait: Duration)
        ensures
            wait.nanos <= max_ms * 1_000_000,
            max_ms == 0 ==> wait.nanos == 0 && *final(self) == *old(self),
            max_ms > 0 ==> final(self).0 == xorshift(old(self).0) && wait.nanos == drawn_ms(
                final(self).0,
                max_ms,
            ) * 1_000_000,
            old(self).wf() ==> final(self).wf(),
    {
        if max_ms == 0 {
            return Duration::from_millis(0);
        }
        let draw: u64 = self.next_u64();
        if max_ms == u64::MAX {
            proof {
                lemma_small_mod(draw as nat, max_ms as nat + 1);
            }
            return Duration::from_millis(draw);
        }
        Duration::from_millis(draw % (max_ms + 1))
    }
}

impl Default for Jitter {
    fn default() -> (jitter: Self)
        ensures
            jitter.wf(),
            exists|clock: Option<Duration>| jitter.0 == #[trigger] jitter_seed(clock),
    {
        Self::new()
    }
}

/// The generator never comes to zero, from which it would not get away.
pub proof fn xorshift_keeps_nonzero(x: u64)
    ensures
        x != 0 ==> xorshift(x) != 0,
{
    assert(x != 0 ==> x ^ (x << 13) != 0) by (bit_vector);
    let a = x ^ (x << 13);
    assert(a != 0 ==> a ^ (a >> 7) != 0) by (bit_vector);
    let b = a ^ (a >> 7);
    assert(b != 0 ==> b ^ (b << 17) != 0) by (bit_vector);
}

/// Chunk size of a copy that is not shaped.
pub const DEFAULT_CHUNK_SIZE: usize = 16_384;

/// How one direction of a connection is copied, chunk by chunk.
pub struct ShapedCopy {
    pub chunk_size: usize,
    pub limiter: Option<RateLimiter>,
    pub jitter: Option<Jitter>,
    pub random_wait_ms: u64,
    pub total: u64,
}

/// How long to wait after a chunk: for the cap first, then at random.
#[derive(Debug, Clone, Copy, PartialEq, Eq, Structural)]
pub struct ChunkWaits {
    pub limit: Duration,
    pub jitter: Duration,
}

/// Whether a copy is set up as asked for one direction.
pub open spec fn copy_is_set_up(
    shaping: Option<&ShapingConfig>,
    direction: Direction,
    copy: ShapedCopy,
) -> bool {
    let applies = shaping is Some && shaping->0.wait_in_out.selects(direction);
    &&& copy.total == 0
    &&& copy.chunk_size == match shaping {
        Some(s) => if s.bufsize > 0 {
            s.bufsize
        } else {
            1
        },
        None => DEFAULT_CHUNK_SIZE,
    }
    &&& if applies && shaping->0.max_bandwidth_bps is Some {
        copy.limiter matches Some(limiter) && limiter.bits_per_sec
            == shaping->0.max_bandwidth_bps->0 && limiter.bytes_sent == 0
    } else {
        copy.limiter is None
    }
    &&& if applies && shaping->0.random_wait_ms is Some {
        copy.jitter is Some && copy.random_wait_ms == shaping->0.random_wait_ms->0
    } else {
        copy.jitter is None
    }
}

/// Whether a chunk of `n` bytes is counted, and these are the waits after it.
pub open spec fn chunk_is_counted(
    before: ShapedCopy,
    n: nat,
    after: ShapedCopy,
    waits: ChunkWaits,
) -> bool {
    &&& after.total == before.total + n
    &&& after.chunk_size == before.chunk_size
    &&& after.random_wait_ms == before.random_wait_ms
    &&& match before.limiter {
        Some(limiter) => exists|now: Instant, elapsed: Duration|
            {
                &&& elapsed.nanos == nanos_between(now, limiter.window_start)
                &&& waits.limit.nanos == limiter.wait(n, elapsed)
                &&& after.limiter == Some(#[trigger] limiter.after(n, elapsed, now))
            },
        None => after.limiter is None && waits.limit.nanos == 0,
    }
    &&& match before.jitter {
        Some(jitter) => after.jitter is Some && waits.jitter.nanos == if before.random_wait_ms > 0 {
            drawn_ms(xorshift(jitter.0), before.random_wait_ms) * 1_000_000
        } else {
            0
        },
        None => after.jitter is None && waits.jitter.nanos == 0,
    }
}

impl ShapedCopy {
    pub open spec fn wf(&self) -> bool {
        &&& self.chunk_size > 0
        &&& self.jitter matches Some(jitter) ==> jitter.wf()
    }

    /// A copy in one direction. The chunk size always holds; the cap and the
    /// delay do only where they are set and the direction is selected.
    pub fn new(shaping: Option<&ShapingConfig>, direction: Direction) -> (copy: Self)
        ensures
            copy.wf(),
            copy_is_set_up(shaping, direction, copy),
            copy.total == 0,
            copy.chunk_size == match shaping {
                Some(s) => if s.bufsize > 0 {
                    s.bufsize
                } else {
                    1
                },
                None => DEFAULT_CHUNK_SIZE,
            },
            copy.limiter is Some <==> (shaping matches Some(s) && s.wait_in_out.selects(direction)
                && s.max_bandwidth_bps is Some),
            copy.limiter matches Some(limiter) ==> shaping->0.max_bandwidth_bps == Some(
                limiter.bits_per_sec,
            ) && limiter.bytes_sent == 0,
            copy.jitter is Some <==> (shaping matches Some(s) && s.wait_in_out.selects(direction)
                && s.random_wait_ms is Some),
            copy.jitter is Some ==> shaping->0.random_wait_ms == Some(copy.random_wait_ms),
    {
        let config = match shaping {
            None => {
                return ShapedCopy {
                    chunk_size: DEFAULT_CHUNK_SIZE,
                    limiter: None,
                    jitter: None,
                    random_wait_ms: 0,
                    total: 0,
                };
            },
            Some(config) => config,
        };
        let applies = config.wait_in_out.applies_to(direction);
        let limiter = match config.max_bandwidth_bps {
            Some(bps) => if applies {
                Some(RateLimiter::new(bps))
            } else {
                None
            },
            None => None,
        };
        let (jitter, random_wait_ms): (Option<Jitter>, u64) = match config.random_wait_ms {
            Some(ms) => if applies {
                (Some(Jitter::new()), ms)
            } else {
                (None, 0)
            },
            None => (None, 0),
        };
        ShapedCopy {
            chunk_size: if config.bufsize > 0 {
                config.bufsize
            } else {
                1
            },
            limiter,
            jitter,
            random_wait_ms,
            total: 0,
        }
    }

    /// Counts a chunk that has been written, and returns how long to wait
    /// before the next one is read.
    pub fn on_chunk(&mut self, n: usize) -> (waits: ChunkWaits)
        requires
            old(self).wf(),
            old(self).total + n <= u64::MAX,
            old(self).limiter matches Some(limiter) ==> limiter.can_count(n as nat),
        ensures
            final(self).wf(),
            chunk_is_counted(*old(self), n as nat, *final(self), waits),
            final(self).chunk_size == old(self).chunk_size,
            final(self).random_wait_ms == old(self).random_wait_ms,
            final(self).total == old(self).total + n,
            final(self).limiter is Some <==> old(self).limiter is Some,
            final(self).jitter is Some <==> old(self).jitter is Some,
            old(self).limiter is None ==> waits.limit.nanos == 0,
            old(self).limiter matches Some(limiter) ==> exists|now: Instant, elapsed: Duration|
                {
                    &&& elapsed.nanos == nanos_between(now, limiter.window_start)
                    &&& waits.limit.nanos == limiter.wait(n as nat, elapsed)
                    &&& final(self).limiter == Some(
                        #[trigger] limiter.after(n as nat, elapsed, now),
                    )
                },
            old(self).jitter is None ==> waits.jitter.nanos == 0,
            old(self).jitter matches Some(jitter) ==> waits.jitter.nanos
                <= old(self).random_wait_ms * 1_000_000 && (old(self).random_wait_ms > 0
                ==> waits.jitter.nanos == drawn_ms(xorshift(jitter.0), old(self).random_wait_ms)
                * 1_000_000 && final(self).jitter == Some(
                Jitter(xorshift(jitter.0)),
            )) && (old(self).random_wait_ms == 0 ==> final(self).jitter == Some(jitter)),
    {
        self.total = self.total + n as u64;
        let limit = match self.limiter.take() {
            Some(mut limiter) => {
                let wait = limiter.wait_for(n);
                self.limiter = Some(limiter);
                wait
            },
            None => Duration::from_nanos(0),
        };
        let delay = match self.jitter.take() {
            Some(mut jitter) => {
                let wait = jitter.random_wait(self.random_wait_ms);
                self.jitter = Some(jitter);
                wait
            },
            None => Duration::from_nanos(0),
        };
        ChunkWaits { limit, jitter: delay }
    }
}

/// A chunk that is counted: its bytes, how long after the limiter has started,
/// and when.
pub struct Chunk {
    pub bytes: nat,
    pub elapsed: Duration,
    pub now: Instant,
}

/// The bytes of a number of chunks.
pub open spec fn bytes_of(chunks: Seq<Chunk>) -> nat
    decreases chunks.len(),
{
    if chunks.len() == 0 {
        0
    } else {
        bytes_of(chunks.drop_last()) + chunks.last().bytes
    }
}

/// The limiter after a number of chunks.
pub open spec fn after_chunks(limiter: RateLimiter, chunks: Seq<Chunk>) -> RateLimiter
    decreases chunks.len(),
{
    if chunks.len() == 0 {
        limiter
    } else {
        let last = chunks.last();
        after_chunks(limiter, chunks.drop_last()).after(last.bytes, last.elapsed, last.now)
    }
}

/// Within ten seconds every byte is counted, however the bytes come: the count
/// is that of all chunks together, and the time and the rate stay.
pub proof fn every_byte_is_counted(limiter: RateLimiter, chunks: Seq<Chunk>)
    requires
        limiter.bytes_sent + bytes_of(chunks) <= u64::MAX,
        forall|i: int|
            0 <= i < chunks.len() ==> (#[trigger] chunks[i]).elapsed.nanos <= 10_000_000_000,
    ensures
        after_chunks(limiter, chunks).bytes_sent == limiter.bytes_sent + bytes_of(chunks),
        after_chunks(limiter, chunks).window_start == limiter.window_start,
        after_chunks(limiter, chunks).bits_per_sec == limiter.bits_per_sec,
    decreases chunks.len(),
{
    if chunks.len() > 0 {
        let init = chunks.drop_last();
        assert forall|i: int| 0 <= i < init.len() implies (#[trigger] init[i]).elapsed.nanos
            <= 10_000_000_000 by {
            assert(init[i] == chunks[i]);
        }
        every_byte_is_counted(limiter, init);
        assert(chunks[chunks.len() - 1] == chunks.last());
    }
}

/// However the bytes come, the wait after the last chunk makes up for all of
/// them: by its end there was time enough, at the rate, for every byte since
/// the limiter has started; and a nanosecond less would not have done.
pub proof fn transfers_are_held_to_the_cap(
    limiter: RateLimiter,
    before: Seq<Chunk>,
    bytes: nat,
    elapsed: Duration,
)
    requires
        limiter.bits_per_sec > 0,
        limiter.bytes_sent + bytes_of(before) <= u64::MAX,
        forall|i: int|
            0 <= i < before.len() ==> (#[trigger] before[i]).elapsed.nanos <= 10_000_000_000,
    ensures
        ({
            let all = limiter.bytes_sent + bytes_of(before) + bytes;
            let wait = after_chunks(limiter, before).wait(bytes, elapsed);
            &&& all * 8 * 1_000_000_000 <= (elapsed.nanos + wait) * limiter.bits_per_sec
            &&& wait > 0 ==> (elapsed.nanos + wait - 1) * limiter.bits_per_sec < all * 8
                * 1_000_000_000
        }),
{
    every_byte_is_counted(limiter, before);
    let now = after_chunks(limiter, before);
    rate_stays_within_cap(&now, bytes, elapsed);
    let bits = (now.bytes_sent + bytes) * 8_000_000_000;
    let rate = now.bits_per_sec as int;
    let expected = nanos_to_send((now.bytes_sent + bytes) as nat, rate as nat);
    let wait = now.wait(bytes, elapsed);
    if wait > 0 {
        assert(elapsed.nanos + wait == expected);
        assert((expected - 1) * rate < bits) by (nonlinear_arith)
            requires
                rate > 0,
                bits >= 0,
                expected == (bits + rate - 1) / rate,
        ;
    }
}

/// After more than ten seconds the count starts anew, with the time.
pub proof fn counting_starts_anew(limiter: RateLimiter, chunk: Chunk)
    requires
        chunk.elapsed.nanos > 10_000_000_000,
    ensures
        limiter.after(chunk.bytes, chunk.elapsed, chunk.now).bytes_sent == 0,
        limiter.after(chunk.bytes, chunk.elapsed, chunk.now).window_start == chunk.now,
        limiter.after(chunk.bytes, chunk.elapsed, chunk.now).bits_per_sec == limiter.bits_per_sec,
{
}

/// A delay is never longer than what is allowed, and every delay that is
/// allowed can be drawn.
pub proof fn delays_are_within_bounds(draw: u64, max_ms: u64)
    ensures
        drawn_ms(draw, max_ms) <= max_ms,
        draw <= max_ms ==> drawn_ms(draw, max_ms) == draw,
{
    if draw <= max_ms {
        lemma_small_mod(draw as nat, max_ms as nat + 1);
    }
}

/// "In" is the traffic to the target and "out" the traffic to the client; both
/// words select one direction each, and the third word selects both.
pub proof fn directions_are_selected(direction: Direction)
    ensures
        WaitInOut::In.selects(direction) <==> direction == Direction::ClientToTarget,
        WaitInOut::Out.selects(direction) <==> direction == Direction::TargetToClient,
        WaitInOut::Both.selects(direction),
{
}

/// The seed of the generator is the reading of the clock, made odd: readings
/// that differ in more than the lowest bit give different seeds.
pub proof fn seeds_follow_the_clock(nanos: u128)
    ensures
        jitter_seed(Some(Duration { nanos })) % 2 == 1,
        jitter_seed(Some(Duration { nanos })) / 2 == nanos % 0x1_0000_0000_0000_0000 / 2,
        jitter_seed(None) % 2 == 1,
{
    let bits = (nanos % 0x1_0000_0000_0000_0000) as u64;
    assert((bits | 1) % 2 == 1 && (bits | 1) / 2 == bits / 2) by (bit_vector);
    let fixed = 0x9E3779B97F4A7C15u64;
    assert((fixed | 1) % 2 == 1) by (bit_vector);
}

/// The generator never comes to one number from two: it runs through its
/// numbers without getting caught in fewer of them.
pub proof fn numbers_have_one_predecessor(x: u64, y: u64)
    requires
        xorshift(x) == xorshift(y),
    ensures
        x == y,
{
    let a = x ^ (x << 13);
    let b = a ^ (a >> 7);
    let c = y ^ (y << 13);
    let d = c ^ (c >> 7);
    assert(b ^ (b << 17) == d ^ (d << 17) ==> b == d) by (bit_vector);
    assert(a ^ (a >> 7) == c ^ (c >> 7) ==> a == c) by (bit_vector);
    assert(x ^ (x << 13) == y ^ (y << 13) ==> x == y) by (bit_vector);
}

/// At any rate there is room for two exabytes, more than any connection
/// carries in ten seconds; without a rate there is none.
pub proof fn there_is_room_to_count(limiter: RateLimiter, n: nat)
    ensures
        limiter.bits_per_sec > 0 && limiter.bytes_sent + n < 0x2000_0000_0000_0000
            ==> limiter.can_count(n),
        limiter.bits_per_sec == 0 ==> !limiter.can_count(n),
{
    let rate = limiter.bits_per_sec;
    assert(rate > 0 ==> rate * 0x1_0000_0000_0000_0000 >= 0x1_0000_0000_0000_0000);
}

/// A direction that is not selected is copied without waits; one that is
/// selected is held to the cap and delayed as far as either is set. The chunk
/// size always holds.
pub proof fn copies_are_set_up_as_asked(
    shaping: &ShapingConfig,
    direction: Direction,
    copy: ShapedCopy,
    plain: ShapedCopy,
)
    requires
        copy_is_set_up(Some(shaping), direction, copy),
        copy_is_set_up(None, direction, plain),
    ensures
        shaping.bufsize > 0 ==> copy.chunk_size == shaping.bufsize,
        shaping.bufsize == 0 ==> copy.chunk_size == 1,
        plain.chunk_size == 16 * 1024,
        plain.limiter is None && plain.jitter is None,
        ({
            let selected = shaping.wait_in_out == WaitInOut::Both || (shaping.wait_in_out
                == WaitInOut::In && direction == Direction::ClientToTarget) || (shaping.wait_in_out
                == WaitInOut::Out && direction == Direction::TargetToClient);
            &&& !selected ==> copy.limiter is None && copy.jitter is None
            &&& selected ==> match shaping.max_bandwidth_bps {
                Some(bps) => copy.limiter is Some && copy.limiter->0.bits_per_sec == bps
                    && copy.limiter->0.bytes_sent == 0,
                None => copy.limiter is None,
            }
            &&& selected ==> match shaping.random_wait_ms {
                Some(ms) => copy.jitter is Some && copy.random_wait_ms == ms,
                None => copy.jitter is None,
            }
        }),
{
}

/// After a chunk the waits are what the cap and the delay ask for: by the end
/// of the first there was time enough for every byte counted, and the second
/// is within its bound. Without a cap or a delay there is no wait for it.
pub proof fn chunks_wait_for_the_cap(
    before: ShapedCopy,
    n: nat,
    after: ShapedCopy,
    waits: ChunkWaits,
)
    requires
        chunk_is_counted(before, n, after, waits),
        before.limiter matches Some(limiter) ==> limiter.bits_per_sec > 0,
    ensures
        after.total == before.total + n,
        before.limiter is None ==> waits.limit.nanos == 0,
        before.limiter matches Some(limiter) ==> exists|now: Instant|
            (limiter.bytes_sent + n) * 8_000_000_000 <= (#[trigger] nanos_between(
                now,
                limiter.window_start,
            ) + waits.limit.nanos) * limiter.bits_per_sec,
        before.jitter is None ==> waits.jitter.nanos == 0,
        waits.jitter.nanos <= before.random_wait_ms * 1_000_000 || before.jitter is None,
{
    if let Some(limiter) = before.limiter {
        let (now, elapsed) = choose|now: Instant, elapsed: Duration|
            {
                &&& elapsed.nanos == nanos_between(now, limiter.window_start)
                &&& waits.limit.nanos == limiter.wait(n, elapsed)
                &&& after.limiter == Some(#[trigger] limiter.after(n, elapsed, now))
            };
        rate_stays_within_cap(&limiter, n, elapsed);
        assert((limiter.bytes_sent + n) * 8_000_000_000 <= (nanos_between(
            now,
            limiter.window_start,
        ) + waits.limit.nanos) * limiter.bits_per_sec);
    }
    if let Some(jitter) = before.jitter {
        delays_are_within_bounds(xorshift(jitter.0), before.random_wait_ms);
    }
}

} // verus!
