//! The bit-banged SPI master: owns up to three optional signal lines and
//! shifts byte buffers over them, MSB first, one software-timed clock
//! pulse per bit.

use vstd::prelude::*;

use crate::bits::{
    bits_of, lemma_bits_step, lemma_mask_test, lemma_merged_bit, lemma_merged_push,
    lemma_push_keeps_word_samples, merged, transfer_result, word_samples,
};
use crate::signal::{
    drive_opt, driven_of, lemma_sample_step, read_opt, taken_of, trace_added, trace_extends,
    InputSignal, OutputSignal,
};

verus! {

/// The clock line's resting level between transfers; the active edge of
/// each pulse drives the opposite level.
#[derive(Clone, Copy)]
pub enum Polarity {
    IdleLow,
    IdleHigh,
}

/// The level the clock rests at under polarity `p`.
pub open spec fn idle_level(p: Polarity) -> bool {
    match p {
        Polarity::IdleLow => false,
        Polarity::IdleHigh => true,
    }
}

/// The level of the clock's active phase: the opposite of its idle level.
pub open spec fn active_level(p: Polarity) -> bool {
    !idle_level(p)
}

/// The clock trace of `e` half-steps of pulsing: even positions drive the
/// active level, odd positions the return to idle, so each full pulse
/// contributes one (active, idle) pair.
pub open spec fn clock_seq(p: Polarity, e: int) -> Seq<bool> {
    Seq::new(
        if e < 0 {
            0nat
        } else {
            e as nat
        },
        |k: int|
            if k % 2 == 0 {
                active_level(p)
            } else {
                idle_level(p)
            },
    )
}

impl Polarity {
    /// Computes the clock's resting level.
    pub fn idle(self) -> (r: bool)
        ensures
            r == idle_level(self),
    {
        match self {
            Polarity::IdleLow => false,
            Polarity::IdleHigh => true,
        }
    }

    /// Computes the clock's active-phase level.
    pub fn active(self) -> (r: bool)
        ensures
            r == active_level(self),
    {
        match self {
            Polarity::IdleLow => true,
            Polarity::IdleHigh => false,
        }
    }
}

proof fn lemma_pulse_traces(t: Seq<bool>, p: Polarity, n: int)
    requires
        n >= 0,
    ensures
        (t + clock_seq(p, 2 * n)).push(active_level(p)) == t + clock_seq(p, 2 * n + 1),
        (t + clock_seq(p, 2 * n + 1)).push(idle_level(p)) == t + clock_seq(p, 2 * n + 2),
{
    assert((2 * n) % 2 == 0 && (2 * n + 1) % 2 == 1) by (nonlinear_arith)
        requires
            n >= 0,
    ;
    assert((t + clock_seq(p, 2 * n)).push(active_level(p)) =~= t + clock_seq(p, 2 * n + 1));
    assert((t + clock_seq(p, 2 * n + 1)).push(idle_level(p)) =~= t + clock_seq(p, 2 * n + 2));
}

/// Busy-waits `count` abstract iterations: the unit in which the master's
/// delay setting is expressed.
fn spin_delay(count: usize) {
    let mut i: usize = 0;
    while i < count
        invariant
            i <= count,
        decreases count - i,
    {
        i = i + 1;
    }
}

/// A bit-banged SPI master: up to three independently optional owned
/// signal lines, the clock's idle polarity, and a busy-wait count applied
/// to each half of every clock pulse.
pub struct Spi<SCK, MISO, MOSI> {
    pub sck: Option<SCK>,
    pub miso: Option<MISO>,
    pub mosi: Option<MOSI>,
    pub polarity: Polarity,
    pub delay: usize,
}

impl<SCK, MISO, MOSI> Spi<SCK, MISO, MOSI> where
    SCK: OutputSignal,
    MISO: InputSignal,
    MOSI: OutputSignal,
 {
    /// The trace of levels driven on the clock line so far (empty if the
    /// line is absent).
    pub open spec fn sck_trace(self) -> Seq<bool> {
        driven_of(self.sck)
    }

    /// The trace of levels driven on the data-out line so far.
    pub open spec fn mosi_trace(self) -> Seq<bool> {
        driven_of(self.mosi)
    }

    /// The trace of levels successfully sampled from the data-in line so
    /// far.
    pub open spec fn miso_trace(self) -> Seq<bool> {
        taken_of(self.miso)
    }

    /// What no operation on the bus ever changes: its settings and which
    /// lines are present.
    pub open spec fn same_shape(self, other: Self) -> bool {
        &&& self.polarity == other.polarity
        &&& self.delay == other.delay
        &&& (self.sck is Some <==> other.sck is Some)
        &&& (self.miso is Some <==> other.miso is Some)
        &&& (self.mosi is Some <==> other.mosi is Some)
    }

    /// Builds the master. If a clock line is present it is immediately
    /// driven to the idle level of `polarity`; no other line is touched.
    pub fn new(
        sck: Option<SCK>,
        miso: Option<MISO>,
        mosi: Option<MOSI>,
        polarity: Polarity,
        delay: usize,
    ) -> (r: Self)
        ensures
            r.polarity == polarity,
            r.delay == delay,
            (r.sck is Some <==> sck is Some),
            r.miso == miso,
            r.mosi == mosi,
            sck is Some ==> r.sck_trace() == driven_of(sck).push(idle_level(polarity)),
            sck is None ==> r.sck == sck,
    {
        let mut sck = sck;
        let level = polarity.idle();
        drive_opt(&mut sck, level);
        Spi { sck, miso, mosi, polarity, delay }
    }

    /// One half of a clock pulse: drives the clock to `level`, then
    /// busy-waits the configured delay. With no clock line present nothing
    /// happens at all — no drive and no timing.
    fn clock_half(&mut self, level: bool)
        ensures
            final(self).miso == old(self).miso,
            final(self).mosi == old(self).mosi,
            final(self).polarity == old(self).polarity,
            final(self).delay == old(self).delay,
            old(self).sck is None ==> final(self).sck == old(self).sck,
            old(self).sck is Some ==> (final(self).sck is Some && final(self).sck_trace()
                == old(self).sck_trace().push(level)),
    {
        if self.sck.is_some() {
            drive_opt(&mut self.sck, level);
            spin_delay(self.delay);
        }
    }

    /// Shifts `words` out MSB-first: for each bit of each word in order,
    /// drives data-out (when present) low for a 0 bit and high for a 1
    /// bit, then emits one clock pulse — active level, wait, idle level,
    /// wait — when the clock is present. Never fails; failures of the
    /// underlying drives are the pin adapters' to swallow.
    pub fn write(&mut self, words: &[u8]) -> (r: Result<(), ()>)
        ensures
            r is Ok,
            old(self).same_shape(*final(self)),
            final(self).miso == old(self).miso,
            old(self).mosi is Some ==> final(self).mosi_trace() == old(self).mosi_trace()
                + bits_of(words@),
            old(self).mosi is None ==> final(self).mosi == old(self).mosi,
            old(self).sck is Some ==> final(self).sck_trace() == old(self).sck_trace()
                + clock_seq(old(self).polarity, 16 * (words@.len() as int)),
            old(self).sck is None ==> final(self).sck == old(self).sck,
    {
        let active = self.polarity.active();
        let idle = self.polarity.idle();
        let mut j: usize = 0;
        while j < words.len()
            invariant
                j <= words@.len(),
                old(self).same_shape(*self),
                self.miso == old(self).miso,
                active == active_level(old(self).polarity),
                idle == idle_level(old(self).polarity),
                old(self).mosi is Some ==> self.mosi_trace() == old(self).mosi_trace()
                    + bits_of(words@).take(8 * (j as int)),
                old(self).mosi is None ==> self.mosi == old(self).mosi,
                old(self).sck is Some ==> self.sck_trace() == old(self).sck_trace()
                    + clock_seq(old(self).polarity, 16 * (j as int)),
                old(self).sck is None ==> self.sck == old(self).sck,
            decreases words@.len() - j,
        {
            let w = words[j];
            let mut i: usize = 0;
            while i < 8
                invariant
                    i <= 8,
                    j < words@.len(),
                    w == words@[j as int],
                    old(self).same_shape(*self),
                    self.miso == old(self).miso,
                    active == active_level(old(self).polarity),
                    idle == idle_level(old(self).polarity),
                    old(self).mosi is Some ==> self.mosi_trace() == old(self).mosi_trace()
                        + bits_of(words@).take(8 * (j as int) + (i as int)),
                    old(self).mosi is None ==> self.mosi == old(self).mosi,
                    old(self).sck is Some ==> self.sck_trace() == old(self).sck_trace()
                        + clock_seq(old(self).polarity, 2 * (8 * (j as int) + (i as int))),
                    old(self).sck is None ==> self.sck == old(self).sck,
                decreases 8 - i,
            {
                let shift: u8 = (7 - i) as u8;
                let mask: u8 = 1u8 << shift;
                let level: bool = w & mask != 0;
                proof {
                    lemma_mask_test(w, i as int);
                    lemma_bits_step(old(self).mosi_trace(), words@, j as int, i as int);
                    lemma_pulse_traces(
                        old(self).sck_trace(),
                        old(self).polarity,
                        8 * (j as int) + (i as int),
                    );
                }
                drive_opt(&mut self.mosi, level);
                self.clock_half(active);
                self.clock_half(idle);
                i = i + 1;
            }
            j = j + 1;
        }
        proof {
            assert(bits_of(words@).take(8 * (words@.len() as int)) =~= bits_of(words@));
        }
        Ok(())
    }

    /// Full-duplex transfer: shifts `words` out exactly as `write` does
    /// and, during the active phase of each bit's clock pulse, samples the
    /// data-in line (when present) into that same bit of the buffer, in
    /// place — a high sample sets the bit, a low sample clears it. A read
    /// failure aborts at once with that error: bits sampled before it keep
    /// their sampled values, all later bits keep the values the buffer
    /// came with, and the failing pulse is left at its active level. With
    /// no data-in line the buffer comes back unchanged and the call cannot
    /// fail. Drive failures on clock and data-out are, as in `write`, the
    /// pin adapters' to swallow.
    pub fn transfer(&mut self, words: &mut Vec<u8>) -> (r: Result<(), MISO::Error>)
        ensures
            old(self).same_shape(*final(self)),
            final(words)@.len() == old(words)@.len(),
            trace_extends(old(self).miso_trace(), final(self).miso_trace()),
            old(self).miso is None ==> (r is Ok && final(self).miso == old(self).miso
                && final(words)@ == old(words)@),
            ({
                let s = trace_added(old(self).miso_trace(), final(self).miso_trace());
                let n = old(words)@.len() as int;
                &&& s.len() <= 8 * n
                &&& (r is Ok <==> (old(self).miso is None || s.len() == 8 * n))
                &&& final(words)@ == transfer_result(old(words)@, s)
                &&& (old(self).mosi is Some ==> final(self).mosi_trace() == old(self).mosi_trace()
                    + bits_of(old(words)@).take(
                    if r is Ok {
                        8 * n
                    } else {
                        (s.len() + 1) as int
                    },
                ))
                &&& (old(self).mosi is None ==> final(self).mosi == old(self).mosi)
                &&& (old(self).sck is Some ==> final(self).sck_trace() == old(self).sck_trace()
                    + clock_seq(
                    old(self).polarity,
                    if r is Ok {
                        16 * n
                    } else {
                        2 * (s.len() as int) + 1
                    },
                ))
                &&& (old(self).sck is None ==> final(self).sck == old(self).sck)
            }),
    {
        proof {
            assert(old(self).miso_trace().take(old(self).miso_trace().len() as int)
                =~= old(self).miso_trace());
        }
        let active = self.polarity.active();
        let idle = self.polarity.idle();
        let mut j: usize = 0;
        while j < words.len()
            invariant
                j <= old(words)@.len(),
                words@.len() == old(words)@.len(),
                old(self).same_shape(*self),
                active == active_level(old(self).polarity),
                idle == idle_level(old(self).polarity),
                trace_extends(old(self).miso_trace(), self.miso_trace()),
                old(self).miso is Some ==> trace_added(
                    old(self).miso_trace(),
                    self.miso_trace(),
                ).len() == 8 * (j as int),
                old(self).miso is None ==> self.miso == old(self).miso,
                forall|k: int|
                    0 <= k < j as int ==> words@[k] == merged(
                        old(words)@[k],
                        word_samples(
                            trace_added(old(self).miso_trace(), self.miso_trace()),
                            k,
                        ),
                    ),
                forall|k: int|
                    j as int <= k < old(words)@.len() ==> words@[k] == old(words)@[k],
                old(self).mosi is Some ==> self.mosi_trace() == old(self).mosi_trace() + bits_of(
                    old(words)@,
                ).take(8 * (j as int)),
                old(self).mosi is None ==> self.mosi == old(self).mosi,
                old(self).sck is Some ==> self.sck_trace() == old(self).sck_trace() + clock_seq(
                    old(self).polarity,
                    16 * (j as int),
                ),
                old(self).sck is None ==> self.sck == old(self).sck,
            decreases old(words)@.len() - j,
        {
            let mut w = words[j];
            let mut i: usize = 0;
            while i < 8
                invariant
                    i <= 8,
                    j < old(words)@.len(),
                    words@.len() == old(words)@.len(),
                    old(self).same_shape(*self),
                    active == active_level(old(self).polarity),
                    idle == idle_level(old(self).polarity),
                    trace_extends(old(self).miso_trace(), self.miso_trace()),
                    old(self).miso is Some ==> trace_added(
                        old(self).miso_trace(),
                        self.miso_trace(),
                    ).len() == 8 * (j as int) + (i as int),
                    old(self).miso is None ==> (self.miso == old(self).miso && w == old(
                        words,
                    )@[j as int]),
                    old(self).miso is Some ==> w == merged(
                        old(words)@[j as int],
                        trace_added(old(self).miso_trace(), self.miso_trace()).skip(
                            8 * (j as int),
                        ),
                    ),
                    forall|k: int|
                        0 <= k < j as int ==> words@[k] == merged(
                            old(words)@[k],
                            word_samples(
                                trace_added(old(self).miso_trace(), self.miso_trace()),
                                k,
                            ),
                        ),
                    forall|k: int|
                        j as int <= k < old(words)@.len() ==> words@[k] == old(words)@[k],
                    old(self).mosi is Some ==> self.mosi_trace() == old(self).mosi_trace()
                        + bits_of(old(words)@).take(8 * (j as int) + (i as int)),
                    old(self).mosi is None ==> self.mosi == old(self).mosi,
                    old(self).sck is Some ==> self.sck_trace() == old(self).sck_trace()
                        + clock_seq(old(self).polarity, 2 * (8 * (j as int) + (i as int))),
                    old(self).sck is None ==> self.sck == old(self).sck,
                decreases 8 - i,
            {
                let ghost word0 = old(words)@[j as int];
                let ghost s_pre = trace_added(old(self).miso_trace(), self.miso_trace());
                let shift: u8 = (7 - i) as u8;
                let mask: u8 = 1u8 << shift;
                let level: bool = w & mask != 0;
                proof {
                    lemma_mask_test(w, i as int);
                    if old(self).miso is Some {
                        lemma_merged_bit(word0, s_pre.skip(8 * (j as int)), i as int);
                    }
                    lemma_bits_step(old(self).mosi_trace(), old(words)@, j as int, i as int);
                    lemma_pulse_traces(
                        old(self).sck_trace(),
                        old(self).polarity,
                        8 * (j as int) + (i as int),
                    );
                }
                drive_opt(&mut self.mosi, level);
                self.clock_half(active);
                let ghost trace_mid = self.miso_trace();
                match read_opt(&mut self.miso) {
                    Some(outcome) => match outcome {
                        Ok(sample) => {
                            proof {
                                lemma_sample_step(old(self).miso_trace(), trace_mid, sample);
                                lemma_push_keeps_word_samples(s_pre, sample, j as int);
                                assert(s_pre.push(sample).skip(8 * (j as int)) =~= s_pre.skip(
                                    8 * (j as int),
                                ).push(sample));
                                lemma_merged_push(word0, s_pre.skip(8 * (j as int)), sample);
                            }
                            if sample {
                                w = w | mask;
                            } else {
                                w = w & !mask;
                            }
                        }
                        Err(failure) => {
                            words[j] = w;
                            proof {
                                let s = trace_added(old(self).miso_trace(), self.miso_trace());
                                assert(s == s_pre);
                                assert(word_samples(s, j as int) =~= s.skip(8 * (j as int)));
                                assert forall|k: int|
                                    0 <= k < old(words)@.len() implies words@[k] == merged(
                                    old(words)@[k],
                                    word_samples(s, k),
                                ) by {
                                    if k > j as int {
                                        assert(s.len() <= 8 * k);
                                    }
                                };
                                assert(words@ =~= transfer_result(old(words)@, s));
                            }
                            return Err(failure);
                        }
                    },
                    None => {}
                }
                self.clock_half(idle);
                i = i + 1;
            }
            words[j] = w;
            proof {
                let s = trace_added(old(self).miso_trace(), self.miso_trace());
                if old(self).miso is Some {
                    assert(word_samples(s, j as int) =~= s.skip(8 * (j as int)));
                } else {
                    assert(word_samples(s, j as int) == Seq::<bool>::empty());
                }
            }
            j = j + 1;
        }
        proof {
            let s = trace_added(old(self).miso_trace(), self.miso_trace());
            assert(words@ =~= transfer_result(old(words)@, s));
            if old(self).miso is None {
                assert(words@ =~= old(words)@);
            }
            assert(bits_of(old(words)@).take(8 * (old(words)@.len() as int)) =~= bits_of(
                old(words)@,
            ));
        }
        Ok(())
    }
}

/// Idle-level law: after any whole number of clock pulses — as a
/// completed `write` or `transfer` appends to the clock trace — the last
/// level driven on the clock line is its idle level, whatever trace came
/// before. Together with the contract of `new` (which drives the idle
/// level at construction), the clock line rests at the polarity's idle
/// level after construction and after every completed call.
pub proof fn lemma_clock_ends_idle(p: Polarity, t: Seq<bool>, e: int)
    requires
        e > 0,
        e % 2 == 0,
    ensures
        (t + clock_seq(p, e)).last() == idle_level(p),
{
    assert((e - 1) % 2 == 1) by (nonlinear_arith)
        requires
            e > 0,
            e % 2 == 0,
    ;
    assert((t + clock_seq(p, e)).last() == clock_seq(p, e)[e - 1]);
}

/// Pulse-shape law: pulse `k` of an appended clock trace is exactly one
/// drive to the active level followed by one return to idle — for every
/// delay setting, including zero, since the trace does not depend on the
/// delay at all.
pub proof fn lemma_clock_pulse_shape(p: Polarity, e: int, k: int)
    requires
        0 <= k,
        2 * k + 1 < e,
    ensures
        clock_seq(p, e)[2 * k] == active_level(p),
        clock_seq(p, e)[2 * k + 1] == idle_level(p),
{
    assert((2 * k) % 2 == 0 && (2 * k + 1) % 2 == 1) by (nonlinear_arith)
        requires
            k >= 0,
    ;
}

/// Line-count law: a write of `words` drives the data-out line exactly
/// `8 * words.len()` times and the clock line exactly `8 * words.len()`
/// pulses, i.e. `16 * words.len()` half-steps.
pub proof fn lemma_write_line_counts(words: Seq<u8>, p: Polarity)
    ensures
        bits_of(words).len() == 8 * words.len(),
        clock_seq(p, 16 * words.len() as int).len() == 16 * words.len(),
{
}

} // verus!
