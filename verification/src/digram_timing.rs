//! The timing hint engine: consumes the keystroke stream and maintains, per
//! key, a usage counter and, per physical position of the reference layout,
//! running averages of the inter-key interval into and out of that position.
//!
//! Only digrams whose inter-key interval is strictly less than one second
//! update the statistics; larger gaps mean the user paused, and the keystrokes
//! are treated as unrelated.
//!
//! All times are in milliseconds. Because the keys of the reference layout
//! appear in declaration order, the reference position index of a key equals
//! the key's own index (see `crate::keyboard`), and the statistics vectors are
//! indexed accordingly.

use vstd::prelude::*;

use crate::keyboard::KeyCode;
use crate::keyboard::key_of_index;
use crate::keyboard::lemma_key_index_bijective;

verus! {

/// Milliseconds from `last_time` to `time`; zero if `time` is earlier.
pub open spec fn gap_ms(last_time: u64, time: u64) -> int {
    if time >= last_time {
        time - last_time
    } else {
        0
    }
}

/// One running-average step with sample count `n >= 1`:
/// `new = old + (sample - old) / n`, carried out with the subtraction on
/// whichever side keeps the intermediate difference nonnegative.
pub open spec fn adjusted_average(prev: int, sample: int, n: int) -> int
    recommends
        n >= 1,
{
    if sample > prev {
        prev + (sample - prev) / n
    } else {
        prev - (prev - sample) / n
    }
}

/// A usage count bumped by one, saturating at the counter's maximum.
pub open spec fn bumped(n: u32) -> u32 {
    if n < u32::MAX {
        (n + 1) as u32
    } else {
        n
    }
}

/// One scoring term: `frequency * 1000 / average_ms`, i.e. frequency divided
/// by the average expressed in seconds, in fixed-point integer arithmetic.
/// An average of zero milliseconds is scored like one millisecond; a missing
/// average contributes nothing.
pub open spec fn rank_term(freq: u32, avg: Option<u64>) -> int {
    match avg {
        Some(d) => (freq * 1000) as int / (if d == 0 {
            1int
        } else {
            d as int
        }),
        None => 0,
    }
}

/// The mathematical state of the timing hint engine: the last keystroke seen,
/// one usage count per key index, and one optional running average per
/// position index, into and out of the position.
#[verifier::ext_equal]
pub struct TimingModel {
    pub last: Option<(KeyCode, u64)>,
    pub freq: Seq<u32>,
    pub avg_to: Seq<Option<u64>>,
    pub avg_from: Seq<Option<u64>>,
}

/// A model is well-formed when it has one slot per key or position and every
/// recorded average is below one second, as every recorded sample is.
pub open spec fn model_wf(m: TimingModel) -> bool {
    &&& m.freq.len() == 30
    &&& m.avg_to.len() == 30
    &&& m.avg_from.len() == 30
    &&& forall|p: int| 0 <= p < 30 ==> (#[trigger] m.avg_to[p] matches Some(d) ==> d < 1000)
    &&& forall|p: int| 0 <= p < 30 ==> (#[trigger] m.avg_from[p] matches Some(d) ==> d < 1000)
}

/// The effect of one keystroke on the model.
///
/// If a previous keystroke exists and arrived less than one second earlier,
/// the pair counts as a digram: the frequency of `key_code` is bumped; the
/// average into the position of `key_code` is stepped with the bumped count;
/// the average out of the position of the previous key is stepped with the
/// previous key's count as it stood before the bump (a count of zero is
/// guarded to one). A first sample becomes the average itself. Otherwise the
/// statistics stay untouched. Either way the keystroke becomes the new
/// "previous" one.
pub open spec fn model_step(m: TimingModel, key_code: KeyCode, time_ms: u64) -> TimingModel {
    match m.last {
        Some((last_key, last_time)) => {
            let g = gap_ms(last_time, time_ms);
            if g < 1000 {
                let ki = key_code.index_spec();
                let li = last_key.index_spec();
                let count = bumped(m.freq[ki]);
                let last_count: int = if m.freq[li] == 0 {
                    1
                } else {
                    m.freq[li] as int
                };
                TimingModel {
                    last: Some((key_code, time_ms)),
                    freq: m.freq.update(ki, count),
                    avg_to: m.avg_to.update(
                        ki,
                        Some(
                            match m.avg_to[ki] {
                                None => g as u64,
                                Some(a) => adjusted_average(a as int, g, count as int) as u64,
                            },
                        ),
                    ),
                    avg_from: m.avg_from.update(
                        li,
                        Some(
                            match m.avg_from[li] {
                                None => g as u64,
                                Some(a) => adjusted_average(a as int, g, last_count) as u64,
                            },
                        ),
                    ),
                }
            } else {
                TimingModel { last: Some((key_code, time_ms)), ..m }
            }
        },
        None => TimingModel { last: Some((key_code, time_ms)), ..m },
    }
}

/// The model after feeding the keystrokes of `events` in order.
pub open spec fn model_run(m: TimingModel, events: Seq<(KeyCode, u64)>) -> TimingModel
    decreases events.len(),
{
    if events.len() == 0 {
        m
    } else {
        model_step(model_run(m, events.drop_last()), events.last().0, events.last().1)
    }
}

/// How many of the keystrokes in `events` press `key`.
pub open spec fn count_occurrences(events: Seq<(KeyCode, u64)>, key: KeyCode) -> int
    decreases events.len(),
{
    if events.len() == 0 {
        0
    } else {
        count_occurrences(events.drop_last(), key) + if events.last().0 == key {
            1int
        } else {
            0int
        }
    }
}

/// Ranks keys for physical positions from observed digram timing.
#[derive(Clone, Debug)]
pub struct DigramTimingHint {
    last: Option<(KeyCode, u64)>,
    frequencies: Vec<u32>,
    average_time_to: Vec<Option<u64>>,
    average_time_from: Vec<Option<u64>>,
}

impl DigramTimingHint {
    /// The mathematical state this engine is in.
    pub closed spec fn model(self) -> TimingModel {
        TimingModel {
            last: self.last,
            freq: self.frequencies@,
            avg_to: self.average_time_to@,
            avg_from: self.average_time_from@,
        }
    }

    /// Well-formedness of the engine's state.
    pub open spec fn wf(self) -> bool {
        model_wf(self.model())
    }

    /// The most recent keystroke seen, if any, with its timestamp.
    pub open spec fn last_spec(self) -> Option<(KeyCode, u64)> {
        self.model().last
    }

    /// How many times `key` has been counted.
    pub open spec fn frequency_spec(self, key: KeyCode) -> u32 {
        self.model().freq[key.index_spec()]
    }

    /// The running average interval into position index `p`, if any digram
    /// ended there.
    pub open spec fn avg_to_spec(self, p: int) -> Option<u64> {
        self.model().avg_to[p]
    }

    /// The running average interval out of position index `p`, if any digram
    /// started there.
    pub open spec fn avg_from_spec(self, p: int) -> Option<u64> {
        self.model().avg_from[p]
    }

    /// A newly created engine: nothing seen, nothing counted.
    pub open spec fn is_fresh(self) -> bool {
        &&& self.last_spec() is None
        &&& forall|k: int| 0 <= k < 30 ==> #[trigger] self.model().freq[k] == 0
        &&& forall|p: int| 0 <= p < 30 ==> #[trigger] self.model().avg_to[p] is None
        &&& forall|p: int| 0 <= p < 30 ==> #[trigger] self.model().avg_from[p] is None
    }

    /// How suitable `key` is for the position at `(row, col)`: its frequency
    /// divided by the average interval into that position, plus its frequency
    /// divided by the average interval out of it; a direction with no data
    /// contributes nothing.
    pub open spec fn rank_spec(self, row: int, col: int, key: KeyCode) -> int {
        rank_term(self.frequency_spec(key), self.avg_to_spec(row * 10 + col)) + rank_term(
            self.frequency_spec(key),
            self.avg_from_spec(row * 10 + col),
        )
    }

    /// An engine with no statistics recorded yet.
    pub fn new() -> (s: Self)
        ensures
            s.wf(),
            s.is_fresh(),
    {
        let mut frequencies: Vec<u32> = Vec::new();
        let mut average_time_to: Vec<Option<u64>> = Vec::new();
        let mut average_time_from: Vec<Option<u64>> = Vec::new();
        let mut i: usize = 0;
        while i < 30
            invariant
                i <= 30,
                frequencies@.len() == i,
                average_time_to@.len() == i,
                average_time_from@.len() == i,
                forall|j: int| 0 <= j < i ==> #[trigger] frequencies@[j] == 0u32,
                forall|j: int| 0 <= j < i ==> #[trigger] average_time_to@[j] is None,
                forall|j: int| 0 <= j < i ==> #[trigger] average_time_from@[j] is None,
            decreases 30 - i,
        {
            frequencies.push(0);
            average_time_to.push(None);
            average_time_from.push(None);
            i = i + 1;
        }
        let s = DigramTimingHint { last: None, frequencies, average_time_to, average_time_from };
        s
    }

    /// Feed one keystroke into the engine; the state moves exactly as
    /// `model_step` describes.
    pub fn receive_key_press(&mut self, key_code: KeyCode, time_ms: u64)
        requires
            old(self).wf(),
        ensures
            final(self).wf(),
            final(self).model() == model_step(old(self).model(), key_code, time_ms),
    {
        proof {
            lemma_key_index_bijective();
        }
        if let Some((last_key, last_time)) = self.last {
            let time_between_keys = if time_ms >= last_time {
                time_ms - last_time
            } else {
                0
            };
            // More than a second between keys means the user paused; this
            // digram is not counted.
            if time_between_keys < 1000 {
                let ki = key_code.index();
                let li = last_key.index();
                let old_freq = self.frequencies[ki];
                // The previous key's count, captured before the current
                // key's increment.
                let last_freq = self.frequencies[li];
                let count = if old_freq < u32::MAX {
                    old_freq + 1
                } else {
                    old_freq
                };
                self.frequencies[ki] = count;
                let new_to = match self.average_time_to[ki] {
                    Some(average) => adjust_average_duration(average, time_between_keys, count),
                    None => time_between_keys,
                };
                self.average_time_to[ki] = Some(new_to);
                let last_count = if last_freq == 0 {
                    1
                } else {
                    last_freq
                };
                let new_from = match self.average_time_from[li] {
                    Some(average) => adjust_average_duration(
                        average,
                        time_between_keys,
                        last_count,
                    ),
                    None => time_between_keys,
                };
                self.average_time_from[li] = Some(new_from);
            }
        }
        self.last = Some((key_code, time_ms));
        proof {
            assert(self.model() =~= model_step(old(self).model(), key_code, time_ms));
        }
    }

    /// The suitability rank of one key for the position at `position`,
    /// as `rank_spec` describes it. The rank of a single key never exceeds
    /// twice `u32::MAX * 1000`.
    pub fn rank_for(&self, position: (usize, usize), key_code: KeyCode) -> (r: u128)
        requires
            self.wf(),
            position.0 < 3,
            position.1 < 10,
        ensures
            r == self.rank_spec(position.0 as int, position.1 as int, key_code),
            r <= 0xFFFF_FFFFu128 * 2000,
    {
        let pi = position.0 * 10 + position.1;
        let freq = self.frequencies[key_code.index()];
        let prod: u128 = (freq as u128) * 1000;
        assert(prod <= 0xFFFF_FFFFu128 * 1000);
        let mut rank: u128 = 0;
        if let Some(d) = self.average_time_to[pi] {
            let divisor: u64 = if d == 0 {
                1
            } else {
                d
            };
            let term = prod / (divisor as u128);
            assert(term <= prod) by (nonlinear_arith)
                requires
                    divisor >= 1,
                    prod >= 0,
                    term == prod as int / (divisor as int),
            ;
            rank = rank + term;
        }
        if let Some(d) = self.average_time_from[pi] {
            let divisor: u64 = if d == 0 {
                1
            } else {
                d
            };
            let term = prod / (divisor as u128);
            assert(term <= prod) by (nonlinear_arith)
                requires
                    divisor >= 1,
                    prod >= 0,
                    term == prod as int / (divisor as int),
            ;
            rank = rank + term;
        }
        rank
    }

    /// For the position at `position`, the suitability rank of every key
    /// that has one, as `(key, rank)` pairs in ascending key order.
    ///
    /// Every returned rank is strictly positive and equals `rank_spec`;
    /// keys with no timing data for this position in either direction are
    /// omitted rather than listed with a zero score.
    pub fn rank_keys_for_position(&self, position: (usize, usize)) -> (r: Vec<(KeyCode, u128)>)
        requires
            self.wf(),
            position.0 < 3,
            position.1 < 10,
        ensures
            forall|j: int|
                0 <= j < r@.len() ==> (#[trigger] r@[j]).1 == self.rank_spec(
                    position.0 as int,
                    position.1 as int,
                    r@[j].0,
                ) && r@[j].1 > 0,
            forall|j1: int, j2: int|
                0 <= j1 < j2 < r@.len() ==> (#[trigger] r@[j1]).0.index_spec() < (#[trigger] r@[
                    j2
                ]).0.index_spec(),
            forall|k: KeyCode|
                self.rank_spec(position.0 as int, position.1 as int, k) > 0 ==> exists|j: int|
                    0 <= j < r@.len() && (#[trigger] r@[j]).0 == k,
    {
        let ghost row = position.0 as int;
        let ghost col = position.1 as int;
        let mut r: Vec<(KeyCode, u128)> = Vec::new();
        let mut ki: usize = 0;
        while ki < 30
            invariant
                self.wf(),
                ki <= 30,
                row == position.0 as int,
                col == position.1 as int,
                position.0 < 3,
                position.1 < 10,
                forall|j: int|
                    0 <= j < r@.len() ==> (#[trigger] r@[j]).1 == self.rank_spec(row, col, r@[j].0)
                        && r@[j].1 > 0 && r@[j].0.index_spec() < ki,
                forall|j1: int, j2: int|
                    0 <= j1 < j2 < r@.len() ==> (#[trigger] r@[j1]).0.index_spec() < (
                    #[trigger] r@[j2]).0.index_spec(),
                forall|k: KeyCode|
                    #[trigger] k.index_spec() < ki && self.rank_spec(row, col, k) > 0 ==> exists|
                        j: int,
                    | 0 <= j < r@.len() && (#[trigger] r@[j]).0 == k,
            decreases 30 - ki,
        {
            let key = KeyCode::from_index(ki);
            let rank = self.rank_for(position, key);
            let ghost r_before = r@;
            if rank > 0 {
                r.push((key, rank));
            }
            proof {
                lemma_key_index_bijective();
                assert forall|k: KeyCode|
                    #[trigger] k.index_spec() < ki + 1 && self.rank_spec(row, col, k)
                        > 0 implies exists|j: int|
                    0 <= j < r@.len() && (#[trigger] r@[j]).0 == k by {
                    if k.index_spec() == ki {
                        assert(key_of_index(k.index_spec()) == k);
                        assert(k == key);
                        assert(r@[r@.len() - 1].0 == k);
                    } else {
                        let j0 = choose|j: int| 0 <= j < r_before.len() && (#[trigger] r_before[
                            j
                        ]).0 == k;
                        assert(r@[j0].0 == k);
                    }
                }
            }
            ki = ki + 1;
        }
        r
    }

    /// How many times `key_code` has been counted as the closing key of a
    /// digram.
    pub fn frequency_of(&self, key_code: KeyCode) -> (n: u32)
        requires
            self.wf(),
        ensures
            n == self.frequency_spec(key_code),
    {
        self.frequencies[key_code.index()]
    }

    /// The running average interval, in milliseconds, into the position at
    /// `position`, if any digram ended there.
    pub fn average_time_to(&self, position: (usize, usize)) -> (r: Option<u64>)
        requires
            self.wf(),
            position.0 < 3,
            position.1 < 10,
        ensures
            r == self.avg_to_spec(position.0 * 10 + position.1),
    {
        self.average_time_to[position.0 * 10 + position.1]
    }

    /// The running average interval, in milliseconds, out of the position at
    /// `position`, if any digram started there.
    pub fn average_time_from(&self, position: (usize, usize)) -> (r: Option<u64>)
        requires
            self.wf(),
            position.0 < 3,
            position.1 < 10,
        ensures
            r == self.avg_from_spec(position.0 * 10 + position.1),
    {
        self.average_time_from[position.0 * 10 + position.1]
    }
}

impl Default for DigramTimingHint {
    /// Same as `DigramTimingHint::new`.
    fn default() -> (s: Self)
        ensures
            s.wf(),
            s.is_fresh(),
    {
        DigramTimingHint::new()
    }
}

/// One running-average step: `new = old + (sample - old) / n` with `n` the
/// updated sample count, using subtraction on the smaller side so the
/// unsigned arithmetic never underflows.
pub fn adjust_average_duration(previous_average: u64, new_duration: u64, new_count: u32) -> (r:
    u64)
    requires
        new_count >= 1,
    ensures
        r == adjusted_average(previous_average as int, new_duration as int, new_count as int),
        previous_average <= new_duration ==> previous_average <= r <= new_duration,
        new_duration <= previous_average ==> new_duration <= r <= previous_average,
{
    if new_duration > previous_average {
        let diff = new_duration - previous_average;
        let step = diff / (new_count as u64);
        assert(step <= diff) by (nonlinear_arith)
            requires
                step == diff as int / (new_count as int),
                new_count >= 1,
                diff >= 0,
        ;
        previous_average + step
    } else {
        let diff = previous_average - new_duration;
        let step = diff / (new_count as u64);
        assert(step <= diff) by (nonlinear_arith)
            requires
                step == diff as int / (new_count as int),
                new_count >= 1,
                diff >= 0,
        ;
        previous_average - step
    }
}

/// A sequence of keystrokes whose inter-arrival gaps are all at least one
/// second leaves the timing statistics exactly as they were: no digram is
/// counted. Only the "previous keystroke" scratch state moves.
pub proof fn lemma_slow_sequence_leaves_stats_unchanged(m: TimingModel, events: Seq<(KeyCode, u64)>)
    requires
        forall|j: int|
            0 < j < events.len() ==> gap_ms(events[j - 1].1, #[trigger] events[j].1) >= 1000,
        events.len() > 0 ==> (m.last matches Some((k, t)) ==> gap_ms(t, events[0].1) >= 1000),
    ensures
        model_run(m, events).freq == m.freq,
        model_run(m, events).avg_to == m.avg_to,
        model_run(m, events).avg_from == m.avg_from,
        events.len() > 0 ==> model_run(m, events).last == Some(events.last()),
    decreases events.len(),
{
    if events.len() > 0 {
        let prefix = events.drop_last();
        lemma_slow_sequence_leaves_stats_unchanged(m, prefix);
        let mid = model_run(m, prefix);
        if prefix.len() == 0 {
            assert(mid == m);
        } else {
            assert(prefix.last() == events[events.len() - 2]);
            assert(gap_ms(events[events.len() - 2].1, events.last().1) >= 1000);
        }
    }
}

/// In a burst whose inter-arrival gaps are all under one second, a key that
/// is not the opening keystroke of the session is counted exactly once per
/// occurrence.
///
/// (The opening keystroke has no predecessor, so it forms no digram and its
/// key is not counted for it.)
pub proof fn lemma_fast_sequence_counts_frequency(
    m: TimingModel,
    events: Seq<(KeyCode, u64)>,
    key: KeyCode,
)
    requires
        m.freq.len() == 30,
        m.last is None,
        forall|j: int|
            0 < j < events.len() ==> gap_ms(events[j - 1].1, #[trigger] events[j].1) < 1000,
        events.len() > 0 ==> events[0].0 != key,
        m.freq[key.index_spec()] + count_occurrences(events, key) <= u32::MAX,
    ensures
        model_run(m, events).freq[key.index_spec()] == m.freq[key.index_spec()]
            + count_occurrences(events, key),
        count_occurrences(events, key) >= 0,
        events.len() > 0 ==> model_run(m, events).last == Some(events.last()),
        model_run(m, events).freq.len() == 30,
    decreases events.len(),
{
    lemma_key_index_bijective();
    if events.len() > 0 {
        let prefix = events.drop_last();
        assert(count_occurrences(prefix, key) <= count_occurrences(events, key)) by {
            lemma_count_occurrences_nonnegative(events, key);
        }
        lemma_fast_sequence_counts_frequency(m, prefix, key);
        let mid = model_run(m, prefix);
        if prefix.len() == 0 {
            assert(mid == m);
            assert(count_occurrences(events, key) == 0);
        } else {
            assert(prefix.last() == events[events.len() - 2]);
            assert(gap_ms(events[events.len() - 2].1, events.last().1) < 1000);
            if events.last().0 == key {
                assert(mid.freq[key.index_spec()] < u32::MAX);
            } else {
                assert(events.last().0.index_spec() != key.index_spec());
            }
        }
    }
}

/// Occurrence counts are never negative.
pub proof fn lemma_count_occurrences_nonnegative(events: Seq<(KeyCode, u64)>, key: KeyCode)
    ensures
        count_occurrences(events, key) >= 0,
    decreases events.len(),
{
    if events.len() > 0 {
        lemma_count_occurrences_nonnegative(events.drop_last(), key);
    }
}

/// The first sample recorded for a position is the average, exactly: a digram
/// arriving at a position with no prior data sets the average into that
/// position to the observed interval itself.
pub proof fn lemma_first_sample_is_exact(m: TimingModel, key_code: KeyCode, time_ms: u64)
    requires
        m.avg_to.len() == 30,
        m.last matches Some((last_key, last_time)) && gap_ms(last_time, time_ms) < 1000,
        m.avg_to[key_code.index_spec()] is None,
    ensures
        m.last matches Some((last_key, last_time)) ==> model_step(m, key_code, time_ms).avg_to[
            key_code.index_spec()
        ] == Some(gap_ms(last_time, time_ms) as u64),
{
}

/// Identical samples keep the average exactly there: a run of keystrokes
/// whose inter-arrival gaps all equal `d` (under one second), fed to an
/// engine with no prior state, leaves every recorded average equal to `d`
/// itself.
pub proof fn lemma_constant_gap_sequence(m: TimingModel, events: Seq<(KeyCode, u64)>, d: u64)
    requires
        m.last is None,
        m.avg_to.len() == 30,
        m.avg_from.len() == 30,
        forall|p: int| 0 <= p < 30 ==> #[trigger] m.avg_to[p] is None,
        forall|p: int| 0 <= p < 30 ==> #[trigger] m.avg_from[p] is None,
        d < 1000,
        forall|j: int|
            0 < j < events.len() ==> gap_ms(events[j - 1].1, #[trigger] events[j].1) == d,
    ensures
        forall|p: int|
            0 <= p < 30 ==> #[trigger] model_run(m, events).avg_to[p] is None || model_run(
                m,
                events,
            ).avg_to[p] == Some(d),
        forall|p: int|
            0 <= p < 30 ==> #[trigger] model_run(m, events).avg_from[p] is None || model_run(
                m,
                events,
            ).avg_from[p] == Some(d),
        events.len() > 0 ==> model_run(m, events).last == Some(events.last()),
        model_run(m, events).avg_to.len() == 30,
        model_run(m, events).avg_from.len() == 30,
    decreases events.len(),
{
    if events.len() > 0 {
        let prefix = events.drop_last();
        lemma_constant_gap_sequence(m, prefix, d);
        let mid = model_run(m, prefix);
        if prefix.len() == 0 {
            assert(mid == m);
        } else {
            assert(prefix.last() == events[events.len() - 2]);
            let gap = gap_ms(events[events.len() - 2].1, events.last().1);
            assert(gap == d);
            assert forall|n: int| n >= 1 implies adjusted_average(d as int, d as int, n)
                == d as int by {
                assert((d as int - d as int) / n == 0);
            }
        }
    }
}

} // verus!

