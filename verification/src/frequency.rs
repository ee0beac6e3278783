//! Usage frequency of a converted word, and the score it earns.

use vstd::prelude::*;
use crate::clock::current_timestamp;

verus! {

/// The score base of learned words: above every other source of candidates,
/// so that a word the user picked once comes first.
pub const LEARNING_PRIORITY_BOOST: i32 = 200_000;

/// Seconds in a day.
pub const SECONDS_PER_DAY: u64 = 86_400;

/// How often and when a (surface, reading) pair was used.
#[derive(Debug, Clone)]
pub struct FrequencyEntry {
    /// Surface form.
    pub surface: String,
    /// Reading.
    pub reading: String,
    /// Number of uses.
    pub count: u32,
    /// Time of the last use, in seconds since the Unix epoch.
    pub last_used: u64,
    /// Hash of the context (unused so far).
    pub context_hash: Option<u64>,
}

/// The view of an entry.
pub struct FrequencyView {
    /// Surface form.
    pub surface: Seq<char>,
    /// Reading.
    pub reading: Seq<char>,
    /// Number of uses.
    pub count: u32,
    /// Time of the last use.
    pub last_used: u64,
    /// Hash of the context.
    pub context_hash: Option<u64>,
}

impl View for FrequencyEntry {
    type V = FrequencyView;

    open spec fn view(&self) -> FrequencyView {
        FrequencyView {
            surface: self.surface@,
            reading: self.reading@,
            count: self.count,
            last_used: self.last_used,
            context_hash: self.context_hash,
        }
    }
}

/// `x` held within the range of `i32`.
pub open spec fn clamp_i32(x: int) -> i32 {
    if x > i32::MAX {
        i32::MAX
    } else if x < i32::MIN {
        i32::MIN
    } else {
        x as i32
    }
}

/// The score of an entry at time `now`: the boost, plus ten per use (the
/// use count taken as an `i32`, the product saturating), minus one per whole
/// day since the last use (at most 30), the sum wrapping to an `i32`.
pub open spec fn spec_score(count: u32, last_used: u64, now: u64) -> i32 {
    let age_days = (if now >= last_used { now - last_used } else { 0 }) / 86400;
    let frequency_part = clamp_i32((count as i32) * 10);
    let decay = if (age_days as i32) < 30 { age_days as i32 } else { 30i32 };
    (LEARNING_PRIORITY_BOOST + frequency_part - decay) as i32
}

/// Law: at the same moment, more uses give a higher score (while ten times the
/// count, with the boost, stays within `i32`, and the last use lies less than
/// 2^31 days back).
pub proof fn lemma_score_grows_with_count(c1: u32, c2: u32, last_used: u64, now: u64)
    requires
        c1 < c2,
        c2 <= 214_000_000,
        now <= last_used || (now - last_used) / 86400 <= i32::MAX,
    ensures
        spec_score(c1, last_used, now) < spec_score(c2, last_used, now),
{
    let age_days = (if now >= last_used { now - last_used } else { 0 }) / 86400;
    assert(age_days as i32 == age_days);
    let decay = if (age_days as i32) < 30 { age_days as i32 } else { 30i32 };
    assert(c1 as i32 == c1 && c2 as i32 == c2);
    assert(clamp_i32((c1 as i32) * 10) == c1 * 10);
    assert(clamp_i32((c2 as i32) * 10) == c2 * 10);
    assert(LEARNING_PRIORITY_BOOST + c2 * 10 - decay <= i32::MAX);
}

/// Law: a word used at least once and last used under 2^31 days ago scores
/// above the boost minus 30, so above every non-learned candidate score the
/// library gives.
pub proof fn lemma_score_above_boost(count: u32, last_used: u64, now: u64)
    requires
        1 <= count <= 214_000_000,
        now >= last_used,
        (now - last_used) / 86400 <= i32::MAX,
    ensures
        spec_score(count, last_used, now) >= LEARNING_PRIORITY_BOOST + 10 * count - 30,
        spec_score(count, last_used, now) <= LEARNING_PRIORITY_BOOST + 10 * count,
{
    let age_days = (now - last_used) / 86400;
    assert(age_days as i32 == age_days);
    assert(count as i32 == count);
}

/// Ten times `x`, saturating at the bounds of `i32`.
fn saturating_times_ten(x: i32) -> (r: i32)
    ensures
        r == clamp_i32(x * 10),
{
    let y: i64 = (x as i64) * 10;
    if y > 2147483647 {
        i32::MAX
    } else if y < -2147483648 {
        i32::MIN
    } else {
        y as i32
    }
}

impl FrequencyEntry {
    /// An entry used once, at time `now`.
    pub fn new_at(surface: &str, reading: &str, now: u64) -> (r: Self)
        ensures
            r@ == (FrequencyView { surface: surface@, reading: reading@, count: 1, last_used: now, context_hash: None }),
    {
        FrequencyEntry { surface: surface.to_string(), reading: reading.to_string(), count: 1, last_used: now, context_hash: None }
    }

    /// An entry used once, now.
    pub fn new(surface: &str, reading: &str) -> (r: Self)
        ensures
            r.surface@ == surface@,
            r.reading@ == reading@,
            r.count == 1,
            r.context_hash is None,
    {
        Self::new_at(surface, reading, current_timestamp())
    }

    /// Records one more use, at time `now` (the count saturates).
    pub fn increment_at(&mut self, now: u64)
        ensures
            final(self)@ == (FrequencyView {
                count: if old(self).count == u32::MAX { u32::MAX } else { (old(self).count + 1) as u32 },
                last_used: now,
                ..old(self)@
            }),
    {
        self.count = self.count.saturating_add(1);
        self.last_used = now;
    }

    /// Records one more use, now (the count saturates).
    pub fn increment(&mut self)
        ensures
            final(self).surface@ == old(self).surface@,
            final(self).reading@ == old(self).reading@,
            final(self).context_hash == old(self).context_hash,
            final(self).count == if old(self).count == u32::MAX { u32::MAX } else { (old(self).count + 1) as u32 },
    {
        let now = current_timestamp();
        self.increment_at(now);
    }

    /// The score at time `now` (see [`spec_score`]).
    pub fn score_at(&self, now: u64) -> (r: i32)
        ensures
            r == spec_score(self.count, self.last_used, now),
    {
        let age_days: u64 = now.saturating_sub(self.last_used) / SECONDS_PER_DAY;
        let frequency_part = saturating_times_ten(self.count as i32);
        let age_i32 = age_days as i32;
        let decay: i32 = if age_i32 < 30 { age_i32 } else { 30 };
        let total: i64 = (LEARNING_PRIORITY_BOOST as i64) + (frequency_part as i64) - (decay as i64);
        total as i32
    }

    /// The score now: `spec_score` at some time.
    pub fn score(&self) -> (r: i32)
        ensures
            exists|now: u64| r == spec_score(self.count, self.last_used, now),
    {
        let now = current_timestamp();
        self.score_at(now)
    }
}

} // verus!
