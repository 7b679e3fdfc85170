//! Review scheduling in the style of SuperMemo's SM-2.
//!
//! Quantities that SM-2 states as decimal fractions are held as scaled
//! integers, so that every step is exact: a quality rating counts hundredths
//! of a grade (`0..=500` for the grades 0.00 to 5.00), an ease factor counts
//! millionths (`2_500_000` for 2.5).

use vstd::prelude::*;

verus! {

/// The best quality rating, 5.00, in hundredths of a grade.
pub const MAX_QUALITY: u32 = 500;

/// The least rating that counts as a successful recall, 3.00. Anything
/// below is a lapse.
pub const PASSING_QUALITY: u32 = 300;

/// The number that stands for an ease factor of 1.
pub const EASE_SCALE: u64 = 1_000_000;

/// The floor of the ease factor, 1.3.
pub const MIN_EASE: u64 = 1_300_000;

/// The ease factor a word starts with, 2.5.
pub const DEFAULT_EASE: u64 = 2_500_000;

/// What the scheduler keeps for one word.
#[derive(Clone, Copy, Debug, PartialEq, Eq, Structural)]
pub struct SuperMemoItem {
    /// Successful reviews in a row.
    pub repetition: u32,
    /// Days until the next review.
    pub duration: u32,
    /// Ease factor, in millionths.
    pub ease_factor: u64,
}

/// By how many millionths a rating of `quality` hundredths moves the ease
/// factor: `0.1 - (5 - q) * (0.08 + (5 - q) * 0.02)`.
pub open spec fn ease_change(quality: int) -> int {
    100_000 - (500 - quality) * (800 + 2 * (500 - quality))
}

/// The ease factor after a successful review past the learning steps: moved
/// by `ease_change`, and kept between the floor and what a `u64` holds.
pub open spec fn next_ease(ease: int, quality: int) -> int {
    let moved = ease + ease_change(quality);
    if moved < MIN_EASE {
        MIN_EASE as int
    } else if moved > u64::MAX {
        u64::MAX as int
    } else {
        moved
    }
}

/// The interval `duration` days stretched by an ease factor and rounded up
/// to whole days, kept within a `u32`.
pub open spec fn next_duration(duration: int, ease: int) -> int {
    let days = (duration * ease + (EASE_SCALE - 1)) / (EASE_SCALE as int);
    if days > u32::MAX {
        u32::MAX as int
    } else {
        days
    }
}

/// One more repetition, kept within a `u32`.
pub open spec fn next_repetition(repetition: int) -> int {
    if repetition < u32::MAX {
        repetition + 1
    } else {
        repetition
    }
}

/// The repetition count that selects the transition: a lapse counts as a
/// fresh start.
pub open spec fn effective_repetition(item: SuperMemoItem, quality: u32) -> u32 {
    if quality < PASSING_QUALITY {
        0
    } else {
        item.repetition
    }
}

/// The state after a review of `item` rated `quality`.
pub open spec fn schedule(item: SuperMemoItem, quality: u32) -> SuperMemoItem {
    let repetition = effective_repetition(item, quality);
    if repetition == 0 {
        SuperMemoItem { repetition: 1, duration: 1, ease_factor: item.ease_factor }
    } else if repetition == 1 {
        SuperMemoItem { repetition: 2, duration: 6, ease_factor: item.ease_factor }
    } else {
        let ease = next_ease(item.ease_factor as int, quality as int);
        SuperMemoItem {
            repetition: next_repetition(repetition as int) as u32,
            duration: next_duration(item.duration as int, ease) as u32,
            ease_factor: ease as u64,
        }
    }
}

/// The ease factor to schedule with, given the one on record: a record
/// below the floor was never seeded, and stands for the default.
pub open spec fn seeded(recorded: u64) -> u64 {
    if recorded < MIN_EASE {
        DEFAULT_EASE
    } else {
        recorded
    }
}

/// Seeds an ease factor that was recorded before any review took place.
pub fn seed_ease(recorded: u64) -> (ease: u64)
    ensures
        ease == seeded(recorded),
        ease >= MIN_EASE,
{
    if recorded < MIN_EASE {
        DEFAULT_EASE
    } else {
        recorded
    }
}

/// The ease factor after a successful review past the learning steps.
fn raise_ease(ease: u64, quality: u32) -> (result: u64)
    ensures
        result == next_ease(ease as int, quality as int),
{
    let gap: i128 = 500 - quality as i128;
    let slope: i128 = 800 + 2 * gap;
    assert(-0x4_0000_0000_0000_0000 <= gap * slope <= 0x4_0000_0000_0000_0000)
        by (nonlinear_arith)
        requires
            -0x1_0000_0000 <= gap <= 500,
            -0x4_0000_0000 <= slope <= 1800,
    ;
    let moved: i128 = ease as i128 + 100_000 - gap * slope;
    if moved < MIN_EASE as i128 {
        MIN_EASE
    } else if moved > u64::MAX as i128 {
        u64::MAX
    } else {
        moved as u64
    }
}

/// `duration` days stretched by `ease` millionths, rounded up.
fn stretch_duration(duration: u32, ease: u64) -> (result: u32)
    ensures
        result == next_duration(duration as int, ease as int),
{
    assert(duration * ease <= 0xffff_ffff * 0xffff_ffff_ffff_ffff) by (nonlinear_arith)
        requires
            0 <= duration <= 0xffff_ffff,
            0 <= ease <= 0xffff_ffff_ffff_ffff,
    ;
    let product: u128 = duration as u128 * ease as u128;
    let days: u128 = (product + (EASE_SCALE - 1) as u128) / (EASE_SCALE as u128);
    if days > u32::MAX as u128 {
        u32::MAX
    } else {
        days as u32
    }
}

/// Computes the state of a word after one review.
///
/// A rating below `PASSING_QUALITY` restarts the learning steps and leaves
/// the ease factor as it was. The first two steps have the fixed intervals
/// of one day and six days. From then on the ease factor moves with the
/// rating, never below `MIN_EASE`, and the interval is the old one times the
/// new ease factor, rounded up.
///
/// Ratings run from 0 to `MAX_QUALITY`. The function does not refuse a
/// rating above that: it puts it through the same formula.
pub fn super_memo_2(item: SuperMemoItem, response_quality: u32) -> (result: SuperMemoItem)
    ensures
        result == schedule(item, response_quality),
{
    let repetition: u32 = if response_quality < PASSING_QUALITY {
        0
    } else {
        item.repetition
    };
    if repetition == 0 {
        SuperMemoItem { repetition: 1, duration: 1, ease_factor: item.ease_factor }
    } else if repetition == 1 {
        SuperMemoItem { repetition: 2, duration: 6, ease_factor: item.ease_factor }
    } else {
        let ease_factor: u64 = raise_ease(item.ease_factor, response_quality);
        let duration: u32 = stretch_duration(item.duration, ease_factor);
        let repetition: u32 = if repetition < u32::MAX {
            repetition + 1
        } else {
            repetition
        };
        SuperMemoItem { repetition, duration, ease_factor }
    }
}

/// The state after the reviews rated `ratings`, in that order.
pub open spec fn schedule_all(item: SuperMemoItem, ratings: Seq<u32>) -> SuperMemoItem
    decreases ratings.len(),
{
    if ratings.len() == 0 {
        item
    } else {
        schedule(schedule_all(item, ratings.drop_last()), ratings.last())
    }
}

/// A review never takes the ease factor below the floor: past the learning
/// steps the new ease factor is at least `MIN_EASE` whatever the old one
/// was, and everywhere else it stays as it was.
pub proof fn lemma_ease_floor(item: SuperMemoItem, quality: u32)
    ensures
        item.ease_factor >= MIN_EASE ==> schedule(item, quality).ease_factor >= MIN_EASE,
        effective_repetition(item, quality) >= 2 ==> schedule(item, quality).ease_factor
            >= MIN_EASE,
        effective_repetition(item, quality) < 2 ==> schedule(item, quality).ease_factor
            == item.ease_factor,
{
}

/// However many reviews follow one another, and however they are rated, an
/// ease factor that starts at or above the floor stays there.
pub proof fn lemma_ease_floor_after_reviews(item: SuperMemoItem, ratings: Seq<u32>)
    requires
        item.ease_factor >= MIN_EASE,
    ensures
        schedule_all(item, ratings).ease_factor >= MIN_EASE,
    decreases ratings.len(),
{
    if ratings.len() > 0 {
        lemma_ease_floor_after_reviews(item, ratings.drop_last());
    }
}

/// A lapse restarts the learning steps, wherever the word stood, and leaves
/// the ease factor alone.
pub proof fn lemma_lapse_restarts(item: SuperMemoItem, quality: u32)
    requires
        quality < PASSING_QUALITY,
    ensures
        schedule(item, quality) == (SuperMemoItem {
            repetition: 1,
            duration: 1,
            ease_factor: item.ease_factor,
        }),
{
}

/// The stretched interval is the least whole number of days that is no less
/// than `duration` times the ease factor, unless that exceeds a `u32`.
pub proof fn lemma_duration_is_ceiling(duration: u32, ease: u64)
    ensures
        next_duration(duration as int, ease as int) < u32::MAX ==> {
            let days = next_duration(duration as int, ease as int);
            &&& days * EASE_SCALE >= duration * ease
            &&& (days - 1) * EASE_SCALE < duration * ease
        },
        next_duration(duration as int, ease as int) == u32::MAX ==> (u32::MAX - 1) * EASE_SCALE
            < duration * ease,
{
    let product: int = duration * ease;
    assert(product >= 0) by (nonlinear_arith)
        requires
            product == duration * ease,
            duration >= 0,
            ease >= 0,
    ;
}

/// Past the learning steps, a successful review never shortens the
/// interval.
pub proof fn lemma_duration_never_shrinks(item: SuperMemoItem, quality: u32)
    requires
        effective_repetition(item, quality) >= 2,
    ensures
        schedule(item, quality).duration >= item.duration,
{
    let ease: int = next_ease(item.ease_factor as int, quality as int);
    let duration: int = item.duration as int;
    assert(duration * ease >= duration * 1_000_000) by (nonlinear_arith)
        requires
            duration >= 0,
            ease >= 1_000_000,
    ;
    assert((duration * ease + 999_999) / 1_000_000 >= duration) by (nonlinear_arith)
        requires
            duration * ease >= duration * 1_000_000,
    ;
}

} // verus!
