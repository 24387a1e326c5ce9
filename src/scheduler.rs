//! The review scheduler: the stability / difficulty update and the interval
//! that follows from it.
use vstd::prelude::*;
use vstd::string::*;

verus! {

/// One unit of stability, difficulty or probability in fixed point (`1.0`).
pub const UNIT: u64 = 1_000_000;

/// Stability used when a word has none stored (`0.5` days).
pub const BASE_STABILITY: u64 = 500_000;

/// Difficulty used when a word has none stored (`0.3`).
pub const BASE_DIFFICULTY: i64 = 300_000;

/// Lower bound of an updated difficulty (`0.1`).
pub const MIN_DIFFICULTY: i64 = 100_000;

/// Upper bound of an updated difficulty (`1.0`).
pub const MAX_DIFFICULTY: i64 = 1_000_000;

/// Shortest scheduled interval, in days.
pub const MIN_INTERVAL: u64 = 1;

/// Longest scheduled interval, in days (ten years).
pub const MAX_INTERVAL: u64 = 3650;

/// `-ln(0.85)` in billionths: the number of days, per day of stability, after
/// which the recall probability falls to the target retention of `0.85`.
pub const NEG_LN_TARGET_RETENTION: u64 = 162_518_929;

/// Largest stability the arithmetic below accepts (about 4.6e12 days).
pub const MAX_STABILITY: u64 = 0x4000_0000_0000_0000;

/// How well a word was recalled.
#[derive(Clone, Copy, Debug, PartialEq, Eq, Structural)]
pub enum Rating {
    Again,
    Hard,
    Good,
    Easy,
}

/// The result of one review step.
#[derive(Clone, Copy, Debug, PartialEq, Eq, Structural)]
pub struct ReviewParameters {
    /// Updated stability, in millionths of a day.
    pub stability: u64,
    /// Updated difficulty, in millionths.
    pub difficulty: i64,
    /// Days until the next review.
    pub scheduled_days: u64,
}

pub open spec fn rating_name(r: Rating) -> Seq<char> {
    match r {
        Rating::Again => "Again"@,
        Rating::Hard => "Hard"@,
        Rating::Good => "Good"@,
        Rating::Easy => "Easy"@,
    }
}

/// The rating whose name is `s`, if any.
pub open spec fn rating_of(s: Seq<char>) -> Option<Rating> {
    if s == "Again"@ {
        Some(Rating::Again)
    } else if s == "Hard"@ {
        Some(Rating::Hard)
    } else if s == "Good"@ {
        Some(Rating::Good)
    } else if s == "Easy"@ {
        Some(Rating::Easy)
    } else {
        None
    }
}

/// Ceiling of `a / b` for a positive `b`.
pub open spec fn ceil_div(a: int, b: int) -> int {
    (a + b - 1) / b
}

/// The factor by which stability is multiplied, as `numerator / denominator`,
/// given the retrievability `r` (in millionths).
///   Again: `0.2`; Hard: `1 + 0.5 (1 - R)`; Good: `1 + (1 - R)`;
///   Easy: `1 + 1.3 (1 - R)`.
pub open spec fn stability_factor(rating: Rating, r: int) -> (int, int) {
    let u = UNIT as int;
    match rating {
        Rating::Again => (1, 5),
        Rating::Hard => (2 * u + (u - r), 2 * u),
        Rating::Good => (u + (u - r), u),
        Rating::Easy => (10 * u + 13 * (u - r), 10 * u),
    }
}

/// Updated stability: the exact product rounded up, so that it stays positive.
pub open spec fn next_stability(s: int, rating: Rating, r: int) -> int {
    let (n, d) = stability_factor(rating, r);
    ceil_div(s * n, d)
}

pub open spec fn clamp(x: int, lo: int, hi: int) -> int {
    if x < lo {
        lo
    } else if x > hi {
        hi
    } else {
        x
    }
}

/// Difficulty before clamping: `D + (R - expected) * weight`, where the
/// expected success and the weight depend on the rating. Each adjustment is
/// rounded toward zero to a whole millionth.
///   Again: `(R - 0) * 0.2`; Hard: `(R - 0.6) * 0.15`; Good: `(R - 1) * 0.1`;
///   Easy: `(R - 1) * 0.08`.
pub open spec fn raw_next_difficulty(d: int, rating: Rating, r: int) -> int {
    let u = UNIT as int;
    match rating {
        Rating::Again => d + r / 5,
        Rating::Hard => d + 15 * r / 100 - 90_000,
        Rating::Good => d - (u - r) / 10,
        Rating::Easy => d - 8 * (u - r) / 100,
    }
}

pub open spec fn next_difficulty(d: int, rating: Rating, r: int) -> int {
    clamp(raw_next_difficulty(d, rating, r), MIN_DIFFICULTY as int, MAX_DIFFICULTY as int)
}

/// Twice the difficulty modifier `1 - (D - 0.3) * 0.5`, in millionths.
pub open spec fn modifier2(d: int) -> int {
    2_300_000 - d
}

/// `optimal_days * difficulty_modifier` as `numerator / denominator`, where
/// `optimal_days = -S * ln(0.85)`.
pub open spec fn interval_num(s: int, d: int) -> int {
    s * NEG_LN_TARGET_RETENTION * modifier2(d)
}

pub open spec fn interval_den() -> int {
    2_000_000_000_000_000_000_000
}

/// The interval rounded half up, then clamped to `[MIN_INTERVAL, MAX_INTERVAL]`.
pub open spec fn scheduled_days(s: int, d: int) -> int {
    let rounded = (2 * interval_num(s, d) + interval_den()) / (2 * interval_den());
    clamp(rounded, MIN_INTERVAL as int, MAX_INTERVAL as int)
}

/// For every rating, every positive stability, every difficulty and every
/// retrievability in `[0, 1]`, a review keeps the stability positive, brings
/// the difficulty into `[0.1, 1.0]` and schedules between one day and ten
/// years.
pub proof fn lemma_review_keeps_parameters_in_range(s: int, d: int, r: int, rating: Rating)
    requires
        s > 0,
        0 <= r <= UNIT,
    ensures
        next_stability(s, rating, r) > 0,
        MIN_DIFFICULTY <= next_difficulty(d, rating, r) <= MAX_DIFFICULTY,
        MIN_INTERVAL <= scheduled_days(next_stability(s, rating, r), next_difficulty(d, rating, r))
            <= MAX_INTERVAL,
{
    let (n, q) = stability_factor(rating, r);
    assert(n >= 1 && q >= 1);
    assert(ceil_div(s * n, q) > 0) by (nonlinear_arith)
        requires s > 0, n >= 1, q >= 1, ceil_div(s * n, q) == (s * n + q - 1) / q;
}

/// Reads a rating by its name; any other text is refused.
pub fn parse_rating(s: &str) -> (r: Option<Rating>)
    ensures
        r == rating_of(s@),
{
    let t = String::from_str(s);
    let again = String::from_str("Again");
    let hard = String::from_str("Hard");
    let good = String::from_str("Good");
    let easy = String::from_str("Easy");
    proof {
        reveal_strlit("Again");
        reveal_strlit("Hard");
        reveal_strlit("Good");
        reveal_strlit("Easy");
    }
    if t == again {
        Some(Rating::Again)
    } else if t == hard {
        Some(Rating::Hard)
    } else if t == good {
        Some(Rating::Good)
    } else if t == easy {
        Some(Rating::Easy)
    } else {
        None
    }
}

/// Computes the updated stability and difficulty after a review rated
/// `rating`, and the number of days until the next one.
///
/// `retrievability` is `exp(-elapsed_days / stability)` in millionths: the
/// recall probability at the moment of the review.
pub fn update_word_parameters(
    stability: u64,
    difficulty: i64,
    retrievability: u64,
    rating: Rating,
) -> (p: ReviewParameters)
    requires
        0 < stability <= MAX_STABILITY,
        retrievability <= UNIT,
        -4_000_000_000_000_000_000 <= difficulty <= 4_000_000_000_000_000_000,
    ensures
        p.stability == next_stability(stability as int, rating, retrievability as int),
        p.difficulty == next_difficulty(difficulty as int, rating, retrievability as int),
        p.scheduled_days == scheduled_days(p.stability as int, p.difficulty as int),
        p.stability > 0,
        MIN_DIFFICULTY <= p.difficulty <= MAX_DIFFICULTY,
        MIN_INTERVAL <= p.scheduled_days <= MAX_INTERVAL,
{
    let u: u128 = UNIT as u128;
    let r: u128 = retrievability as u128;
    let (num, den): (u128, u128) = match rating {
        Rating::Again => (1, 5),
        Rating::Hard => (2 * u + (u - r), 2 * u),
        Rating::Good => (u + (u - r), u),
        Rating::Easy => (10 * u + 13 * (u - r), 10 * u),
    };
    assert(1 <= num && 10 * num <= 23 * den && 1 <= den <= 10_000_000);
    let ghost a: int = stability as int * num as int;
    assert(a <= 0x4000_0000_0000_0000 * 23_000_000 && 1 <= a && 10 * a <= 23 * stability * den) by (nonlinear_arith)
        requires a == stability as int * num as int, 1 <= stability <= 0x4000_0000_0000_0000u64,
            1 <= num <= 23_000_000, 10 * num <= 23 * den;
    let new_stability_wide: u128 = ((stability as u128) * num + den - 1) / den;
    proof {
        let dd = den as int;
        assert(new_stability_wide as int == next_stability(stability as int, rating, retrievability as int));
        let q = (a + dd - 1) / dd;
        assert(0 < q && 10 * q <= 23 * stability + 10) by (nonlinear_arith)
            requires a >= 1, dd >= 1, q == (a + dd - 1) / dd, 10 * a <= 23 * stability * dd;
    }
    let ri: i64 = retrievability as i64;
    let raw: i64 = match rating {
        Rating::Again => difficulty + ri / 5,
        Rating::Hard => difficulty + 15 * ri / 100 - 90_000,
        Rating::Good => difficulty - (1_000_000 - ri) / 10,
        Rating::Easy => difficulty - 8 * (1_000_000 - ri) / 100,
    };
    let new_difficulty: i64 = if raw < MIN_DIFFICULTY {
        MIN_DIFFICULTY
    } else if raw > MAX_DIFFICULTY {
        MAX_DIFFICULTY
    } else {
        raw
    };
    let m2: u128 = (2_300_000 - new_difficulty) as u128;
    let s2: u128 = new_stability_wide;
    assert(s2 * (NEG_LN_TARGET_RETENTION as u128) * m2 <= 0x4000_0000_0000_0000 * 3 * 162_518_929 * 2_200_000) by (nonlinear_arith)
        requires 10 * s2 <= 23 * 0x4000_0000_0000_0000 + 10, m2 <= 2_200_000, NEG_LN_TARGET_RETENTION == 162_518_929u64;
    let numer: u128 = s2 * (NEG_LN_TARGET_RETENTION as u128) * m2;
    let den2: u128 = 2_000_000_000_000_000_000_000;
    let rounded: u128 = (2 * numer + den2) / (2 * den2);
    let days: u64 = if rounded < MIN_INTERVAL as u128 {
        MIN_INTERVAL
    } else if rounded > MAX_INTERVAL as u128 {
        MAX_INTERVAL
    } else {
        rounded as u64
    };
    ReviewParameters { stability: new_stability_wide as u64, difficulty: new_difficulty, scheduled_days: days }
}

} // verus!
