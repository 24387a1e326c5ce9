//! Reviewing words: picking the most overdue one, estimating retention, and
//! recording a rated review.
use vstd::prelude::*;
use crate::clock::{
    Timestamp, add_days, days_between, days_since, format_rfc3339, instant_of, is_not_after,
    not_after, parse_rfc3339, rfc3339_text, SECONDS_PER_DAY,
};
use crate::model::{EngineError, Word, WordStatus};
use crate::scheduler::{
    BASE_DIFFICULTY, BASE_STABILITY, MAX_DIFFICULTY, MAX_INTERVAL, MAX_STABILITY, MIN_DIFFICULTY,
    MIN_INTERVAL, ReviewParameters, UNIT, next_difficulty, next_stability, parse_rating, rating_of,
    scheduled_days, update_word_parameters,
};
use crate::store::{Store, has_word_id};

verus! {

/// The instant of a word's next review, where it has a readable one.
pub open spec fn next_review_instant(w: Word) -> Option<Timestamp> {
    match w.next_review_date {
        Some(s) => instant_of(s@),
        None => None,
    }
}

/// A word is due at `now`: it is under review and its next review date is
/// readable and not after `now`.
pub open spec fn is_due(w: Word, now: Timestamp) -> bool {
    &&& w.status == WordStatus::Seen
    &&& next_review_instant(w) is Some
    &&& not_after(next_review_instant(w)->Some_0, now)
}

/// Where the recall probability of a word stands.
#[derive(Clone, Copy, Debug, PartialEq, Eq, Structural)]
pub enum Retention {
    /// The word has no stability: the probability is `0`.
    NoData,
    /// The word was never reviewed: the probability is `1`.
    Fresh,
    /// The probability is `exp(-elapsed_days / stability)`, with the
    /// stability in millionths of a day.
    Decayed { elapsed_days: u64, stability: u64 },
}

/// The quantities a review starts from.
#[derive(Clone, Copy, Debug, PartialEq, Eq, Structural)]
pub struct ReviewInputs {
    /// Stored stability, or the base stability where none (or zero) is stored.
    pub stability: u64,
    /// Stored difficulty, or the base difficulty where none is stored.
    pub difficulty: i64,
    /// Whole days since the last review, at least one; one on a first review.
    pub elapsed_days: u64,
}

pub open spec fn effective_stability(w: Word) -> int {
    match w.stability {
        Some(s) => if s == 0 { BASE_STABILITY as int } else { s as int },
        None => BASE_STABILITY as int,
    }
}

pub open spec fn effective_difficulty(w: Word) -> int {
    match w.difficulty {
        Some(d) => d as int,
        None => BASE_DIFFICULTY as int,
    }
}

/// The stored numbers lie where the scheduler's arithmetic accepts them.
pub open spec fn parameters_in_range(w: Word) -> bool {
    &&& effective_stability(w) <= MAX_STABILITY
    &&& -4_000_000_000_000_000_000 <= effective_difficulty(w) <= 4_000_000_000_000_000_000
}

/// The last review date is absent or readable.
pub open spec fn last_review_readable(w: Word) -> bool {
    match w.last_review_date {
        Some(s) => instant_of(s@) is Some,
        None => true,
    }
}

pub open spec fn elapsed_review_days(w: Word, now: Timestamp) -> int {
    match w.last_review_date {
        Some(s) => {
            let d = days_between(now, instant_of(s@)->Some_0);
            if d < 1 { 1 } else { d }
        },
        None => 1,
    }
}

/// A word with status `New` or `Known` is never due, whatever its next review
/// date: the selector only ever returns `Seen` words.
pub proof fn lemma_due_excludes_new_and_known(w: Word, now: Timestamp)
    requires
        w.status == WordStatus::New || w.status == WordStatus::Known,
    ensures
        !is_due(w, now),
{
}

/// The whole days elapsed since a fixed instant do not decrease as the
/// current time moves forward.
pub proof fn lemma_elapsed_days_monotone(since: Timestamp, t1: Timestamp, t2: Timestamp)
    requires
        not_after(t1, t2),
    ensures
        days_between(t1, since) <= days_between(t2, since),
{
    let a = crate::clock::total_nanos(t1) - crate::clock::total_nanos(since);
    let b = crate::clock::total_nanos(t2) - crate::clock::total_nanos(since);
    if a > 0 {
        assert(a / crate::clock::NANOS_PER_DAY as int <= b / crate::clock::NANOS_PER_DAY as int) by (nonlinear_arith)
            requires 0 < a <= b;
    }
}

impl Store {
    /// The position of the most overdue word: among the `Seen` words whose
    /// next review date is not after `now`, one with the earliest such date.
    /// Of equal dates the first in store order wins. `New` and `Known` words
    /// are never picked.
    pub fn next_due(&self, now: Timestamp) -> (r: Result<usize, EngineError>)
        ensures
            match r {
                Ok(i) => {
                    &&& i < self.words@.len()
                    &&& is_due(self.words@[i as int], now)
                    &&& forall|j: int|
                        0 <= j < self.words@.len() && is_due(#[trigger] self.words@[j], now) ==> not_after(
                            next_review_instant(self.words@[i as int])->Some_0,
                            next_review_instant(self.words@[j])->Some_0,
                        )
                },
                Err(e) => e == EngineError::NothingDue && forall|j: int|
                    0 <= j < self.words@.len() ==> !is_due(#[trigger] self.words@[j], now),
            },
    {
        let mut best: Option<usize> = None;
        let mut best_at = now;
        let mut i: usize = 0;
        while i < self.words.len()
            invariant
                i <= self.words@.len(),
                match best {
                    Some(b) => {
                        &&& b < i
                        &&& is_due(self.words@[b as int], now)
                        &&& next_review_instant(self.words@[b as int]) == Some(best_at)
                        &&& forall|j: int|
                            0 <= j < i && is_due(#[trigger] self.words@[j], now) ==> not_after(
                                best_at,
                                next_review_instant(self.words@[j])->Some_0,
                            )
                    },
                    None => forall|j: int| 0 <= j < i ==> !is_due(#[trigger] self.words@[j], now),
                },
            decreases self.words@.len() - i,
        {
            let w = &self.words[i];
            if w.status == WordStatus::Seen {
                match &w.next_review_date {
                    Some(text) => {
                        match parse_rfc3339(text.as_str()) {
                            Some(at) => {
                                if is_not_after(at, now) {
                                    let better = match best {
                                        None => true,
                                        Some(_) => !is_not_after(best_at, at),
                                    };
                                    if better {
                                        best = Some(i);
                                        best_at = at;
                                    }
                                }
                            },
                            None => {},
                        }
                    },
                    None => {},
                }
            }
            i = i + 1;
        }
        match best {
            Some(b) => Ok(b),
            None => Err(EngineError::NothingDue),
        }
    }

    /// A copy of the most overdue word (see `next_due`).
    pub fn get_random_word(&self, now: Timestamp) -> (r: Result<Word, EngineError>)
        ensures
            match r {
                Ok(w) => exists|i: int|
                    0 <= i < self.words@.len() && self.words@[i] == w && is_due(w, now) && forall|j: int|
                        0 <= j < self.words@.len() && is_due(#[trigger] self.words@[j], now) ==> not_after(
                            next_review_instant(w)->Some_0,
                            next_review_instant(self.words@[j])->Some_0,
                        ),
                Err(e) => e == EngineError::NothingDue && forall|j: int|
                    0 <= j < self.words@.len() ==> !is_due(#[trigger] self.words@[j], now),
            },
    {
        match self.next_due(now) {
            Ok(i) => Ok(self.words[i].duplicate()),
            Err(e) => Err(e),
        }
    }

    /// Where the recall probability of the word `word_id` stands at `now`.
    pub fn estimate_word_retention(&self, word_id: i64, now: Timestamp) -> (r: Result<Retention, EngineError>)
        ensures
            !has_word_id(self.words@, word_id) ==> r == Err::<Retention, EngineError>(EngineError::NotFound),
            has_word_id(self.words@, word_id) ==> exists|i: int|
                0 <= i < self.words@.len() && self.words@[i].id == word_id && r == (match self.words@[i].stability {
                    None => Ok(Retention::NoData),
                    Some(s) => match self.words@[i].last_review_date {
                        None => Ok(Retention::Fresh),
                        Some(d) => match instant_of(d@) {
                            None => Err(EngineError::InvalidInput),
                            Some(t) => Ok(Retention::Decayed { elapsed_days: days_between(now, t) as u64, stability: s }),
                        },
                    },
                }),
    {
        let i = match self.find_word(word_id) {
            Some(i) => i,
            None => {
                return Err(EngineError::NotFound);
            },
        };
        let w = &self.words[i];
        match w.stability {
            None => Ok(Retention::NoData),
            Some(s) => match &w.last_review_date {
                None => Ok(Retention::Fresh),
                Some(d) => match parse_rfc3339(d.as_str()) {
                    None => Err(EngineError::InvalidInput),
                    Some(t) => Ok(Retention::Decayed { elapsed_days: days_since(now, t), stability: s }),
                },
            },
        }
    }

    /// The stability, difficulty and elapsed days that a review of the word
    /// `word_id` at `now` starts from. `NotFound` where no word has that id;
    /// `InvalidInput` where its last review date cannot be read or its
    /// numbers lie outside what the scheduler accepts.
    pub fn review_inputs(&self, word_id: i64, now: Timestamp) -> (r: Result<ReviewInputs, EngineError>)
        ensures
            !has_word_id(self.words@, word_id) ==> r == Err::<ReviewInputs, EngineError>(EngineError::NotFound),
            has_word_id(self.words@, word_id) ==> exists|i: int|
                0 <= i < self.words@.len() && self.words@[i].id == word_id && {
                    let w = self.words@[i];
                    if last_review_readable(w) && parameters_in_range(w) {
                        r == Ok::<ReviewInputs, EngineError>(ReviewInputs {
                            stability: effective_stability(w) as u64,
                            difficulty: effective_difficulty(w) as i64,
                            elapsed_days: elapsed_review_days(w, now) as u64,
                        })
                    } else {
                        r == Err::<ReviewInputs, EngineError>(EngineError::InvalidInput)
                    }
                },
            r is Ok ==> 0 < r->Ok_0.stability <= MAX_STABILITY && r->Ok_0.elapsed_days >= 1,
    {
        let i = match self.find_word(word_id) {
            Some(i) => i,
            None => {
                return Err(EngineError::NotFound);
            },
        };
        let w = &self.words[i];
        let elapsed: u64 = match &w.last_review_date {
            None => 1,
            Some(d) => match parse_rfc3339(d.as_str()) {
                None => {
                    return Err(EngineError::InvalidInput);
                },
                Some(t) => {
                    let n = days_since(now, t);
                    if n < 1 { 1 } else { n }
                },
            },
        };
        let stability: u64 = match w.stability {
            Some(s) => if s == 0 { BASE_STABILITY } else { s },
            None => BASE_STABILITY,
        };
        let difficulty: i64 = match w.difficulty {
            Some(d) => d,
            None => BASE_DIFFICULTY,
        };
        if stability > MAX_STABILITY || difficulty < -4_000_000_000_000_000_000 || difficulty > 4_000_000_000_000_000_000 {
            return Err(EngineError::InvalidInput);
        }
        Ok(ReviewInputs { stability, difficulty, elapsed_days: elapsed })
    }

    /// Records a review of the word `word_id` rated `rating` at `now`.
    /// `retrievability` is `exp(-elapsed_days / stability)` in millionths,
    /// over the inputs that `review_inputs` gives for the same word and time.
    /// The word gets the updated stability and difficulty, `now` as its last
    /// review date and `now` plus the scheduled days as its next one.
    ///
    /// Fails with `NotFound` where no word has that id, with `InvalidInput`
    /// where its stored numbers or last review date are unusable, the rating
    /// is not one of `Again`, `Hard`, `Good`, `Easy`, the word is known, the
    /// retrievability exceeds one, or a date cannot be written.
    pub fn review_word(&mut self, word_id: i64, rating: &str, now: Timestamp, retrievability: u64) -> (r: Result<ReviewParameters, EngineError>)
        requires
            old(self).wf(),
        ensures
            final(self).wf(),
            r is Err ==> final(self).same_as(old(self)),
            !has_word_id(old(self).words@, word_id) ==> r == Err::<ReviewParameters, EngineError>(EngineError::NotFound),
            rating_of(rating@) is None && has_word_id(old(self).words@, word_id)
                ==> r == Err::<ReviewParameters, EngineError>(EngineError::InvalidInput),
            retrievability > UNIT && has_word_id(old(self).words@, word_id)
                ==> r == Err::<ReviewParameters, EngineError>(EngineError::InvalidInput),
            r is Err ==> r == Err::<ReviewParameters, EngineError>(EngineError::NotFound)
                || r == Err::<ReviewParameters, EngineError>(EngineError::InvalidInput),
            r is Ok ==> r->Ok_0.stability > 0 && MIN_DIFFICULTY <= r->Ok_0.difficulty <= MAX_DIFFICULTY
                && MIN_INTERVAL <= r->Ok_0.scheduled_days <= MAX_INTERVAL,
            has_word_id(old(self).words@, word_id) ==> exists|i: int|
                0 <= i < old(self).words@.len() && old(self).words@[i].id == word_id && {
                    let w = old(self).words@[i];
                    let s = effective_stability(w);
                    let d = effective_difficulty(w);
                    let rt = rating_of(rating@)->Some_0;
                    let s2 = next_stability(s, rt, retrievability as int);
                    let d2 = next_difficulty(d, rt, retrievability as int);
                    let days = scheduled_days(s2, d2);
                    let next = Timestamp { secs: (now.secs + days * SECONDS_PER_DAY) as i64, nanos: now.nanos };
                    &&& (r is Ok <==> last_review_readable(w) && parameters_in_range(w)
                        && rating_of(rating@) is Some && w.status != WordStatus::Known
                        && retrievability <= UNIT
                        && i64::MIN <= now.secs + days * SECONDS_PER_DAY <= i64::MAX
                        && rfc3339_text(now.secs, now.nanos) is Some
                        && rfc3339_text(next.secs, next.nanos) is Some)
                    &&& r is Ok ==> {
                        let n = final(self).words@[i];
                        &&& r->Ok_0 == (ReviewParameters { stability: s2 as u64, difficulty: d2 as i64, scheduled_days: days as u64 })
                        &&& final(self).words@ == old(self).words@.update(i, n)
                        &&& n.id == w.id && n.word == w.word && n.status == w.status && n.meaning == w.meaning
                        &&& n.stability == Some(s2 as u64)
                        &&& n.difficulty == Some(d2 as i64)
                        &&& n.last_review_date is Some && rfc3339_text(now.secs, now.nanos) == Some(n.last_review_date->Some_0@)
                        &&& n.next_review_date is Some && rfc3339_text(next.secs, next.nanos) == Some(n.next_review_date->Some_0@)
                        &&& final(self).texts@ == old(self).texts@
                        &&& final(self).text_words@ == old(self).text_words@
                        &&& final(self).user_preferences@ == old(self).user_preferences@
                    }
                },
    {
        let inputs = match self.review_inputs(word_id, now) {
            Ok(x) => x,
            Err(e) => {
                return Err(e);
            },
        };
        let rt = match parse_rating(rating) {
            Some(x) => x,
            None => {
                return Err(EngineError::InvalidInput);
            },
        };
        let i = match self.find_word(word_id) {
            Some(i) => i,
            None => {
                return Err(EngineError::NotFound);
            },
        };
        proof {
            assert forall|k: int| 0 <= k < self.words@.len() && self.words@[k].id == word_id implies k == i by {
                if k != i {
                    if k < i {
                        assert(self.words@[k].id != self.words@[i as int].id);
                    } else {
                        assert(self.words@[i as int].id != self.words@[k].id);
                    }
                }
            }
        }
        if self.words[i].status == WordStatus::Known || retrievability > UNIT {
            return Err(EngineError::InvalidInput);
        }
        let p = update_word_parameters(inputs.stability, inputs.difficulty, retrievability, rt);
        let next = match add_days(now, p.scheduled_days) {
            Some(t) => t,
            None => {
                return Err(EngineError::InvalidInput);
            },
        };
        let last_text = match format_rfc3339(now) {
            Some(x) => x,
            None => {
                return Err(EngineError::InvalidInput);
            },
        };
        let next_text = match format_rfc3339(next) {
            Some(x) => x,
            None => {
                return Err(EngineError::InvalidInput);
            },
        };
        let mut w = self.words[i].duplicate();
        w.stability = Some(p.stability);
        w.difficulty = Some(p.difficulty);
        w.last_review_date = Some(last_text);
        w.next_review_date = Some(next_text);
        self.replace_word(i, w);
        Ok(p)
    }
}

} // verus!
