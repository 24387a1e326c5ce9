//! The entities of the dataset and the engine's error kinds.
use vstd::prelude::*;

verus! {

/// A word's learning state.
#[derive(Clone, Copy, Debug, PartialEq, Eq, Structural)]
pub enum WordStatus {
    /// Never reviewed.
    New,
    /// Under active review.
    Seen,
    /// Excluded from scheduling for good.
    Known,
}

/// Failures of the engine's operations.
#[derive(Clone, Copy, Debug, PartialEq, Eq, Structural)]
pub enum EngineError {
    /// No entity has the given id.
    NotFound,
    /// A rating or a stored date could not be read, or a value is out of range.
    InvalidInput,
    /// A uniqueness or reference rule would be broken.
    Conflict,
    /// No word is due for review.
    NothingDue,
    /// An id counter is exhausted.
    Storage,
}

pub struct Text {
    pub id: i64,
    pub title: String,
    pub content: String,
}

/// A word, keyed by its exact spelling. Stability is in millionths of a day,
/// difficulty in millionths; dates are RFC 3339 texts.
pub struct Word {
    pub id: i64,
    pub word: String,
    pub status: WordStatus,
    pub meaning: Option<String>,
    pub stability: Option<u64>,
    pub difficulty: Option<i64>,
    pub last_review_date: Option<String>,
    pub next_review_date: Option<String>,
}

/// An association of a text with a word.
#[derive(Clone, Copy, Debug, PartialEq, Eq, Structural)]
pub struct TextWord {
    pub text_id: i64,
    pub word_id: i64,
}

pub struct UserPreference {
    pub id: i64,
    pub country_code: String,
}

/// A complete copy of the dataset, the unit of export and import.
pub struct DatabaseExport {
    pub texts: Vec<Text>,
    pub words: Vec<Word>,
    pub text_words: Vec<TextWord>,
    pub user_preferences: Vec<UserPreference>,
    pub version: String,
}

pub fn copy_string_option(s: &Option<String>) -> (r: Option<String>)
    ensures
        r == *s,
{
    match s {
        Some(x) => Some(x.clone()),
        None => None,
    }
}

impl Text {
    pub fn duplicate(&self) -> (r: Text)
        ensures
            r == *self,
    {
        Text { id: self.id, title: self.title.clone(), content: self.content.clone() }
    }
}

impl Word {
    pub fn duplicate(&self) -> (r: Word)
        ensures
            r == *self,
    {
        Word {
            id: self.id,
            word: self.word.clone(),
            status: self.status,
            meaning: copy_string_option(&self.meaning),
            stability: self.stability,
            difficulty: self.difficulty,
            last_review_date: copy_string_option(&self.last_review_date),
            next_review_date: copy_string_option(&self.next_review_date),
        }
    }
}

impl UserPreference {
    pub fn duplicate(&self) -> (r: UserPreference)
        ensures
            r == *self,
    {
        UserPreference { id: self.id, country_code: self.country_code.clone() }
    }
}

} // verus!
