//! Export of the whole dataset and its all-or-nothing replacement by a
//! snapshot.
use vstd::prelude::*;
use vstd::string::*;
use crate::model::{DatabaseExport, EngineError, Text, TextWord, UserPreference, Word, WordStatus};
use crate::store::{Store, has_text_id, has_word_id, tables_ok};

verus! {

/// The format tag that exports carry.
pub open spec fn format_version() -> Seq<char> {
    "1.0"@
}

/// The largest of `0` and the ids of `ts`.
pub open spec fn max_text_id(ts: Seq<Text>) -> int
    decreases ts.len(),
{
    if ts.len() == 0 {
        0
    } else {
        let m = max_text_id(ts.drop_last());
        if ts.last().id > m { ts.last().id as int } else { m }
    }
}

/// The largest of `0` and the ids of `ws`.
pub open spec fn max_word_id(ws: Seq<Word>) -> int
    decreases ws.len(),
{
    if ws.len() == 0 {
        0
    } else {
        let m = max_word_id(ws.drop_last());
        if ws.last().id > m { ws.last().id as int } else { m }
    }
}

/// The largest of `0` and the ids of `ps`.
pub open spec fn max_preference_id(ps: Seq<UserPreference>) -> int
    decreases ps.len(),
{
    if ps.len() == 0 {
        0
    } else {
        let m = max_preference_id(ps.drop_last());
        if ps.last().id > m { ps.last().id as int } else { m }
    }
}

/// A snapshot that can be restored: its tables obey their keys, uniqueness and
/// references, and no known word has a next review date.
pub open spec fn snapshot_ok(e: DatabaseExport) -> bool {
    &&& tables_ok(e.texts@, e.words@, e.text_words@, e.user_preferences@)
    &&& forall|i: int|
        0 <= i < e.words@.len() ==> (#[trigger] e.words@[i].status == WordStatus::Known
            ==> e.words@[i].next_review_date is None)
}

fn text_ids_unique(ts: &Vec<Text>) -> (r: bool)
    ensures
        r == forall|i: int, j: int| 0 <= i < j < ts@.len() ==> ts@[i].id != ts@[j].id,
{
    let mut j: usize = 0;
    while j < ts.len()
        invariant
            j <= ts@.len(),
            forall|a: int, b: int| 0 <= a < b < j ==> ts@[a].id != ts@[b].id,
        decreases ts@.len() - j,
    {
        let mut i: usize = 0;
        while i < j
            invariant
                i <= j < ts@.len(),
                forall|a: int| 0 <= a < i ==> ts@[a].id != ts@[j as int].id,
            decreases j - i,
        {
            if ts[i].id == ts[j].id {
                return false;
            }
            i = i + 1;
        }
        j = j + 1;
    }
    true
}

fn words_unique(ws: &Vec<Word>) -> (r: bool)
    ensures
        r == ((forall|i: int, j: int| 0 <= i < j < ws@.len() ==> ws@[i].id != ws@[j].id)
            && (forall|i: int, j: int| 0 <= i < j < ws@.len() ==> ws@[i].word@ != ws@[j].word@)),
{
    let mut j: usize = 0;
    while j < ws.len()
        invariant
            j <= ws@.len(),
            forall|a: int, b: int| 0 <= a < b < j ==> ws@[a].id != ws@[b].id,
            forall|a: int, b: int| 0 <= a < b < j ==> ws@[a].word@ != ws@[b].word@,
        decreases ws@.len() - j,
    {
        let mut i: usize = 0;
        while i < j
            invariant
                i <= j < ws@.len(),
                forall|a: int| 0 <= a < i ==> ws@[a].id != ws@[j as int].id,
                forall|a: int| 0 <= a < i ==> ws@[a].word@ != ws@[j as int].word@,
            decreases j - i,
        {
            if ws[i].id == ws[j].id || ws[i].word == ws[j].word {
                return false;
            }
            i = i + 1;
        }
        j = j + 1;
    }
    true
}

fn links_unique(ls: &Vec<TextWord>) -> (r: bool)
    ensures
        r == forall|i: int, j: int| 0 <= i < j < ls@.len() ==> ls@[i] != ls@[j],
{
    let mut j: usize = 0;
    while j < ls.len()
        invariant
            j <= ls@.len(),
            forall|a: int, b: int| 0 <= a < b < j ==> ls@[a] != ls@[b],
        decreases ls@.len() - j,
    {
        let mut i: usize = 0;
        while i < j
            invariant
                i <= j < ls@.len(),
                forall|a: int| 0 <= a < i ==> ls@[a] != ls@[j as int],
            decreases j - i,
        {
            let x = ls[i];
            let y = ls[j];
            if x.text_id == y.text_id && x.word_id == y.word_id {
                return false;
            }
            i = i + 1;
        }
        j = j + 1;
    }
    true
}

fn text_present(ts: &Vec<Text>, id: i64) -> (r: bool)
    ensures
        r == has_text_id(ts@, id),
{
    let mut i: usize = 0;
    while i < ts.len()
        invariant
            i <= ts@.len(),
            forall|k: int| 0 <= k < i ==> ts@[k].id != id,
        decreases ts@.len() - i,
    {
        if ts[i].id == id {
            return true;
        }
        i = i + 1;
    }
    false
}

fn word_present(ws: &Vec<Word>, id: i64) -> (r: bool)
    ensures
        r == has_word_id(ws@, id),
{
    let mut i: usize = 0;
    while i < ws.len()
        invariant
            i <= ws@.len(),
            forall|k: int| 0 <= k < i ==> ws@[k].id != id,
        decreases ws@.len() - i,
    {
        if ws[i].id == id {
            return true;
        }
        i = i + 1;
    }
    false
}

/// Whether the four tables obey their keys, uniqueness and references, and no
/// known word has a next review date.
fn tables_valid(
    texts: &Vec<Text>,
    words: &Vec<Word>,
    text_words: &Vec<TextWord>,
    user_preferences: &Vec<UserPreference>,
) -> (r: bool)
    ensures
        r == (tables_ok(texts@, words@, text_words@, user_preferences@) && forall|i: int|
            0 <= i < words@.len() ==> (#[trigger] words@[i].status == WordStatus::Known
                ==> words@[i].next_review_date is None)),
{
    if user_preferences.len() > 1 {
        return false;
    }
    if !text_ids_unique(texts) || !words_unique(words) || !links_unique(text_words) {
        return false;
    }
    let mut i: usize = 0;
    while i < words.len()
        invariant
            i <= words@.len(),
            forall|k: int| 0 <= k < i ==> (#[trigger] words@[k].status == WordStatus::Known ==> words@[k].next_review_date is None),
        decreases words@.len() - i,
    {
        if words[i].status == WordStatus::Known && words[i].next_review_date.is_some() {
            return false;
        }
        i = i + 1;
    }
    let mut j: usize = 0;
    while j < text_words.len()
        invariant
            j <= text_words@.len(),
            forall|k: int| 0 <= k < j ==> has_text_id(texts@, (#[trigger] text_words@[k]).text_id)
                && has_word_id(words@, text_words@[k].word_id),
        decreases text_words@.len() - j,
    {
        let l = text_words[j];
        if !text_present(texts, l.text_id) || !word_present(words, l.word_id) {
            return false;
        }
        j = j + 1;
    }
    true
}

/// Whether `e` can be restored.
pub fn check_snapshot(e: &DatabaseExport) -> (r: bool)
    ensures
        r == snapshot_ok(*e),
{
    tables_valid(&e.texts, &e.words, &e.text_words, &e.user_preferences)
}

fn max_text_id_of(ts: &Vec<Text>) -> (r: i64)
    ensures
        r == max_text_id(ts@),
        r >= 0,
        forall|i: int| 0 <= i < ts@.len() ==> #[trigger] ts@[i].id <= r,
{
    let mut m: i64 = 0;
    let mut i: usize = 0;
    while i < ts.len()
        invariant
            i <= ts@.len(),
            m == max_text_id(ts@.subrange(0, i as int)),
            m >= 0,
            forall|k: int| 0 <= k < i ==> #[trigger] ts@[k].id <= m,
        decreases ts@.len() - i,
    {
        proof {
            assert(ts@.subrange(0, i as int + 1).drop_last() =~= ts@.subrange(0, i as int));
        }
        if ts[i].id > m {
            m = ts[i].id;
        }
        i = i + 1;
    }
    proof {
        assert(ts@.subrange(0, i as int) =~= ts@);
    }
    m
}

fn max_word_id_of(ws: &Vec<Word>) -> (r: i64)
    ensures
        r == max_word_id(ws@),
        r >= 0,
        forall|i: int| 0 <= i < ws@.len() ==> #[trigger] ws@[i].id <= r,
{
    let mut m: i64 = 0;
    let mut i: usize = 0;
    while i < ws.len()
        invariant
            i <= ws@.len(),
            m == max_word_id(ws@.subrange(0, i as int)),
            m >= 0,
            forall|k: int| 0 <= k < i ==> #[trigger] ws@[k].id <= m,
        decreases ws@.len() - i,
    {
        proof {
            assert(ws@.subrange(0, i as int + 1).drop_last() =~= ws@.subrange(0, i as int));
        }
        if ws[i].id > m {
            m = ws[i].id;
        }
        i = i + 1;
    }
    proof {
        assert(ws@.subrange(0, i as int) =~= ws@);
    }
    m
}

fn max_preference_id_of(ps: &Vec<UserPreference>) -> (r: i64)
    ensures
        r == max_preference_id(ps@),
        r >= 0,
        forall|i: int| 0 <= i < ps@.len() ==> #[trigger] ps@[i].id <= r,
{
    let mut m: i64 = 0;
    let mut i: usize = 0;
    while i < ps.len()
        invariant
            i <= ps@.len(),
            m == max_preference_id(ps@.subrange(0, i as int)),
            m >= 0,
            forall|k: int| 0 <= k < i ==> #[trigger] ps@[k].id <= m,
        decreases ps@.len() - i,
    {
        proof {
            assert(ps@.subrange(0, i as int + 1).drop_last() =~= ps@.subrange(0, i as int));
        }
        if ps[i].id > m {
            m = ps[i].id;
        }
        i = i + 1;
    }
    proof {
        assert(ps@.subrange(0, i as int) =~= ps@);
    }
    m
}

/// An export of a well-formed store is always accepted by the import, which
/// then restores exactly the exported rows.
pub proof fn lemma_export_importable(s: &Store, e: DatabaseExport)
    requires
        s.wf(),
        e.texts@ == s.texts@,
        e.words@ == s.words@,
        e.text_words@ == s.text_words@,
        e.user_preferences@ == s.user_preferences@,
    ensures
        snapshot_ok(e),
{
}

impl Store {
    /// A complete copy of the dataset, tagged with the format version.
    pub fn export_database(&self) -> (r: DatabaseExport)
        ensures
            r.texts@ == self.texts@,
            r.words@ == self.words@,
            r.text_words@ == self.text_words@,
            r.user_preferences@ == self.user_preferences@,
            r.version@ == format_version(),
    {
        let texts = self.get_texts();
        let words = self.get_all_words();
        let mut links: Vec<TextWord> = Vec::new();
        let mut i: usize = 0;
        while i < self.text_words.len()
            invariant
                i <= self.text_words@.len(),
                links@ == self.text_words@.subrange(0, i as int),
            decreases self.text_words@.len() - i,
        {
            links.push(self.text_words[i]);
            proof {
                assert(links@ =~= self.text_words@.subrange(0, i as int + 1));
            }
            i = i + 1;
        }
        let mut prefs: Vec<UserPreference> = Vec::new();
        let mut j: usize = 0;
        while j < self.user_preferences.len()
            invariant
                j <= self.user_preferences@.len(),
                prefs@ == self.user_preferences@.subrange(0, j as int),
            decreases self.user_preferences@.len() - j,
        {
            prefs.push(self.user_preferences[j].duplicate());
            proof {
                assert(prefs@ =~= self.user_preferences@.subrange(0, j as int + 1));
            }
            j = j + 1;
        }
        proof {
            assert(links@ =~= self.text_words@);
            assert(prefs@ =~= self.user_preferences@);
            reveal_strlit("1.0");
        }
        DatabaseExport {
            texts,
            words,
            text_words: links,
            user_preferences: prefs,
            version: String::from_str("1.0"),
        }
    }

    /// Replaces the whole dataset by `snapshot`, keeping its ids, and sets each
    /// id counter to the largest id of its table (or zero), so that later rows
    /// get ids above every restored one. A snapshot that breaks a key,
    /// uniqueness or reference rule is refused with `Conflict` and nothing
    /// changes.
    pub fn import_database(&mut self, snapshot: DatabaseExport) -> (r: Result<(), EngineError>)
        requires
            old(self).wf(),
        ensures
            final(self).wf(),
            r is Ok <==> snapshot_ok(snapshot),
            r is Err ==> r == Err::<(), EngineError>(EngineError::Conflict) && final(self).same_as(old(self)),
            r is Ok ==> {
                &&& final(self).texts@ == snapshot.texts@
                &&& final(self).words@ == snapshot.words@
                &&& final(self).text_words@ == snapshot.text_words@
                &&& final(self).user_preferences@ == snapshot.user_preferences@
                &&& final(self).text_seq == max_text_id(snapshot.texts@)
                &&& final(self).word_seq == max_word_id(snapshot.words@)
                &&& final(self).preference_seq == max_preference_id(snapshot.user_preferences@)
            },
    {
        if !check_snapshot(&snapshot) {
            return Err(EngineError::Conflict);
        }
        let ts = max_text_id_of(&snapshot.texts);
        let ws = max_word_id_of(&snapshot.words);
        let ps = max_preference_id_of(&snapshot.user_preferences);
        let DatabaseExport { texts, words, text_words, user_preferences, version: _ } = snapshot;
        self.texts = texts;
        self.words = words;
        self.text_words = text_words;
        self.user_preferences = user_preferences;
        self.text_seq = ts;
        self.word_seq = ws;
        self.preference_seq = ps;
        Ok(())
    }

    /// Whether the store is well formed: what every mutating operation
    /// requires, for a store whose fields were set by hand.
    pub fn is_well_formed(&self) -> (r: bool)
        ensures
            r == self.wf(),
    {
        if !tables_valid(&self.texts, &self.words, &self.text_words, &self.user_preferences) {
            return false;
        }
        let mut i: usize = 0;
        while i < self.texts.len()
            invariant
                i <= self.texts@.len(),
                forall|k: int| 0 <= k < i ==> #[trigger] self.texts@[k].id <= self.text_seq,
            decreases self.texts@.len() - i,
        {
            if self.texts[i].id > self.text_seq {
                return false;
            }
            i = i + 1;
        }
        let mut j: usize = 0;
        while j < self.words.len()
            invariant
                j <= self.words@.len(),
                forall|k: int| 0 <= k < j ==> #[trigger] self.words@[k].id <= self.word_seq,
            decreases self.words@.len() - j,
        {
            if self.words[j].id > self.word_seq {
                return false;
            }
            j = j + 1;
        }
        let mut k: usize = 0;
        while k < self.user_preferences.len()
            invariant
                k <= self.user_preferences@.len(),
                forall|m: int| 0 <= m < k ==> #[trigger] self.user_preferences@[m].id <= self.preference_seq,
            decreases self.user_preferences@.len() - k,
        {
            if self.user_preferences[k].id > self.preference_seq {
                return false;
            }
            k = k + 1;
        }
        true
    }
}

} // verus!
