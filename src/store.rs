//! The in-memory dataset: texts, words, their links and the user preference,
//! with the id counters that new rows draw from.
use vstd::prelude::*;
use crate::model::{EngineError, Text, TextWord, UserPreference, Word, WordStatus};
use crate::clock::{Timestamp, format_rfc3339, rfc3339_text};
use crate::tokenizer::{display_tokens, display_words, letter_runs, letter_tokens, strings_view};

verus! {

/// Stability given to a word when the linker first creates it (`1.0` days).
/// It differs from the scheduler's own fallback on purpose.
pub const NEW_WORD_STABILITY: u64 = 1_000_000;

/// Difficulty given to a word when the linker first creates it (`5.0`). It
/// differs from the scheduler's own fallback on purpose.
pub const NEW_WORD_DIFFICULTY: i64 = 5_000_000;

pub struct Store {
    pub texts: Vec<Text>,
    pub words: Vec<Word>,
    pub text_words: Vec<TextWord>,
    pub user_preferences: Vec<UserPreference>,
    /// The largest text id handed out so far.
    pub text_seq: i64,
    /// The largest word id handed out so far.
    pub word_seq: i64,
    /// The largest preference id handed out so far.
    pub preference_seq: i64,
}

pub open spec fn has_text_id(ts: Seq<Text>, id: i64) -> bool {
    exists|i: int| 0 <= i < ts.len() && ts[i].id == id
}

pub open spec fn has_word_id(ws: Seq<Word>, id: i64) -> bool {
    exists|i: int| 0 <= i < ws.len() && ws[i].id == id
}

pub open spec fn has_spelling(ws: Seq<Word>, s: Seq<char>) -> bool {
    exists|i: int| 0 <= i < ws.len() && ws[i].word@ == s
}

/// A word as the linker first creates it.
pub open spec fn is_fresh_word(w: Word) -> bool {
    &&& w.status == WordStatus::New
    &&& w.meaning is None
    &&& w.stability == Some(NEW_WORD_STABILITY)
    &&& w.difficulty == Some(NEW_WORD_DIFFICULTY)
    &&& w.last_review_date is None
    &&& w.next_review_date is None
}

/// The rows of the four tables obey their keys, uniqueness and references.
pub open spec fn tables_ok(
    ts: Seq<Text>,
    ws: Seq<Word>,
    ls: Seq<TextWord>,
    ps: Seq<UserPreference>,
) -> bool {
    &&& forall|i: int, j: int| 0 <= i < j < ts.len() ==> ts[i].id != ts[j].id
    &&& forall|i: int, j: int| 0 <= i < j < ws.len() ==> ws[i].id != ws[j].id
    &&& forall|i: int, j: int| 0 <= i < j < ws.len() ==> ws[i].word@ != ws[j].word@
    &&& forall|i: int, j: int| 0 <= i < j < ls.len() ==> ls[i] != ls[j]
    &&& forall|i: int|
        0 <= i < ls.len() ==> has_text_id(ts, #[trigger] ls[i].text_id) && has_word_id(
            ws,
            ls[i].word_id,
        )
    &&& ps.len() <= 1
}

/// `ws` followed by words as the linker creates them, each spelled as one of
/// `toks`.
pub open spec fn words_grown(before: Seq<Word>, after: Seq<Word>, toks: Seq<Seq<char>>) -> bool {
    &&& before.len() <= after.len()
    &&& forall|i: int| 0 <= i < before.len() ==> #[trigger] after[i] == before[i]
    &&& forall|i: int|
        before.len() <= i < after.len() ==> is_fresh_word(#[trigger] after[i]) && toks.contains(
            after[i].word@,
        )
}

/// `before` followed by links of the text `text_id`.
pub open spec fn links_grown(before: Seq<TextWord>, after: Seq<TextWord>, text_id: i64) -> bool {
    &&& before.len() <= after.len()
    &&& forall|j: int| 0 <= j < before.len() ==> #[trigger] after[j] == before[j]
    &&& forall|j: int| before.len() <= j < after.len() ==> (#[trigger] after[j]).text_id == text_id
}

/// What linking the text `text_id` to `toks` does to the words, the links and
/// the word counter: words are only appended, as the linker creates them,
/// spelled as tokens and numbered above the old counter; links of the text are
/// only appended, each to a word spelled as one of the tokens.
pub open spec fn linking_growth(
    ow: Seq<Word>,
    ol: Seq<TextWord>,
    oseq: i64,
    nw: Seq<Word>,
    nl: Seq<TextWord>,
    nseq: i64,
    text_id: i64,
    toks: Seq<Seq<char>>,
) -> bool {
    &&& nseq == oseq + (nw.len() - ow.len())
    &&& words_grown(ow, nw, toks)
    &&& forall|i: int| ow.len() <= i < nw.len() ==> #[trigger] nw[i].id > oseq
    &&& links_grown(ol, nl, text_id)
    &&& forall|j: int| ol.len() <= j < nl.len() ==> links_token_word(nw, #[trigger] nl[j], toks)
}

/// The link `l` leads to a word of `ws` spelled as one of `toks`.
pub open spec fn links_token_word(ws: Seq<Word>, l: TextWord, toks: Seq<Seq<char>>) -> bool {
    exists|i: int| 0 <= i < ws.len() && ws[i].id == l.word_id && toks.contains(ws[i].word@)
}

/// Some word with the id that `l` names has status `st`.
pub open spec fn link_has_status(ws: Seq<Word>, l: TextWord, st: WordStatus) -> bool {
    exists|i: int| 0 <= i < ws.len() && ws[i].id == l.word_id && ws[i].status == st
}

/// How many links of `text_id` lead to a word of status `st`.
pub open spec fn count_links(ls: Seq<TextWord>, ws: Seq<Word>, text_id: i64, st: WordStatus) -> nat
    decreases ls.len(),
{
    if ls.len() == 0 {
        0
    } else {
        count_links(ls.drop_last(), ws, text_id, st) + if ls.last().text_id == text_id && link_has_status(
            ws,
            ls.last(),
            st,
        ) {
            1nat
        } else {
            0nat
        }
    }
}

/// The words whose spellings are `toks`, in order, skipping tokens that no
/// word has.
pub open spec fn words_for(ws: Seq<Word>, toks: Seq<Seq<char>>) -> Seq<Word>
    decreases toks.len(),
{
    if toks.len() == 0 {
        Seq::empty()
    } else {
        let rest = words_for(ws, toks.drop_last());
        if has_spelling(ws, toks.last()) {
            rest.push(ws[choose|i: int| 0 <= i < ws.len() && ws[i].word@ == toks.last()])
        } else {
            rest
        }
    }
}

/// Whether the link `l` stays when the text (`of_text`) or the word `id` goes.
pub open spec fn keeps_link(l: TextWord, id: i64, of_text: bool) -> bool {
    if of_text {
        l.text_id != id
    } else {
        l.word_id != id
    }
}

/// A link of `text_id` to the word spelled `s` survives appending words and
/// links.
proof fn lemma_linked_persists(a: &Store, b: &Store, text_id: i64, s: Seq<char>)
    requires
        a.linked(text_id, s),
        a.words@.len() <= b.words@.len(),
        forall|i: int| 0 <= i < a.words@.len() ==> #[trigger] b.words@[i] == a.words@[i],
        a.text_words@.len() <= b.text_words@.len(),
        forall|j: int| 0 <= j < a.text_words@.len() ==> #[trigger] b.text_words@[j] == a.text_words@[j],
    ensures
        b.linked(text_id, s),
{
    let (i, j) = choose|i: int, j: int|
        0 <= i < a.words@.len() && 0 <= j < a.text_words@.len() && a.words@[i].word@ == s
            && a.text_words@[j] == (TextWord { text_id, word_id: a.words@[i].id });
    assert(b.words@[i] == a.words@[i]);
    assert(b.text_words@[j] == a.text_words@[j]);
}

proof fn lemma_grown_trans(a: &Store, b: &Store, c: &Store, text_id: i64, toks: Seq<Seq<char>>)
    requires
        b.grown_by_linking(a, text_id, toks),
        c.grown_by_linking(b, text_id, toks),
    ensures
        c.grown_by_linking(a, text_id, toks),
{
    assert forall|i: int| 0 <= i < a.words@.len() implies #[trigger] c.words@[i] == a.words@[i] by {
        assert(c.words@[i] == b.words@[i]);
    }
    assert forall|i: int| a.words@.len() <= i < c.words@.len() implies is_fresh_word(#[trigger] c.words@[i])
        && toks.contains(c.words@[i].word@) by {
        if i < b.words@.len() {
            assert(c.words@[i] == b.words@[i]);
        }
    }
    assert forall|i: int| a.words@.len() <= i < c.words@.len() implies #[trigger] c.words@[i].id > a.word_seq by {
        if i < b.words@.len() {
            assert(c.words@[i] == b.words@[i]);
        }
    }
    assert forall|j: int| 0 <= j < a.text_words@.len() implies #[trigger] c.text_words@[j] == a.text_words@[j] by {
        assert(c.text_words@[j] == b.text_words@[j]);
    }
    assert forall|j: int| a.text_words@.len() <= j < c.text_words@.len() implies (#[trigger] c.text_words@[j]).text_id == text_id by {
        if j < b.text_words@.len() {
            assert(c.text_words@[j] == b.text_words@[j]);
        }
    }
    assert forall|j: int| a.text_words@.len() <= j < c.text_words@.len() implies links_token_word(c.words@, #[trigger] c.text_words@[j], toks) by {
        if j < b.text_words@.len() {
            assert(c.text_words@[j] == b.text_words@[j]);
            assert(a.text_words@.len() <= j < b.text_words@.len());
            let l = b.text_words@[j];
            assert(exists|i: int| 0 <= i < b.words@.len() && b.words@[i].id == l.word_id && toks.contains(b.words@[i].word@));
            let i = choose|i: int|
                0 <= i < b.words@.len() && b.words@[i].id == l.word_id && toks.contains(b.words@[i].word@);
            assert(c.words@[i] == b.words@[i]);
            assert(0 <= i < c.words@.len() && c.words@[i].id == c.text_words@[j].word_id && toks.contains(c.words@[i].word@));
        } else {
            assert(b.text_words@.len() <= j < c.text_words@.len());
            let l = c.text_words@[j];
            assert(exists|i: int| 0 <= i < c.words@.len() && c.words@[i].id == l.word_id && toks.contains(c.words@[i].word@));
        }
    }
    assert(c.word_seq == a.word_seq + (c.words@.len() - a.words@.len()));
    assert(words_grown(a.words@, c.words@, toks));
    assert(links_grown(a.text_words@, c.text_words@, text_id));
}

/// What linking the text `text_id` to the tokens `toks` does, taking `o` to
/// `n` with the result `r`.
pub open spec fn link_result(o: &Store, n: &Store, text_id: i64, toks: Seq<Seq<char>>, r: Result<(), EngineError>) -> bool {
    &&& n.wf()
    &&& n.grown_by_linking(o, text_id, toks)
    &&& (r == Err::<(), EngineError>(EngineError::NotFound) <==> !has_text_id(o.texts@, text_id))
    &&& (!has_text_id(o.texts@, text_id) ==> n.same_as(o))
    &&& (has_text_id(o.texts@, text_id) && o.word_seq <= i64::MAX - toks.len() ==> r is Ok)
    &&& (r is Ok ==> n.all_linked(text_id, toks))
    &&& (r is Err ==> r == Err::<(), EngineError>(EngineError::NotFound) || r
        == Err::<(), EngineError>(EngineError::Storage))
    &&& (has_text_id(o.texts@, text_id) && o.all_linked(text_id, toks) ==> r is Ok && n.same_as(o))
}

/// Linking a text to the same content a second time, after a first linking
/// succeeded, succeeds and changes nothing: no word and no link is added, and
/// spellings and text-word pairs stay unique.
pub proof fn lemma_link_idempotent(
    s0: &Store,
    s1: &Store,
    s2: &Store,
    text_id: i64,
    toks: Seq<Seq<char>>,
    r1: Result<(), EngineError>,
    r2: Result<(), EngineError>,
)
    requires
        s0.wf(),
        link_result(s0, s1, text_id, toks, r1),
        r1 is Ok,
        link_result(s1, s2, text_id, toks, r2),
    ensures
        r2 is Ok,
        s2.same_as(s1),
        forall|i: int, j: int| 0 <= i < j < s2.words@.len() ==> s2.words@[i].word@ != s2.words@[j].word@,
        forall|i: int, j: int| 0 <= i < j < s2.text_words@.len() ==> s2.text_words@[i] != s2.text_words@[j],
{
}

/// Words that linking creates get ids above every id the store held before,
/// however those ids came there (an import included).
pub proof fn lemma_new_word_ids_exceed_existing(o: &Store, n: &Store, text_id: i64, toks: Seq<Seq<char>>)
    requires
        o.wf(),
        n.grown_by_linking(o, text_id, toks),
    ensures
        forall|i: int, j: int|
            o.words@.len() <= i < n.words@.len() && 0 <= j < o.words@.len() ==> #[trigger] n.words@[i].id
                > #[trigger] o.words@[j].id,
{
    assert forall|i: int, j: int|
        o.words@.len() <= i < n.words@.len() && 0 <= j < o.words@.len() implies #[trigger] n.words@[i].id
            > #[trigger] o.words@[j].id by {
        assert(o.words@[j].id <= o.word_seq);
    }
}

impl Store {
    pub open spec fn wf(&self) -> bool {
        &&& tables_ok(self.texts@, self.words@, self.text_words@, self.user_preferences@)
        &&& forall|i: int| 0 <= i < self.texts@.len() ==> #[trigger] self.texts@[i].id <= self.text_seq
        &&& forall|i: int| 0 <= i < self.words@.len() ==> #[trigger] self.words@[i].id <= self.word_seq
        &&& forall|i: int|
            0 <= i < self.user_preferences@.len() ==> #[trigger] self.user_preferences@[i].id
                <= self.preference_seq
        &&& forall|i: int|
            0 <= i < self.words@.len() ==> (#[trigger] self.words@[i].status == WordStatus::Known
                ==> self.words@[i].next_review_date is None)
    }

    /// `text_id` is linked to the word spelled `s`.
    pub open spec fn linked(&self, text_id: i64, s: Seq<char>) -> bool {
        exists|i: int, j: int|
            0 <= i < self.words@.len() && 0 <= j < self.text_words@.len() && self.words@[i].word@
                == s && self.text_words@[j] == (TextWord { text_id, word_id: self.words@[i].id })
    }

    /// Every token in `toks` is linked to `text_id`.
    pub open spec fn all_linked(&self, text_id: i64, toks: Seq<Seq<char>>) -> bool {
        forall|k: int| 0 <= k < toks.len() ==> self.linked(text_id, #[trigger] toks[k])
    }


    /// The two stores hold the same rows and counters.
    pub open spec fn same_as(&self, o: &Store) -> bool {
        &&& self.texts@ == o.texts@
        &&& self.words@ == o.words@
        &&& self.text_words@ == o.text_words@
        &&& self.user_preferences@ == o.user_preferences@
        &&& self.text_seq == o.text_seq
        &&& self.word_seq == o.word_seq
        &&& self.preference_seq == o.preference_seq
    }

    /// `self` is `o` with words appended, each as the linker creates it and
    /// spelled as one of `toks`, and with links of `text_id` appended.
    pub open spec fn grown_by_linking(&self, o: &Store, text_id: i64, toks: Seq<Seq<char>>) -> bool {
        &&& self.texts@ == o.texts@
        &&& self.user_preferences@ == o.user_preferences@
        &&& self.text_seq == o.text_seq
        &&& self.preference_seq == o.preference_seq
        &&& linking_growth(
            o.words@,
            o.text_words@,
            o.word_seq,
            self.words@,
            self.text_words@,
            self.word_seq,
            text_id,
            toks,
        )
    }

    /// An empty dataset.
    pub fn new() -> (r: Store)
        ensures
            r.wf(),
            r.texts@.len() == 0,
            r.words@.len() == 0,
            r.text_words@.len() == 0,
            r.user_preferences@.len() == 0,
            r.text_seq == 0 && r.word_seq == 0 && r.preference_seq == 0,
    {
        Store {
            texts: Vec::new(),
            words: Vec::new(),
            text_words: Vec::new(),
            user_preferences: Vec::new(),
            text_seq: 0,
            word_seq: 0,
            preference_seq: 0,
        }
    }

    /// The position of the text with id `id`.
    pub fn find_text(&self, id: i64) -> (r: Option<usize>)
        ensures
            match r {
                Some(i) => i < self.texts@.len() && self.texts@[i as int].id == id,
                None => !has_text_id(self.texts@, id),
            },
    {
        let mut i: usize = 0;
        while i < self.texts.len()
            invariant
                i <= self.texts@.len(),
                forall|k: int| 0 <= k < i ==> self.texts@[k].id != id,
            decreases self.texts@.len() - i,
        {
            if self.texts[i].id == id {
                return Some(i);
            }
            i = i + 1;
        }
        None
    }

    /// The position of the word with id `id`.
    pub fn find_word(&self, id: i64) -> (r: Option<usize>)
        ensures
            match r {
                Some(i) => i < self.words@.len() && self.words@[i as int].id == id,
                None => !has_word_id(self.words@, id),
            },
    {
        let mut i: usize = 0;
        while i < self.words.len()
            invariant
                i <= self.words@.len(),
                forall|k: int| 0 <= k < i ==> self.words@[k].id != id,
            decreases self.words@.len() - i,
        {
            if self.words[i].id == id {
                return Some(i);
            }
            i = i + 1;
        }
        None
    }

    /// The position of the word spelled exactly `spelling`.
    pub fn find_spelling(&self, spelling: &String) -> (r: Option<usize>)
        ensures
            match r {
                Some(i) => i < self.words@.len() && self.words@[i as int].word@ == spelling@,
                None => !has_spelling(self.words@, spelling@),
            },
    {
        let mut i: usize = 0;
        while i < self.words.len()
            invariant
                i <= self.words@.len(),
                forall|k: int| 0 <= k < i ==> self.words@[k].word@ != spelling@,
            decreases self.words@.len() - i,
        {
            if self.words[i].word == *spelling {
                return Some(i);
            }
            i = i + 1;
        }
        None
    }

    /// Whether the pair `(text_id, word_id)` is linked.
    pub fn has_link(&self, text_id: i64, word_id: i64) -> (r: bool)
        ensures
            r == self.text_words@.contains(TextWord { text_id, word_id }),
    {
        let mut i: usize = 0;
        while i < self.text_words.len()
            invariant
                i <= self.text_words@.len(),
                forall|k: int|
                    0 <= k < i ==> self.text_words@[k] != (TextWord { text_id, word_id }),
            decreases self.text_words@.len() - i,
        {
            let l = self.text_words[i];
            if l.text_id == text_id && l.word_id == word_id {
                return true;
            }
            i = i + 1;
        }
        false
    }

    /// The id of the word spelled `spelling`, created with the linker's
    /// defaults and the next word id where absent.
    fn word_id_for(&mut self, spelling: &String, text_id: i64, toks: Ghost<Seq<Seq<char>>>) -> (r: Result<i64, EngineError>)
        requires
            old(self).wf(),
            toks@.contains(spelling@),
        ensures
            final(self).wf(),
            final(self).grown_by_linking(old(self), text_id, toks@),
            final(self).text_words@ == old(self).text_words@,
            final(self).words@.len() <= old(self).words@.len() + 1,
            has_spelling(old(self).words@, spelling@) ==> final(self).same_as(old(self)) && r is Ok,
            match r {
                Ok(id) => exists|i: int|
                    0 <= i < final(self).words@.len() && final(self).words@[i].id == id
                        && final(self).words@[i].word@ == spelling@,
                Err(e) => e == EngineError::Storage && old(self).word_seq == i64::MAX
                    && final(self).same_as(old(self)),
            },
    {
        match self.find_spelling(spelling) {
            Some(i) => {
                proof {
                    assert forall|k: int| 0 <= k < self.words@.len() && self.words@[k].word@ == spelling@ implies k == i by {
                        if k != i {
                            if k < i {
                                assert(self.words@[k].word@ != self.words@[i as int].word@);
                            } else {
                                assert(self.words@[i as int].word@ != self.words@[k].word@);
                            }
                        }
                    }
                }
                Ok(self.words[i].id)
            },
            None => {
                if self.word_seq == i64::MAX {
                    return Err(EngineError::Storage);
                }
                let id = self.word_seq + 1;
                let w = Word {
                    id,
                    word: spelling.clone(),
                    status: WordStatus::New,
                    meaning: None,
                    stability: Some(NEW_WORD_STABILITY),
                    difficulty: Some(NEW_WORD_DIFFICULTY),
                    last_review_date: None,
                    next_review_date: None,
                };
                let ghost before = self.words@;
                self.words.push(w);
                self.word_seq = id;
                proof {
                    assert forall|i: int| 0 <= i < self.text_words@.len() implies has_word_id(self.words@, #[trigger] self.text_words@[i].word_id) by {
                        assert(0 <= i < old(self).text_words@.len());
                        assert(has_text_id(old(self).texts@, old(self).text_words@[i].text_id));
                        assert(has_word_id(before, self.text_words@[i].word_id));
                        let k = choose|k: int| 0 <= k < before.len() && before[k].id == self.text_words@[i].word_id;
                        assert(self.words@[k] == before[k]);
                    }
                    assert(self.words@[before.len() as int].word@ == spelling@);
                }
                Ok(id)
            },
        }
    }

    /// Links the text `text_id` to every letter-run token of `content`,
    /// creating each word that does not exist yet. Repeated tokens and pairs
    /// that are already linked change nothing.
    pub fn link_text(&mut self, text_id: i64, content: &str) -> (r: Result<(), EngineError>)
        requires
            old(self).wf(),
        ensures
            link_result(old(self), final(self), text_id, letter_runs(content@), r),
    {
        let toks = letter_tokens(content);
        self.link_tokens(text_id, &toks)
    }

    /// Links the text `text_id` to every token of `toks`, in order, creating
    /// each word that does not exist yet. Repeated tokens and pairs that are
    /// already linked change nothing.
    pub fn link_tokens(&mut self, text_id: i64, toks: &Vec<String>) -> (r: Result<(), EngineError>)
        requires
            old(self).wf(),
        ensures
            link_result(old(self), final(self), text_id, strings_view(toks@), r),
    {
        if self.find_text(text_id).is_none() {
            return Err(EngineError::NotFound);
        }
        let ghost tokens = strings_view(toks@);
        let ghost start = *self;
        let mut k: usize = 0;
        while k < toks.len()
            invariant
                k <= toks@.len(),
                tokens == strings_view(toks@),
                has_text_id(self.texts@, text_id),
                self.wf(),
                self.grown_by_linking(&start, text_id, tokens),
                start.wf(),
                start.same_as(old(self)),
                self.words@.len() - start.words@.len() <= k,
                start.word_seq <= i64::MAX - tokens.len() ==> self.word_seq <= i64::MAX - (tokens.len() - k),
                forall|m: int| 0 <= m < k ==> self.linked(text_id, #[trigger] tokens[m]),
                start.all_linked(text_id, tokens) ==> self.same_as(&start),
            decreases toks@.len() - k,
        {
            let tok = &toks[k];
            proof {
                assert(tokens[k as int] == tok@);
                assert(tokens.contains(tok@));
            }
            let ghost before = *self;
            let wid = match self.word_id_for(tok, text_id, Ghost(tokens)) {
                Ok(id) => id,
                Err(e) => {
                    return Err(e);
                },
            };
            let ghost mid = *self;
            let present = self.has_link(text_id, wid);
            if !present {
                self.text_words.push(TextWord { text_id, word_id: wid });
            }
            proof {
                let wi = choose|i: int|
                    0 <= i < mid.words@.len() && mid.words@[i].id == wid && mid.words@[i].word@ == tok@;
                let link = TextWord { text_id, word_id: wid };
                if !present {
                    assert(self.text_words@[self.text_words@.len() - 1] == link);
                }
                assert(self.text_words@.contains(link));
                let j = choose|j: int| 0 <= j < self.text_words@.len() && self.text_words@[j] == link;
                assert(self.linked(text_id, tokens[k as int]));
                assert forall|m: int| 0 <= m < k + 1 implies self.linked(text_id, #[trigger] tokens[m]) by {
                    if m < k {
                        lemma_linked_persists(&before, self, text_id, tokens[m]);
                    }
                }
                lemma_grown_trans(&start, &before, self, text_id, tokens);
                if !present {
                    assert forall|a: int, b: int| 0 <= a < b < self.text_words@.len() implies self.text_words@[a] != self.text_words@[b] by {
                        if b == self.text_words@.len() - 1 {
                            assert(mid.text_words@[a] == self.text_words@[a]);
                        }
                    }
                    assert forall|i: int| 0 <= i < self.text_words@.len() implies has_text_id(self.texts@, (#[trigger] self.text_words@[i]).text_id) && has_word_id(self.words@, self.text_words@[i].word_id) by {
                        if i < mid.text_words@.len() {
                            assert(self.text_words@[i] == mid.text_words@[i]);
                            assert(has_text_id(mid.texts@, mid.text_words@[i].text_id));
                            assert(has_word_id(mid.words@, mid.text_words@[i].word_id));
                        } else {
                            assert(self.words@[wi].id == wid);
                        }
                    }
                }
                if start.all_linked(text_id, tokens) {
                    assert(before.linked(text_id, tok@));
                    let bi = choose|i: int, jj: int|
                        0 <= i < before.words@.len() && 0 <= jj < before.text_words@.len() && before.words@[i].word@ == tok@
                            && before.text_words@[jj] == (TextWord { text_id, word_id: before.words@[i].id });
                    assert(has_spelling(before.words@, tok@));
                    assert(mid.same_as(&before));
                    assert(bi.0 == wi) by {
                        if bi.0 != wi {
                            if bi.0 < wi {
                                assert(mid.words@[bi.0].word@ != mid.words@[wi].word@);
                            } else {
                                assert(mid.words@[wi].word@ != mid.words@[bi.0].word@);
                            }
                        }
                    }
                    assert(mid.text_words@[bi.1] == link);
                    assert(present);
                }
            }
            k = k + 1;
        }
        Ok(())
    }

    /// Stores a new text under the next text id and links it to its words.
    /// Where linking fails part way, the text and the links made so far stay.
    pub fn create_text(&mut self, title: String, content: String) -> (r: Result<Text, EngineError>)
        requires
            old(self).wf(),
        ensures
            final(self).wf(),
            old(self).text_seq == i64::MAX ==> r == Err::<Text, EngineError>(EngineError::Storage)
                && final(self).same_as(old(self)),
            old(self).text_seq < i64::MAX && old(self).word_seq <= i64::MAX - letter_runs(content@).len()
                ==> r is Ok,
            r is Err ==> r == Err::<Text, EngineError>(EngineError::Storage),
            match r {
                Ok(t) => {
                    &&& t.id == old(self).text_seq + 1
                    &&& t.title == title
                    &&& t.content == content
                    &&& final(self).texts@ == old(self).texts@.push(t)
                    &&& final(self).text_seq == t.id
                    &&& linking_growth(
                        old(self).words@,
                        old(self).text_words@,
                        old(self).word_seq,
                        final(self).words@,
                        final(self).text_words@,
                        final(self).word_seq,
                        t.id,
                        letter_runs(content@),
                    )
                    &&& final(self).all_linked(t.id, letter_runs(content@))
                    &&& final(self).user_preferences@ == old(self).user_preferences@
                },
                Err(_) => true,
            },
    {
        if self.text_seq == i64::MAX {
            return Err(EngineError::Storage);
        }
        let id = self.text_seq + 1;
        let t = Text { id, title: title.clone(), content: content.clone() };
        let ghost before = *self;
        self.texts.push(t);
        self.text_seq = id;
        proof {
            assert forall|a: int, b: int| 0 <= a < b < self.texts@.len() implies self.texts@[a].id != self.texts@[b].id by {
                if b == self.texts@.len() - 1 {
                    assert(before.texts@[a].id <= before.text_seq);
                }
            }
            assert forall|i: int| 0 <= i < self.text_words@.len() implies has_text_id(self.texts@, (#[trigger] self.text_words@[i]).text_id) && has_word_id(self.words@, self.text_words@[i].word_id) by {
                assert(0 <= i < before.text_words@.len());
                assert(has_text_id(before.texts@, before.text_words@[i].text_id));
                let k = choose|k: int| 0 <= k < before.texts@.len() && before.texts@[k].id == before.text_words@[i].text_id;
                assert(self.texts@[k] == before.texts@[k]);
            }
            assert(has_text_id(self.texts@, id)) by {
                assert(self.texts@[self.texts@.len() - 1].id == id);
            }
        }
        match self.link_text(id, content.as_str()) {
            Ok(()) => Ok(Text { id, title, content }),
            Err(e) => Err(e),
        }
    }

    /// Replaces the title and content of the text `id` and links it to the
    /// words of the new content. Links made for earlier content stay.
    pub fn update_text(&mut self, id: i64, title: String, content: String) -> (r: Result<(), EngineError>)
        requires
            old(self).wf(),
        ensures
            final(self).wf(),
            !has_text_id(old(self).texts@, id) ==> r == Err::<(), EngineError>(EngineError::NotFound)
                && final(self).same_as(old(self)),
            has_text_id(old(self).texts@, id) && old(self).word_seq <= i64::MAX - letter_runs(content@).len()
                ==> r is Ok,
            r is Err ==> r == Err::<(), EngineError>(EngineError::NotFound)
                || r == Err::<(), EngineError>(EngineError::Storage),
            has_text_id(old(self).texts@, id) ==> {
                &&& final(self).texts@.len() == old(self).texts@.len()
                &&& forall|k: int|
                    0 <= k < old(self).texts@.len() ==> #[trigger] final(self).texts@[k] == (if old(
                        self,
                    ).texts@[k].id == id {
                        Text { id, title, content }
                    } else {
                        old(self).texts@[k]
                    })
                &&& linking_growth(
                    old(self).words@,
                    old(self).text_words@,
                    old(self).word_seq,
                    final(self).words@,
                    final(self).text_words@,
                    final(self).word_seq,
                    id,
                    letter_runs(content@),
                )
                &&& final(self).user_preferences@ == old(self).user_preferences@
                &&& final(self).text_seq == old(self).text_seq
            },
            r is Ok ==> final(self).all_linked(id, letter_runs(content@)),
            has_text_id(old(self).texts@, id) && old(self).all_linked(id, letter_runs(content@)) ==> r is Ok
                && final(self).words@ == old(self).words@ && final(self).text_words@ == old(self).text_words@
                && final(self).word_seq == old(self).word_seq,
    {
        let i = match self.find_text(id) {
            Some(i) => i,
            None => {
                return Err(EngineError::NotFound);
            },
        };
        let ghost before = *self;
        let body = content.clone();
        self.texts.set(i, Text { id, title, content });
        proof {
            assert forall|k: int| 0 <= k < self.texts@.len() && before.texts@[k].id == id implies k == i by {
                if k != i {
                    if k < i {
                        assert(before.texts@[k].id != before.texts@[i as int].id);
                    } else {
                        assert(before.texts@[i as int].id != before.texts@[k].id);
                    }
                }
            }
            assert forall|a: int, b: int| 0 <= a < b < self.texts@.len() implies self.texts@[a].id != self.texts@[b].id by {
                assert(before.texts@[a].id != before.texts@[b].id);
            }
            assert forall|k: int| 0 <= k < self.texts@.len() implies #[trigger] self.texts@[k].id <= self.text_seq by {
                assert(before.texts@[k].id <= before.text_seq);
            }
            assert forall|j: int| 0 <= j < self.text_words@.len() implies has_text_id(self.texts@, (#[trigger] self.text_words@[j]).text_id) && has_word_id(self.words@, self.text_words@[j].word_id) by {
                assert(0 <= j < before.text_words@.len());
                assert(has_text_id(before.texts@, before.text_words@[j].text_id));
                let k = choose|k: int| 0 <= k < before.texts@.len() && before.texts@[k].id == before.text_words@[j].text_id;
                assert(self.texts@[k].id == before.texts@[k].id);
            }
            assert(self.texts@[i as int].id == id);
        }
        self.link_text(id, body.as_str())
    }

    /// The links whose text or word is not `id`, in order (`of_text` picks
    /// which side is compared).
    fn links_without(&self, id: i64, of_text: bool) -> (r: Vec<TextWord>)
        requires
            self.wf(),
        ensures
            r@ == self.text_words@.filter(|l: TextWord| keeps_link(l, id, of_text)),
            forall|a: int, b: int| 0 <= a < b < r@.len() ==> r@[a] != r@[b],
            forall|a: int| 0 <= a < r@.len() ==> self.text_words@.contains(#[trigger] r@[a]),
    {
        let mut out: Vec<TextWord> = Vec::new();
        let mut i: usize = 0;
        while i < self.text_words.len()
            invariant
                self.wf(),
                i <= self.text_words@.len(),
                out@ == self.text_words@.subrange(0, i as int).filter(|l: TextWord| keeps_link(l, id, of_text)),
                forall|a: int, b: int| 0 <= a < b < out@.len() ==> out@[a] != out@[b],
                forall|a: int| 0 <= a < out@.len() ==> exists|k: int| 0 <= k < i && #[trigger] out@[a] == self.text_words@[k],
            decreases self.text_words@.len() - i,
        {
            let l = self.text_words[i];
            let keep = if of_text { l.text_id != id } else { l.word_id != id };
            proof {
                assert(keeps_link(l, id, of_text) == keep);
                assert(self.text_words@.subrange(0, i as int + 1) =~= self.text_words@.subrange(0, i as int).push(l));
                self.text_words@.subrange(0, i as int).lemma_filter_push(l, |l: TextWord| keeps_link(l, id, of_text));
            }
            if keep {
                proof {
                    assert forall|a: int| 0 <= a < out@.len() implies out@[a] != l by {
                        let k = choose|k: int| 0 <= k < i && out@[a] == self.text_words@[k];
                        assert(self.text_words@[k] != self.text_words@[i as int]);
                    }
                }
                out.push(l);
                proof {
                    assert forall|a: int| 0 <= a < out@.len() implies exists|k: int| 0 <= k < i + 1 && #[trigger] out@[a] == self.text_words@[k] by {
                        if a == out@.len() - 1 {
                            assert(out@[a] == self.text_words@[i as int]);
                        } else {
                            let k = choose|k: int| 0 <= k < i && out@[a] == self.text_words@[k];
                        }
                    }
                }
            }
            i = i + 1;
        }
        proof {
            assert(self.text_words@.subrange(0, i as int) =~= self.text_words@);
            assert forall|a: int| 0 <= a < out@.len() implies self.text_words@.contains(#[trigger] out@[a]) by {
                let k = choose|k: int| 0 <= k < i && out@[a] == self.text_words@[k];
            }
        }
        out
    }

    /// Deletes the text `text_id` and its links. The words stay.
    pub fn delete_text(&mut self, text_id: i64)
        requires
            old(self).wf(),
        ensures
            final(self).wf(),
            final(self).text_words@ == old(self).text_words@.filter(|l: TextWord| l.text_id != text_id),
            !has_text_id(final(self).texts@, text_id),
            has_text_id(old(self).texts@, text_id) ==> exists|i: int|
                0 <= i < old(self).texts@.len() && old(self).texts@[i].id == text_id
                    && final(self).texts@ == old(self).texts@.remove(i),
            !has_text_id(old(self).texts@, text_id) ==> final(self).texts@ == old(self).texts@,
            final(self).words@ == old(self).words@,
            final(self).user_preferences@ == old(self).user_preferences@,
            final(self).text_seq == old(self).text_seq,
            final(self).word_seq == old(self).word_seq,
            final(self).preference_seq == old(self).preference_seq,
    {
        let kept = self.links_without(text_id, true);
        let ghost before = *self;
        self.text_words = kept;
        proof {
            let p1 = |l: TextWord| keeps_link(l, text_id, true);
            let p2 = |l: TextWord| l.text_id != text_id;
            assert(p1 =~= p2);
            assert(self.text_words@ == before.text_words@.filter(p2));
            assert forall|j: int| 0 <= j < self.text_words@.len() implies (#[trigger] self.text_words@[j]).text_id != text_id by {
                let pred = |l: TextWord| l.text_id != text_id;
                before.text_words@.lemma_filter_pred(pred, j);
            }
            assert forall|j: int| 0 <= j < self.text_words@.len() implies has_text_id(self.texts@, (#[trigger] self.text_words@[j]).text_id) && has_word_id(self.words@, self.text_words@[j].word_id) by {
                assert(before.text_words@.contains(self.text_words@[j]));
                let k = choose|k: int| 0 <= k < before.text_words@.len() && before.text_words@[k] == self.text_words@[j];
                assert(has_text_id(before.texts@, before.text_words@[k].text_id));
                assert(has_word_id(before.words@, before.text_words@[k].word_id));
            }
        }
        match self.find_text(text_id) {
            Some(i) => {
                let ghost mid = *self;
                self.texts.remove(i);
                proof {
                    assert forall|k: int| 0 <= k < mid.texts@.len() && mid.texts@[k].id == text_id implies k == i by {
                        if k != i {
                            if k < i {
                                assert(mid.texts@[k].id != mid.texts@[i as int].id);
                            } else {
                                assert(mid.texts@[i as int].id != mid.texts@[k].id);
                            }
                        }
                    }
                    assert forall|a: int, b: int| 0 <= a < b < self.texts@.len() implies self.texts@[a].id != self.texts@[b].id by {
                        let a2 = if a < i { a } else { a + 1 };
                        let b2 = if b < i { b } else { b + 1 };
                        assert(mid.texts@[a2].id != mid.texts@[b2].id);
                    }
                    assert forall|k: int| 0 <= k < self.texts@.len() implies #[trigger] self.texts@[k].id <= self.text_seq by {
                        let k2 = if k < i { k } else { k + 1 };
                        assert(mid.texts@[k2].id <= mid.text_seq);
                    }
                    assert forall|j: int| 0 <= j < self.text_words@.len() implies has_text_id(self.texts@, (#[trigger] self.text_words@[j]).text_id) && has_word_id(self.words@, self.text_words@[j].word_id) by {
                        assert(has_text_id(mid.texts@, mid.text_words@[j].text_id));
                        assert(has_word_id(mid.words@, mid.text_words@[j].word_id));
                        let k = choose|k: int| 0 <= k < mid.texts@.len() && mid.texts@[k].id == self.text_words@[j].text_id;
                        assert(k != i);
                        let k2 = if k < i { k } else { k - 1 };
                        assert(self.texts@[k2] == mid.texts@[k]);
                    }
                    assert(!has_text_id(self.texts@, text_id)) by {
                        if has_text_id(self.texts@, text_id) {
                            let k = choose|k: int| 0 <= k < self.texts@.len() && self.texts@[k].id == text_id;
                            let k2 = if k < i { k } else { k + 1 };
                            assert(mid.texts@[k2].id == text_id);
                        }
                    }
                }
            },
            None => {},
        }
    }

    /// Deletes the word `word_id` and its links; `NotFound`, with nothing
    /// changed, where no word has that id.
    pub fn delete_word(&mut self, word_id: i64) -> (r: Result<(), EngineError>)
        requires
            old(self).wf(),
        ensures
            final(self).wf(),
            r is Err <==> !has_word_id(old(self).words@, word_id),
            r is Err ==> r == Err::<(), EngineError>(EngineError::NotFound) && final(self).same_as(old(self)),
            r is Ok ==> {
                &&& final(self).text_words@ == old(self).text_words@.filter(|l: TextWord| l.word_id != word_id)
                &&& exists|i: int|
                    0 <= i < old(self).words@.len() && old(self).words@[i].id == word_id
                        && final(self).words@ == old(self).words@.remove(i)
                &&& final(self).texts@ == old(self).texts@
                &&& final(self).user_preferences@ == old(self).user_preferences@
                &&& final(self).text_seq == old(self).text_seq
                &&& final(self).word_seq == old(self).word_seq
                &&& final(self).preference_seq == old(self).preference_seq
            },
    {
        let i = match self.find_word(word_id) {
            Some(i) => i,
            None => {
                return Err(EngineError::NotFound);
            },
        };
        let kept = self.links_without(word_id, false);
        let ghost before = *self;
        self.text_words = kept;
        self.words.remove(i);
        proof {
            let p1 = |l: TextWord| keeps_link(l, word_id, false);
            let p2 = |l: TextWord| l.word_id != word_id;
            assert(p1 =~= p2);
            assert(self.text_words@ == before.text_words@.filter(p2));
            assert forall|k: int| 0 <= k < before.words@.len() && before.words@[k].id == word_id implies k == i by {
                if k != i {
                    if k < i {
                        assert(before.words@[k].id != before.words@[i as int].id);
                    } else {
                        assert(before.words@[i as int].id != before.words@[k].id);
                    }
                }
            }
            assert forall|a: int, b: int| 0 <= a < b < self.words@.len() implies self.words@[a].id != self.words@[b].id
                && self.words@[a].word@ != self.words@[b].word@ by {
                let a2 = if a < i { a } else { a + 1 };
                let b2 = if b < i { b } else { b + 1 };
                assert(before.words@[a2].id != before.words@[b2].id);
                assert(before.words@[a2].word@ != before.words@[b2].word@);
            }
            assert forall|k: int| 0 <= k < self.words@.len() implies #[trigger] self.words@[k].id <= self.word_seq by {
                let k2 = if k < i { k } else { k + 1 };
                assert(before.words@[k2].id <= before.word_seq);
            }
            assert forall|k: int| 0 <= k < self.words@.len() && (#[trigger] self.words@[k]).status == WordStatus::Known
                implies self.words@[k].next_review_date is None by {
                let k2 = if k < i { k } else { k + 1 };
                assert(before.words@[k2] == self.words@[k]);
            }
            assert forall|j: int| 0 <= j < self.text_words@.len() implies has_text_id(self.texts@, (#[trigger] self.text_words@[j]).text_id) && has_word_id(self.words@, self.text_words@[j].word_id) by {
                before.text_words@.lemma_filter_pred(p2, j);
                assert(before.text_words@.contains(self.text_words@[j]));
                let m = choose|m: int| 0 <= m < before.text_words@.len() && before.text_words@[m] == self.text_words@[j];
                assert(has_text_id(before.texts@, before.text_words@[m].text_id));
                assert(has_word_id(before.words@, before.text_words@[m].word_id));
                let k = choose|k: int| 0 <= k < before.words@.len() && before.words@[k].id == self.text_words@[j].word_id;
                assert(k != i);
                let k2 = if k < i { k } else { k - 1 };
                assert(self.words@[k2] == before.words@[k]);
            }
        }
        Ok(())
    }

    /// Marks the word `word_id` as known and clears its next review date.
    pub fn mark_word_as_known(&mut self, word_id: i64) -> (r: Result<(), EngineError>)
        requires
            old(self).wf(),
        ensures
            final(self).wf(),
            r is Err <==> !has_word_id(old(self).words@, word_id),
            r is Err ==> r == Err::<(), EngineError>(EngineError::NotFound) && final(self).same_as(old(self)),
            r is Ok ==> exists|i: int|
                0 <= i < old(self).words@.len() && old(self).words@[i].id == word_id
                    && final(self).words@ == old(self).words@.update(i, Word {
                        status: WordStatus::Known,
                        next_review_date: None,
                        ..old(self).words@[i]
                    }),
            r is Ok ==> final(self).texts@ == old(self).texts@ && final(self).text_words@ == old(self).text_words@
                && final(self).user_preferences@ == old(self).user_preferences@ && final(self).text_seq
                == old(self).text_seq && final(self).word_seq == old(self).word_seq
                && final(self).preference_seq == old(self).preference_seq,
    {
        let i = match self.find_word(word_id) {
            Some(i) => i,
            None => {
                return Err(EngineError::NotFound);
            },
        };
        let mut w = self.words[i].duplicate();
        w.status = WordStatus::Known;
        w.next_review_date = None;
        self.replace_word(i, w);
        Ok(())
    }

    /// Puts `w` in place of the word at `i`, keeping its id and spelling.
    pub(crate) fn replace_word(&mut self, i: usize, w: Word)
        requires
            old(self).wf(),
            i < old(self).words@.len(),
            w.id == old(self).words@[i as int].id,
            w.word@ == old(self).words@[i as int].word@,
            w.status == WordStatus::Known ==> w.next_review_date is None,
        ensures
            final(self).wf(),
            final(self).words@ == old(self).words@.update(i as int, w),
            final(self).texts@ == old(self).texts@,
            final(self).text_words@ == old(self).text_words@,
            final(self).user_preferences@ == old(self).user_preferences@,
            final(self).text_seq == old(self).text_seq,
            final(self).word_seq == old(self).word_seq,
            final(self).preference_seq == old(self).preference_seq,
    {
        let ghost before = *self;
        self.words.set(i, w);
        proof {
            assert forall|a: int, b: int| 0 <= a < b < self.words@.len() implies self.words@[a].id != self.words@[b].id
                && self.words@[a].word@ != self.words@[b].word@ by {
                assert(before.words@[a].id != before.words@[b].id);
                assert(before.words@[a].word@ != before.words@[b].word@);
            }
            assert forall|k: int| 0 <= k < self.words@.len() implies #[trigger] self.words@[k].id <= self.word_seq by {
                assert(before.words@[k].id <= before.word_seq);
            }
            assert forall|j: int| 0 <= j < self.text_words@.len() implies has_text_id(self.texts@, (#[trigger] self.text_words@[j]).text_id) && has_word_id(self.words@, self.text_words@[j].word_id) by {
                assert(0 <= j < before.text_words@.len());
                assert(has_text_id(before.texts@, before.text_words@[j].text_id));
                assert(has_word_id(before.words@, before.text_words@[j].word_id));
                let k = choose|k: int| 0 <= k < before.words@.len() && before.words@[k].id == self.text_words@[j].word_id;
                assert(self.words@[k].id == before.words@[k].id);
            }
        }
    }

    /// Records a meaning for the word `word_id`. A word that is not known
    /// becomes `Seen` and due at `now`; a known word stays known.
    pub fn update_word_meaning(&mut self, word_id: i64, meaning: String, now: Timestamp) -> (r: Result<(), EngineError>)
        requires
            old(self).wf(),
        ensures
            final(self).wf(),
            !has_word_id(old(self).words@, word_id) ==> r == Err::<(), EngineError>(EngineError::NotFound),
            has_word_id(old(self).words@, word_id) ==> (r is Ok <==> rfc3339_text(now.secs, now.nanos) is Some),
            r is Err ==> final(self).same_as(old(self)),
            r is Err && has_word_id(old(self).words@, word_id) ==> r == Err::<(), EngineError>(EngineError::InvalidInput),
            r is Ok ==> exists|i: int|
                0 <= i < old(self).words@.len() && old(self).words@[i].id == word_id && {
                    let w = final(self).words@[i];
                    &&& final(self).words@ == old(self).words@.update(i, w)
                    &&& w.id == word_id
                    &&& w.word == old(self).words@[i].word
                    &&& w.meaning == Some(meaning)
                    &&& w.stability == old(self).words@[i].stability
                    &&& w.difficulty == old(self).words@[i].difficulty
                    &&& w.last_review_date == old(self).words@[i].last_review_date
                    &&& if old(self).words@[i].status == WordStatus::Known {
                        w.status == WordStatus::Known && w.next_review_date is None
                    } else {
                        w.status == WordStatus::Seen && w.next_review_date is Some
                            && rfc3339_text(now.secs, now.nanos) == Some(w.next_review_date->Some_0@)
                    }
                },
            r is Ok ==> final(self).texts@ == old(self).texts@ && final(self).text_words@ == old(self).text_words@
                && final(self).user_preferences@ == old(self).user_preferences@,
    {
        let i = match self.find_word(word_id) {
            Some(i) => i,
            None => {
                return Err(EngineError::NotFound);
            },
        };
        let stamp = match format_rfc3339(now) {
            Some(s) => s,
            None => {
                return Err(EngineError::InvalidInput);
            },
        };
        let mut w = self.words[i].duplicate();
        w.meaning = Some(meaning);
        if w.status != WordStatus::Known {
            w.status = WordStatus::Seen;
            w.next_review_date = Some(stamp);
        }
        self.replace_word(i, w);
        Ok(())
    }

    /// Replaces the stored preference with the single region code `code`,
    /// under the next preference id.
    pub fn save_selected_country_code(&mut self, code: String) -> (r: Result<(), EngineError>)
        requires
            old(self).wf(),
        ensures
            final(self).wf(),
            r is Err <==> old(self).preference_seq == i64::MAX,
            r is Err ==> r == Err::<(), EngineError>(EngineError::Storage) && final(self).same_as(old(self)),
            r is Ok ==> final(self).user_preferences@.len() == 1
                && final(self).user_preferences@[0].id == final(self).preference_seq
                && final(self).user_preferences@[0].country_code == code
                && final(self).preference_seq == old(self).preference_seq + 1
                && final(self).texts@ == old(self).texts@ && final(self).words@ == old(self).words@
                && final(self).text_words@ == old(self).text_words@,
    {
        if self.preference_seq == i64::MAX {
            return Err(EngineError::Storage);
        }
        let id = self.preference_seq + 1;
        let mut prefs: Vec<UserPreference> = Vec::new();
        prefs.push(UserPreference { id, country_code: code });
        self.user_preferences = prefs;
        self.preference_seq = id;
        Ok(())
    }

    /// The stored region code, if one was saved.
    pub fn get_selected_country_code(&self) -> (r: Option<String>)
        ensures
            self.user_preferences@.len() == 0 ==> r is None,
            self.user_preferences@.len() > 0 ==> r == Some(self.user_preferences@[0].country_code),
    {
        if self.user_preferences.len() == 0 {
            None
        } else {
            Some(self.user_preferences[0].country_code.clone())
        }
    }

    /// How many words linked to `text_id` are new, seen and known.
    pub fn get_text_word_counts(&self, text_id: i64) -> (r: (u64, u64, u64))
        requires
            self.wf(),
        ensures
            r.0 == count_links(self.text_words@, self.words@, text_id, WordStatus::New),
            r.1 == count_links(self.text_words@, self.words@, text_id, WordStatus::Seen),
            r.2 == count_links(self.text_words@, self.words@, text_id, WordStatus::Known),
    {
        let ghost ls = self.text_words@;
        let ghost ws = self.words@;
        let mut n: u64 = 0;
        let mut s: u64 = 0;
        let mut k: u64 = 0;
        let mut j: usize = 0;
        while j < self.text_words.len()
            invariant
                self.wf(),
                ls == self.text_words@,
                ws == self.words@,
                j <= ls.len(),
                n == count_links(ls.subrange(0, j as int), ws, text_id, WordStatus::New),
                s == count_links(ls.subrange(0, j as int), ws, text_id, WordStatus::Seen),
                k == count_links(ls.subrange(0, j as int), ws, text_id, WordStatus::Known),
                n <= j && s <= j && k <= j,
            decreases ls.len() - j,
        {
            let l = self.text_words[j];
            proof {
                assert(ls.subrange(0, j as int + 1).drop_last() =~= ls.subrange(0, j as int));
                assert(ls.subrange(0, j as int + 1).last() == l);
            }
            if l.text_id == text_id {
                match self.find_word(l.word_id) {
                    Some(i) => {
                        proof {
                            assert forall|m: int| 0 <= m < ws.len() && ws[m].id == l.word_id implies m == i by {
                                if m != i {
                                    if m < i {
                                        assert(ws[m].id != ws[i as int].id);
                                    } else {
                                        assert(ws[i as int].id != ws[m].id);
                                    }
                                }
                            }
                        }
                        match self.words[i].status {
                            WordStatus::New => { n = n + 1; },
                            WordStatus::Seen => { s = s + 1; },
                            WordStatus::Known => { k = k + 1; },
                        }
                    },
                    None => {},
                }
            }
            j = j + 1;
        }
        proof {
            assert(ls.subrange(0, j as int) =~= ls);
        }
        (n, s, k)
    }

    /// The text `id` with the stored words that its display tokens name, in
    /// token order (a token that no word has is skipped).
    pub fn get_text_with_words(&self, id: i64) -> (r: Result<(Text, Vec<Word>), EngineError>)
        requires
            self.wf(),
        ensures
            !has_text_id(self.texts@, id) ==> r == Err::<(Text, Vec<Word>), EngineError>(EngineError::NotFound),
            has_text_id(self.texts@, id) ==> r is Ok && exists|i: int|
                0 <= i < self.texts@.len() && self.texts@[i].id == id && r->Ok_0.0 == self.texts@[i]
                    && r->Ok_0.1@ == words_for(self.words@, display_words(self.texts@[i].content@)),
    {
        let i = match self.find_text(id) {
            Some(i) => i,
            None => {
                return Err(EngineError::NotFound);
            },
        };
        let t = self.texts[i].duplicate();
        let toks = display_tokens(t.content.as_str());
        let out = self.words_for_tokens(&toks);
        Ok((t, out))
    }

    /// The stored words spelled as the tokens `toks`, in token order (a token
    /// that no word has is skipped).
    pub fn words_for_tokens(&self, toks: &Vec<String>) -> (r: Vec<Word>)
        requires
            self.wf(),
        ensures
            r@ == words_for(self.words@, strings_view(toks@)),
    {
        let ghost tokens = strings_view(toks@);
        let mut out: Vec<Word> = Vec::new();
        let mut k: usize = 0;
        while k < toks.len()
            invariant
                self.wf(),
                k <= toks@.len(),
                tokens == strings_view(toks@),
                out@ == words_for(self.words@, tokens.subrange(0, k as int)),
            decreases toks@.len() - k,
        {
            let tok = &toks[k];
            proof {
                assert(tokens.subrange(0, k as int + 1).drop_last() =~= tokens.subrange(0, k as int));
                assert(tokens.subrange(0, k as int + 1).last() == tok@);
            }
            match self.find_spelling(tok) {
                Some(w) => {
                    proof {
                        let c = choose|m: int| 0 <= m < self.words@.len() && self.words@[m].word@ == tok@;
                        if c != w {
                            if c < w {
                                assert(self.words@[c].word@ != self.words@[w as int].word@);
                            } else {
                                assert(self.words@[w as int].word@ != self.words@[c].word@);
                            }
                        }
                    }
                    out.push(self.words[w].duplicate());
                },
                None => {},
            }
            k = k + 1;
        }
        proof {
            assert(tokens.subrange(0, k as int) =~= tokens);
        }
        out
    }

    /// The text `id`, if stored.
    pub fn get_text_by_id(&self, id: i64) -> (r: Option<Text>)
        ensures
            !has_text_id(self.texts@, id) ==> r is None,
            has_text_id(self.texts@, id) ==> r is Some && exists|i: int|
                0 <= i < self.texts@.len() && self.texts@[i].id == id && r->Some_0 == self.texts@[i],
    {
        match self.find_text(id) {
            Some(i) => Some(self.texts[i].duplicate()),
            None => None,
        }
    }

    /// Copies of all texts, in store order.
    pub fn get_texts(&self) -> (r: Vec<Text>)
        ensures
            r@ == self.texts@,
    {
        let mut out: Vec<Text> = Vec::new();
        let mut i: usize = 0;
        while i < self.texts.len()
            invariant
                i <= self.texts@.len(),
                out@ == self.texts@.subrange(0, i as int),
            decreases self.texts@.len() - i,
        {
            out.push(self.texts[i].duplicate());
            proof {
                assert(out@ =~= self.texts@.subrange(0, i as int + 1));
            }
            i = i + 1;
        }
        proof {
            assert(out@ =~= self.texts@);
        }
        out
    }

    /// Copies of all words, in store order.
    pub fn get_all_words(&self) -> (r: Vec<Word>)
        ensures
            r@ == self.words@,
    {
        let mut out: Vec<Word> = Vec::new();
        let mut i: usize = 0;
        while i < self.words.len()
            invariant
                i <= self.words@.len(),
                out@ == self.words@.subrange(0, i as int),
            decreases self.words@.len() - i,
        {
            out.push(self.words[i].duplicate());
            proof {
                assert(out@ =~= self.words@.subrange(0, i as int + 1));
            }
            i = i + 1;
        }
        proof {
            assert(out@ =~= self.words@);
        }
        out
    }
}

} // verus!
