//! Term-frequency model ("word cloud") built from a reference text, and
//! phrase scoring against it.
//!
//! The model maps each normalized word to its occurrence count and keeps
//! the total occurrence count. It is built once and never mutated, so it
//! may be shared freely between scoring calls.

use vstd::prelude::*;
use crate::MAX_TEXT_LEN;
use crate::text::{
    ascii_lower, ascii_lower_chars, chars_eq, chars_of, char_is_whitespace,
    first_ws, lemma_first_space_unique, lemma_first_ws, lemma_first_ws_unique,
    lemma_space_split_len, ltrim_spec, normalize_chars, normalize_spec,
    rtrim_spec, space_split, white_space, ws_tokens,
};

verus! {

// ------------------------------------------------------------------
// The model's representation and its mathematical reading.
// ------------------------------------------------------------------

/// One normalized word together with its occurrence count.
pub struct WordEntry {
    pub word: Vec<char>,
    pub count: usize,
}

/// A term-frequency model: occurrence counts for the normalized words of a
/// reference text, plus the total occurrence count.
pub struct WordCloud {
    pub word_cloud: Vec<WordEntry>,
    pub total_weight: usize,
}

/// The count stored for `w`, or 0 if `w` is not present.
pub open spec fn lookup_count(entries: Seq<WordEntry>, w: Seq<char>) -> int
    decreases entries.len(),
{
    if entries.len() == 0 {
        0
    } else if entries[0].word@ == w {
        entries[0].count as int
    } else {
        lookup_count(entries.drop_first(), w)
    }
}

/// Whether some entry stores the word `w`.
pub open spec fn has_word(entries: Seq<WordEntry>, w: Seq<char>) -> bool
    decreases entries.len(),
{
    if entries.len() == 0 {
        false
    } else if entries[0].word@ == w {
        true
    } else {
        has_word(entries.drop_first(), w)
    }
}

/// The sum of all stored counts.
pub open spec fn sum_counts(entries: Seq<WordEntry>) -> int
    decreases entries.len(),
{
    if entries.len() == 0 {
        0
    } else {
        entries[0].count + sum_counts(entries.drop_first())
    }
}

/// How many times the word `w` occurs in the token list `ts`.
pub open spec fn occ_count(ts: Seq<Seq<char>>, w: Seq<char>) -> int
    decreases ts.len(),
{
    if ts.len() == 0 {
        0
    } else {
        (if ts[0] == w { 1int } else { 0int }) + occ_count(ts.drop_first(), w)
    }
}

impl WordCloud {
    /// Well-formedness: words are unique and nonempty, counts are at least
    /// one, and the total weight is the sum of all counts.
    pub open spec fn wf(self) -> bool {
        &&& forall|i: int, j: int|
            0 <= i < j < self.word_cloud@.len()
                ==> self.word_cloud@[i].word@ != self.word_cloud@[j].word@
        &&& forall|i: int|
            0 <= i < self.word_cloud@.len() ==> 1 <= #[trigger] self.word_cloud@[i].count
        &&& forall|i: int|
            0 <= i < self.word_cloud@.len() ==> #[trigger] self.word_cloud@[i].word@.len() >= 1
        &&& self.total_weight == sum_counts(self.word_cloud@)
    }

    /// The occurrence count recorded for the normalized word `w`.
    pub open spec fn spec_count(self, w: Seq<char>) -> int {
        lookup_count(self.word_cloud@, w)
    }

    /// The total occurrence count.
    pub open spec fn spec_total(self) -> int {
        self.total_weight as int
    }

    /// What it means for this model to be the term-frequency model of the
    /// reference text `text`: every word's count is its number of
    /// occurrences among the whitespace-separated tokens of the normalized
    /// text, and the total weight is the number of those tokens.
    pub open spec fn is_model_of(self, text: Seq<char>) -> bool {
        &&& self.wf()
        &&& self.spec_total() == ws_tokens(normalize_spec(text)).len()
        &&& forall|w: Seq<char>|
            #[trigger] self.spec_count(w) == occ_count(ws_tokens(normalize_spec(text)), w)
    }
}

// ------------------------------------------------------------------
// Lemmas about the representation.
// ------------------------------------------------------------------

/// A stored count never exceeds the sum of all counts.
proof fn lemma_lookup_le_sum(entries: Seq<WordEntry>, w: Seq<char>)
    requires
        forall|i: int| 0 <= i < entries.len() ==> 0 <= #[trigger] entries[i].count,
    ensures
        0 <= lookup_count(entries, w) <= sum_counts(entries),
    decreases entries.len(),
{
    if entries.len() > 0 {
        assert(entries[0].count >= 0);
        assert forall|i: int| 0 <= i < entries.drop_first().len()
            implies 0 <= #[trigger] entries.drop_first()[i].count by {
            assert(entries.drop_first()[i] == entries[i + 1]);
        }
        lemma_lookup_le_sum(entries.drop_first(), w);
    }
}

/// A word absent from every entry has count 0.
proof fn lemma_lookup_absent(entries: Seq<WordEntry>, w: Seq<char>)
    requires
        forall|i: int| 0 <= i < entries.len() ==> #[trigger] entries[i].word@ != w,
    ensures
        !has_word(entries, w),
        lookup_count(entries, w) == 0,
    decreases entries.len(),
{
    if entries.len() > 0 {
        assert(entries[0].word@ != w);
        assert forall|i: int| 0 <= i < entries.drop_first().len()
            implies #[trigger] entries.drop_first()[i].word@ != w by {
            assert(entries.drop_first()[i] == entries[i + 1]);
        }
        lemma_lookup_absent(entries.drop_first(), w);
    }
}

/// The count of a word stored at index `idx`, before which it does not
/// occur, is the count stored there.
proof fn lemma_lookup_at(entries: Seq<WordEntry>, w: Seq<char>, idx: int)
    requires
        0 <= idx < entries.len(),
        entries[idx].word@ == w,
        forall|k: int| 0 <= k < idx ==> #[trigger] entries[k].word@ != w,
    ensures
        has_word(entries, w),
        lookup_count(entries, w) == entries[idx].count,
    decreases idx,
{
    if idx > 0 {
        assert(entries[0].word@ != w);
        assert forall|k: int| 0 <= k < idx - 1
            implies #[trigger] entries.drop_first()[k].word@ != w by {
            assert(entries.drop_first()[k] == entries[k + 1]);
        }
        assert(entries.drop_first()[idx - 1] == entries[idx]);
        lemma_lookup_at(entries.drop_first(), w, idx - 1);
    }
}

/// Updating the count stored at `idx` changes the looked-up count of that
/// word alone, and the sum by the difference.
proof fn lemma_update_count(entries: Seq<WordEntry>, idx: int, e: WordEntry)
    requires
        0 <= idx < entries.len(),
        e.word@ == entries[idx].word@,
    ensures
        sum_counts(entries.update(idx, e))
            == sum_counts(entries) - entries[idx].count + e.count,
        forall|w: Seq<char>|
            w != entries[idx].word@
                ==> #[trigger] lookup_count(entries.update(idx, e), w) == lookup_count(entries, w),
    decreases entries.len(),
{
    let upd = entries.update(idx, e);
    if idx == 0 {
        assert(upd.drop_first() =~= entries.drop_first());
        assert forall|w: Seq<char>| w != entries[0].word@
            implies #[trigger] lookup_count(upd, w) == lookup_count(entries, w) by {
            assert(upd[0] == e);
        }
    } else {
        assert(upd.drop_first() =~= entries.drop_first().update(idx - 1, e));
        assert(entries.drop_first()[idx - 1] == entries[idx]);
        lemma_update_count(entries.drop_first(), idx - 1, e);
        assert(upd[0] == entries[0]);
        assert forall|w: Seq<char>| w != entries[idx].word@
            implies #[trigger] lookup_count(upd, w) == lookup_count(entries, w) by {
            if entries[0].word@ != w {
                assert(lookup_count(upd, w) == lookup_count(upd.drop_first(), w));
                assert(lookup_count(upd.drop_first(), w)
                    == lookup_count(entries.drop_first(), w));
            }
        }
    }
}

/// Appending a fresh entry leaves every other word's count unchanged and
/// adds the new count to the sum.
proof fn lemma_push_entry(entries: Seq<WordEntry>, e: WordEntry)
    ensures
        sum_counts(entries.push(e)) == sum_counts(entries) + e.count,
        forall|w: Seq<char>|
            w != e.word@
                ==> #[trigger] lookup_count(entries.push(e), w) == lookup_count(entries, w),
        !has_word(entries, e.word@)
            ==> lookup_count(entries.push(e), e.word@) == e.count,
    decreases entries.len(),
{
    let p = entries.push(e);
    assert(sum_counts(p) == p[0].count + sum_counts(p.drop_first()));
    if entries.len() == 0 {
        assert(p.drop_first() =~= Seq::<WordEntry>::empty());
        assert(p[0] == e);
        assert(sum_counts(p.drop_first()) == 0);
        assert forall|w: Seq<char>| w != e.word@
            implies #[trigger] lookup_count(p, w) == lookup_count(entries, w) by {
            assert(lookup_count(p, w) == lookup_count(p.drop_first(), w));
        }
    } else {
        assert(p.drop_first() =~= entries.drop_first().push(e));
        lemma_push_entry(entries.drop_first(), e);
        assert(p[0] == entries[0]);
        assert forall|w: Seq<char>| w != e.word@
            implies #[trigger] lookup_count(p, w) == lookup_count(entries, w) by {
            if entries[0].word@ != w {
                assert(lookup_count(p, w) == lookup_count(entries.drop_first().push(e), w));
                assert(lookup_count(entries.drop_first().push(e), w)
                    == lookup_count(entries.drop_first(), w));
            }
        }
        if !has_word(entries, e.word@) {
            assert(lookup_count(p, e.word@)
                == lookup_count(entries.drop_first().push(e), e.word@));
        }
    }
}

/// A text has at most as many whitespace-run tokens as characters.
proof fn lemma_ws_tokens_len(s: Seq<char>)
    ensures
        ws_tokens(s).len() <= s.len(),
    decreases s.len(),
{
    if s.len() == 0 {
    } else if white_space(s[0]) {
        lemma_ws_tokens_len(s.drop_first());
    } else {
        lemma_first_ws(s);
        lemma_first_ws(s.drop_first());
        lemma_ws_tokens_len(s.skip(first_ws(s)));
    }
}

// ------------------------------------------------------------------
// Construction.
// ------------------------------------------------------------------

impl WordCloud {
    /// The empty model: no words, total weight zero.
    pub fn new() -> (r: Self)
        ensures
            r.wf(),
            r.spec_total() == 0,
            forall|w: Seq<char>| #[trigger] r.spec_count(w) == 0,
    {
        let r = Self { word_cloud: Vec::new(), total_weight: 0 };
        proof {
            assert forall|w: Seq<char>| #[trigger] r.spec_count(w) == 0 by {
                assert(r.word_cloud@.len() == 0);
            }
        }
        r
    }

    /// Builds the term-frequency model of `text`: the text is trimmed,
    /// Unicode-lowercased and stripped to alphabetic-and-whitespace
    /// characters, then every whitespace-separated token increments its
    /// word's count and the total weight.
    pub fn create_from_text(text: &str) -> (r: Self)
        ensures
            r.is_model_of(text@),
    {
        let tv = chars_of(text);
        let nv = normalize_chars(&tv);
        let ghost full = nv@;
        let ghost all_toks = ws_tokens(full);
        proof {
            lemma_ws_tokens_len(full);
        }
        let n = nv.len();
        let mut words: Vec<WordEntry> = Vec::new();
        let mut total: usize = 0;
        let mut pos: usize = 0;
        proof {
            assert(full.skip(0) =~= full);
            assert forall|w: Seq<char>|
                #[trigger] lookup_count(words@, w)
                    + occ_count(ws_tokens(full.skip(0)), w) == occ_count(all_toks, w) by {
                assert(words@.len() == 0);
                assert(lookup_count(words@, w) == 0);
            }
        }
        while pos < n
            invariant
                pos <= n,
                n == full.len(),
                nv@ == full,
                all_toks == ws_tokens(full),
                all_toks.len() <= n,
                total + ws_tokens(full.skip(pos as int)).len() == all_toks.len(),
                forall|w: Seq<char>|
                    #[trigger] lookup_count(words@, w)
                        + occ_count(ws_tokens(full.skip(pos as int)), w)
                        == occ_count(all_toks, w),
                forall|i: int, j: int|
                    0 <= i < j < words@.len() ==> words@[i].word@ != words@[j].word@,
                forall|i: int| 0 <= i < words@.len() ==> 1 <= #[trigger] words@[i].count,
                forall|i: int| 0 <= i < words@.len() ==> #[trigger] words@[i].word@.len() >= 1,
                total == sum_counts(words@),
                total <= all_toks.len(),
            decreases n - pos,
        {
            let c = nv[pos];
            if char_is_whitespace(c) {
                proof {
                    assert(full.skip(pos as int).drop_first() =~= full.skip(pos + 1 as int));
                }
                pos = pos + 1;
            } else {
                let mut j = pos + 1;
                while j < n
                    invariant_except_break
                        pos < j <= n,
                        n == full.len(),
                        nv@ == full,
                        forall|k: int| pos <= k < j ==> !white_space(full[k]),
                    ensures
                        pos < j <= n,
                        n == full.len(),
                        nv@ == full,
                        forall|k: int| pos <= k < j ==> !white_space(full[k]),
                        j < n ==> white_space(full[j as int]),
                    decreases n - j,
                {
                    if char_is_whitespace(nv[j]) {
                        break;
                    }
                    j = j + 1;
                }
                let mut tok: Vec<char> = Vec::new();
                let mut t = pos;
                while t < j
                    invariant
                        pos <= t <= j <= n,
                        n == full.len(),
                        nv@ == full,
                        tok@ == full.subrange(pos as int, t as int),
                    decreases j - t,
                {
                    let ch = nv[t];
                    tok.push(ch);
                    proof {
                        assert(full.subrange(pos as int, t as int).push(full[t as int])
                            =~= full.subrange(pos as int, t + 1 as int));
                    }
                    t = t + 1;
                }
                proof {
                    let rem = full.skip(pos as int);
                    assert forall|k: int| 0 <= k < j - pos implies !white_space(rem[k]) by {
                        assert(rem[k] == full[k + pos]);
                    }
                    if j < n {
                        assert(rem[j - pos] == full[j as int]);
                    }
                    lemma_first_ws_unique(rem, j - pos);
                    assert(rem.take(j - pos) =~= full.subrange(pos as int, j as int));
                    assert(rem.skip(j - pos) =~= full.skip(j as int));
                    assert(ws_tokens(rem)
                        =~= seq![tok@] + ws_tokens(full.skip(j as int)));
                    assert((seq![tok@] + ws_tokens(full.skip(j as int))).drop_first()
                        =~= ws_tokens(full.skip(j as int)));
                }
                let wn = words.len();
                let mut idx: usize = 0;
                let mut found = false;
                while idx < wn
                    invariant_except_break
                        idx <= wn,
                        wn == words@.len(),
                        !found,
                        forall|k: int| 0 <= k < idx ==> #[trigger] words@[k].word@ != tok@,
                    ensures
                        idx <= wn,
                        wn == words@.len(),
                        found ==> idx < wn && words@[idx as int].word@ == tok@,
                        forall|k: int| 0 <= k < idx ==> #[trigger] words@[k].word@ != tok@,
                        !found ==> idx == wn,
                    decreases wn - idx,
                {
                    if chars_eq(&words[idx].word, &tok) {
                        found = true;
                        break;
                    }
                    idx = idx + 1;
                }
                let ghost prev = words@;
                if found {
                    proof {
                        lemma_lookup_at(prev, tok@, idx as int);
                        lemma_lookup_le_sum(prev, tok@);
                    }
                    let c0 = words[idx].count;
                    let e = WordEntry { word: tok, count: c0 + 1 };
                    proof {
                        lemma_update_count(prev, idx as int, e);
                    }
                    words[idx] = e;
                    proof {
                        assert forall|k: int| 0 <= k < idx as int
                            implies #[trigger] words@[k].word@ != e.word@ by {
                            assert(words@[k] == prev[k]);
                        }
                        lemma_lookup_at(words@, e.word@, idx as int);
                    }
                } else {
                    let e = WordEntry { word: tok, count: 1 };
                    proof {
                        lemma_lookup_absent(prev, e.word@);
                        lemma_push_entry(prev, e);
                    }
                    words.push(e);
                }
                total = total + 1;
                pos = j;
            }
        }
        proof {
            assert(full.skip(n as int) =~= Seq::<char>::empty());
            assert(ws_tokens(full.skip(n as int)) =~= Seq::<Seq<char>>::empty());
        }
        let r = Self { word_cloud: words, total_weight: total };
        r
    }
}

// ------------------------------------------------------------------
// Scoring.
// ------------------------------------------------------------------

/// The weight a phrase earned against a model, together with the model's
/// total weight at the time of scoring.
pub struct WordScore {
    pub word_weight: i64,
    pub total_weight: i64,
}

impl WordScore {
    pub fn new(word_weight: i64, total_weight: i64) -> (r: Self)
        ensures
            r.word_weight == word_weight,
            r.total_weight == total_weight,
    {
        Self { word_weight, total_weight }
    }

    pub fn get_word_weight(&self) -> (r: i64)
        ensures
            r == self.word_weight,
    {
        self.word_weight
    }

    pub fn get_total_weight(&self) -> (r: i64)
        ensures
            r == self.total_weight,
    {
        self.total_weight
    }
}

/// The summed counts of a token list: each token is ASCII-lowercased and
/// looked up, a missing word counting 0.
pub open spec fn score_tokens(m: WordCloud, ts: Seq<Seq<char>>) -> int
    decreases ts.len(),
{
    if ts.len() == 0 {
        0
    } else {
        score_tokens(m, ts.drop_last()) + m.spec_count(ascii_lower(ts.last()))
    }
}

/// The weight of a phrase against a model: the phrase is split on single
/// spaces and the counts of its case-folded tokens are summed.
pub open spec fn score_spec(m: WordCloud, phrase: Seq<char>) -> int {
    score_tokens(m, space_split(phrase))
}

impl WordCloud {
    /// The stored count of the (already folded) word `w`, 0 if absent.
    fn count_of(&self, w: &Vec<char>) -> (c: usize)
        ensures
            c as int == self.spec_count(w@),
    {
        let wn = self.word_cloud.len();
        let mut idx: usize = 0;
        while idx < wn
            invariant_except_break
                idx <= wn,
                wn == self.word_cloud@.len(),
                forall|k: int|
                    0 <= k < idx ==> #[trigger] self.word_cloud@[k].word@ != w@,
            ensures
                idx <= wn,
                wn == self.word_cloud@.len(),
                forall|k: int|
                    0 <= k < idx ==> #[trigger] self.word_cloud@[k].word@ != w@,
                idx < wn ==> self.word_cloud@[idx as int].word@ == w@,
            decreases wn - idx,
        {
            if chars_eq(&self.word_cloud[idx].word, w) {
                break;
            }
            idx = idx + 1;
        }
        if idx < wn {
            proof {
                lemma_lookup_at(self.word_cloud@, w@, idx as int);
            }
            self.word_cloud[idx].count
        } else {
            proof {
                lemma_lookup_absent(self.word_cloud@, w@);
            }
            0
        }
    }

    /// Scores a phrase: it is split on single space characters (a run of
    /// spaces or a tab therefore yields tokens that simply miss), each
    /// token is ASCII-lowercased and looked up, and the found counts are
    /// summed. Misses contribute 0. The result is a pure function of the
    /// model and the phrase.
    pub fn get_word_score(&self, string: String) -> (r: WordScore)
        requires
            self.wf(),
            self.total_weight <= MAX_TEXT_LEN,
            string@.len() <= MAX_TEXT_LEN,
        ensures
            r.word_weight == score_spec(*self, string@),
            r.total_weight == self.total_weight,
            0 <= r.word_weight <= string@.len() * self.spec_total() + self.spec_total(),
    {
        let pv = chars_of(string.as_str());
        let ghost full = pv@;
        let ghost toks = space_split(full);
        proof {
            lemma_space_split_len(full);
            assert(full.skip(0) =~= full);
            assert(toks.skip(0) =~= toks);
            assert(toks.take(0) =~= Seq::<Seq<char>>::empty());
        }
        let n = pv.len();
        let ghost tw = self.total_weight as int;
        let mut acc: i64 = 0;
        let mut pos: usize = 0;
        let ghost mut t_idx: int = 0;
        loop
            invariant_except_break
                pos <= n,
                n == full.len(),
                pv@ == full,
                n <= MAX_TEXT_LEN,
                self.wf(),
                self.total_weight <= MAX_TEXT_LEN,
                tw == self.total_weight as int,
                toks == space_split(full),
                toks.len() <= n + 1,
                0 <= t_idx <= toks.len() - 1,
                space_split(full.skip(pos as int)) == toks.skip(t_idx),
                acc == score_tokens(*self, toks.take(t_idx)),
                0 <= acc <= t_idx * tw,
            ensures
                acc == score_tokens(*self, toks),
                0 <= acc <= toks.len() * tw,
            decreases n - pos,
        {
            let mut j = pos;
            while j < n
                invariant_except_break
                    pos <= j <= n,
                    n == full.len(),
                    pv@ == full,
                    forall|k: int| pos <= k < j ==> full[k] != ' ',
                ensures
                    pos <= j <= n,
                    n == full.len(),
                    pv@ == full,
                    forall|k: int| pos <= k < j ==> full[k] != ' ',
                    j < n ==> full[j as int] == ' ',
                decreases n - j,
            {
                if pv[j] == ' ' {
                    break;
                }
                j = j + 1;
            }
            let mut tok: Vec<char> = Vec::new();
            let mut t = pos;
            while t < j
                invariant
                    pos <= t <= j <= n,
                    n == full.len(),
                    pv@ == full,
                    tok@ == full.subrange(pos as int, t as int),
                decreases j - t,
            {
                let ch = pv[t];
                tok.push(ch);
                proof {
                    assert(full.subrange(pos as int, t as int).push(full[t as int])
                        =~= full.subrange(pos as int, t + 1 as int));
                }
                t = t + 1;
            }
            let folded = ascii_lower_chars(&tok);
            let cnt = self.count_of(&folded);
            proof {
                let rem = full.skip(pos as int);
                assert forall|k: int| 0 <= k < j - pos implies rem[k] != ' ' by {
                    assert(rem[k] == full[k + pos]);
                }
                if j < n {
                    assert(rem[j - pos] == full[j as int]);
                }
                lemma_first_space_unique(rem, j - pos);
                assert(rem.take(j - pos) =~= full.subrange(pos as int, j as int));
                if j < n {
                    assert(rem.skip(j - pos + 1) =~= full.skip(j + 1 as int));
                    assert(space_split(rem)
                        == seq![tok@] + space_split(full.skip(j + 1 as int)));
                    assert((seq![tok@] + space_split(full.skip(j + 1 as int))).drop_first()
                        =~= space_split(full.skip(j + 1 as int)));
                    lemma_space_split_len(full.skip(j + 1 as int));
                } else {
                    assert(rem =~= full.subrange(pos as int, n as int));
                    assert(space_split(rem) == seq![rem]);
                }
                assert(toks[t_idx] == space_split(rem)[0]);
                assert(toks[t_idx] == tok@);
                assert(toks.take(t_idx + 1).drop_last() =~= toks.take(t_idx));
                assert(toks.take(t_idx + 1).last() == toks[t_idx]);
                lemma_lookup_le_sum(self.word_cloud@, ascii_lower(tok@));
                assert(cnt as int <= tw);
                assert(t_idx * tw + tw == (t_idx + 1) * tw) by (nonlinear_arith);
                assert(t_idx * tw <= (toks.len() - 1) * tw) by (nonlinear_arith)
                    requires
                        0 <= t_idx <= toks.len() - 1,
                        tw >= 0,
                ;
                assert((toks.len() - 1) * tw <= (n + 1) * tw) by (nonlinear_arith)
                    requires
                        toks.len() <= n + 1,
                        tw >= 0,
                ;
                assert((n + 1) * tw <= (MAX_TEXT_LEN + 1) * (MAX_TEXT_LEN as int))
                    by (nonlinear_arith)
                    requires
                        0 <= n <= MAX_TEXT_LEN,
                        0 <= tw <= MAX_TEXT_LEN,
                ;
            }
            acc = acc + (cnt as i64);
            proof {
                t_idx = t_idx + 1;
            }
            if j < n {
                pos = j + 1;
            } else {
                proof {
                    let rem = full.skip(pos as int);
                    assert(space_split(rem).len() == 1);
                    assert(toks.skip(t_idx - 1) == space_split(rem));
                    assert(toks.len() - (t_idx - 1) == 1);
                    assert(t_idx == toks.len());
                    assert(toks.take(t_idx) =~= toks);
                    assert(t_idx * tw == toks.len() * tw);
                }
                break;
            }
        }
        proof {
            assert(toks.len() * tw <= (n + 1) * tw) by (nonlinear_arith)
                requires
                    toks.len() <= n + 1,
                    tw >= 0,
            ;
            assert((n + 1) * tw == n * tw + tw) by (nonlinear_arith);
            assert(acc <= full.len() * tw + tw);
        }
        WordScore::new(acc, self.total_weight as i64)
    }
}

// ------------------------------------------------------------------
// Laws of the scoring engine.
// ------------------------------------------------------------------

proof fn lemma_sum_counts_nonneg(entries: Seq<WordEntry>)
    requires
        forall|i: int| 0 <= i < entries.len() ==> 0 <= #[trigger] entries[i].count,
    ensures
        sum_counts(entries) >= 0,
    decreases entries.len(),
{
    if entries.len() > 0 {
        assert forall|i: int| 0 <= i < entries.drop_first().len()
            implies 0 <= #[trigger] entries.drop_first()[i].count by {
            assert(entries.drop_first()[i] == entries[i + 1]);
        }
        lemma_sum_counts_nonneg(entries.drop_first());
    }
}

proof fn lemma_score_tokens_nonneg(m: WordCloud, ts: Seq<Seq<char>>)
    requires
        m.wf(),
    ensures
        score_tokens(m, ts) >= 0,
    decreases ts.len(),
{
    if ts.len() > 0 {
        lemma_score_tokens_nonneg(m, ts.drop_last());
        lemma_lookup_le_sum(m.word_cloud@, ascii_lower(ts.last()));
    }
}

proof fn lemma_score_tokens_at_least(m: WordCloud, ts: Seq<Seq<char>>, k: int)
    requires
        m.wf(),
        0 <= k < ts.len(),
    ensures
        score_tokens(m, ts) >= m.spec_count(ascii_lower(ts[k])),
    decreases ts.len(),
{
    lemma_lookup_le_sum(m.word_cloud@, ascii_lower(ts.last()));
    if k == ts.len() - 1 {
        lemma_score_tokens_nonneg(m, ts.drop_last());
    } else {
        assert(ts.drop_last()[k] == ts[k]);
        lemma_score_tokens_at_least(m, ts.drop_last(), k);
    }
}

proof fn lemma_score_tokens_zero(m: WordCloud, ts: Seq<Seq<char>>)
    requires
        forall|k: int|
            0 <= k < ts.len() ==> #[trigger] m.spec_count(ascii_lower(ts[k])) == 0,
    ensures
        score_tokens(m, ts) == 0,
    decreases ts.len(),
{
    if ts.len() > 0 {
        assert forall|k: int| 0 <= k < ts.drop_last().len()
            implies #[trigger] m.spec_count(ascii_lower(ts.drop_last()[k])) == 0 by {
            assert(ts.drop_last()[k] == ts[k]);
        }
        lemma_score_tokens_zero(m, ts.drop_last());
        assert(m.spec_count(ascii_lower(ts[ts.len() - 1])) == 0);
    }
}

proof fn lemma_score_tokens_bound(m: WordCloud, ts: Seq<Seq<char>>)
    requires
        m.wf(),
    ensures
        0 <= score_tokens(m, ts) <= ts.len() * m.spec_total(),
    decreases ts.len(),
{
    if ts.len() == 0 {
    } else {
        lemma_score_tokens_bound(m, ts.drop_last());
        lemma_lookup_le_sum(m.word_cloud@, ascii_lower(ts.last()));
        assert((ts.len() - 1) * m.spec_total() + m.spec_total() == ts.len() * m.spec_total())
            by (nonlinear_arith);
    }
}

/// A phrase's weight is nonnegative and at most one more than its length
/// times the model's total weight.
pub proof fn lemma_score_spec_bound(m: WordCloud, p: Seq<char>)
    requires
        m.wf(),
    ensures
        0 <= score_spec(m, p) <= (p.len() + 1) * m.spec_total(),
{
    lemma_space_split_len(p);
    lemma_score_tokens_bound(m, space_split(p));
    assert(space_split(p).len() * m.spec_total() <= (p.len() + 1) * m.spec_total())
        by (nonlinear_arith)
        requires
            space_split(p).len() <= p.len() + 1,
            m.spec_total() >= 0,
    ;
}

/// If every nonempty space-separated token of a phrase, once case-folded,
/// is a word of the model, and the phrase has at least one nonempty token,
/// then the phrase's weight is positive.
pub proof fn lemma_score_positive(m: WordCloud, phrase: Seq<char>)
    requires
        m.wf(),
        forall|k: int|
            0 <= k < space_split(phrase).len() && #[trigger] space_split(phrase)[k].len() > 0
                ==> m.spec_count(ascii_lower(space_split(phrase)[k])) > 0,
        exists|k: int|
            0 <= k < space_split(phrase).len() && #[trigger] space_split(phrase)[k].len() > 0,
    ensures
        score_spec(m, phrase) > 0,
{
    let ts = space_split(phrase);
    let k = choose|k: int| 0 <= k < ts.len() && #[trigger] ts[k].len() > 0;
    lemma_score_tokens_at_least(m, ts, k);
}

/// If no space-separated token of a phrase, once case-folded, is a word of
/// the model, the phrase's weight is zero.
pub proof fn lemma_score_zero(m: WordCloud, phrase: Seq<char>)
    requires
        forall|k: int|
            0 <= k < space_split(phrase).len()
                ==> #[trigger] m.spec_count(ascii_lower(space_split(phrase)[k])) == 0,
    ensures
        score_spec(m, phrase) == 0,
{
    lemma_score_tokens_zero(m, space_split(phrase));
}

/// An empty reference text yields the degenerate model: total weight zero.
pub proof fn lemma_empty_text_zero_total(m: WordCloud)
    requires
        m.is_model_of(Seq::empty()),
    ensures
        m.spec_total() == 0,
{
    let e = Seq::<char>::empty();
    assert(ltrim_spec(e) == e);
    assert(rtrim_spec(e) == e);
    assert(normalize_spec(e) == Seq::<char>::empty());
    assert(ws_tokens(Seq::<char>::empty()) =~= Seq::<Seq<char>>::empty());
}

/// Scoring is a pure function: the contract of `get_word_score` pins both
/// fields of the result to functions of the model and the phrase alone, so
/// any two results of scoring the same phrase against the same model are
/// equal.
pub proof fn lemma_score_is_function(m: WordCloud, p: Seq<char>, r1: WordScore, r2: WordScore)
    requires
        r1.word_weight == score_spec(m, p),
        r1.total_weight == m.spec_total(),
        r2.word_weight == score_spec(m, p),
        r2.total_weight == m.spec_total(),
    ensures
        r1 == r2,
{
}

/// Against a model of total weight zero every phrase scores zero; scoring
/// degrades gracefully rather than failing.
pub proof fn lemma_zero_model_scores_zero(m: WordCloud, phrase: Seq<char>)
    requires
        m.wf(),
        m.spec_total() == 0,
    ensures
        score_spec(m, phrase) == 0,
{
    let entries = m.word_cloud@;
    if entries.len() > 0 {
        assert forall|i: int| 0 <= i < entries.drop_first().len()
            implies 0 <= #[trigger] entries.drop_first()[i].count by {
            assert(entries.drop_first()[i] == entries[i + 1]);
        }
        lemma_sum_counts_nonneg(entries.drop_first());
        assert(sum_counts(entries) >= entries[0].count);
        assert(false);
    }
    assert forall|k: int| 0 <= k < space_split(phrase).len()
        implies #[trigger] m.spec_count(ascii_lower(space_split(phrase)[k])) == 0 by {
        assert(entries.len() == 0);
    }
    lemma_score_tokens_zero(m, space_split(phrase));
}

} // verus!
