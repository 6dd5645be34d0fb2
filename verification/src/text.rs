//! Character-level text utilities: Unicode classification (through trusted
//! declarations of the standard library's functions), ASCII case folding,
//! trimming, filtering, and the two tokenizations the scoring engine uses
//! (splitting on whitespace runs, and splitting on single space characters).

use vstd::prelude::*;
use vstd::string::StrSliceExecFns;

verus! {

// ------------------------------------------------------------------
// Names for the results of std's Unicode functions.
// ------------------------------------------------------------------

/// Whether a character has the Unicode `Alphabetic` property, as
/// `char::is_alphabetic` decides it.
pub uninterp spec fn alphabetic(c: char) -> bool;

/// Whether a character has the Unicode `White_Space` property, as
/// `char::is_whitespace` decides it.
pub uninterp spec fn white_space(c: char) -> bool;

/// The Unicode lowercase equivalent of a character sequence, as
/// `str::to_lowercase` computes it.
pub uninterp spec fn unicode_lower(s: Seq<char>) -> Seq<char>;

/// Relies on `char::is_alphabetic`: whether `c` has the Unicode
/// `Alphabetic` property, a function of the character alone.
#[verifier::external_body]
pub(crate) fn char_is_alphabetic(c: char) -> (r: bool)
    ensures
        r == alphabetic(c),
{
    c.is_alphabetic()
}

/// Relies on `char::is_whitespace`: whether `c` has the Unicode
/// `White_Space` property, a function of the character alone.
#[verifier::external_body]
pub(crate) fn char_is_whitespace(c: char) -> (r: bool)
    ensures
        r == white_space(c),
{
    c.is_whitespace()
}

/// Relies on `str::to_lowercase`: the Unicode lowercase equivalent of the
/// input, a function of its characters alone.
#[verifier::external_body]
pub(crate) fn str_to_lowercase(s: &str) -> (r: String)
    ensures
        r@ == unicode_lower(s@),
{
    s.to_lowercase()
}

// ------------------------------------------------------------------
// Conversions between strings and character vectors.
// ------------------------------------------------------------------

/// The characters of `s`, in order, as a vector.
pub(crate) fn chars_of(s: &str) -> (v: Vec<char>)
    ensures
        v@ == s@,
{
    let n = s.unicode_len();
    let mut v: Vec<char> = Vec::new();
    let mut i: usize = 0;
    while i < n
        invariant
            i <= n,
            n == s@.len(),
            v@ == s@.take(i as int),
        decreases n - i,
    {
        let c = s.get_char(i);
        v.push(c);
        proof {
            assert(s@.take(i as int).push(s@[i as int]) =~= s@.take(i + 1 as int));
        }
        i = i + 1;
    }
    proof {
        assert(s@.take(n as int) =~= s@);
    }
    v
}

/// Relies on `Iterator::collect` for `String`: the string whose characters
/// are exactly those of `v`, in order.
#[verifier::external_body]
pub(crate) fn string_from_chars(v: &Vec<char>) -> (s: String)
    ensures
        s@ == v@,
{
    v.iter().collect()
}

/// Element-wise equality of two character vectors.
pub(crate) fn chars_eq(a: &Vec<char>, b: &Vec<char>) -> (r: bool)
    ensures
        r == (a@ == b@),
{
    if a.len() != b.len() {
        return false;
    }
    let n = a.len();
    let mut i: usize = 0;
    while i < n
        invariant
            i <= n,
            n == a@.len(),
            n == b@.len(),
            forall|k: int| 0 <= k < i ==> a@[k] == b@[k],
        decreases n - i,
    {
        if a[i] != b[i] {
            return false;
        }
        i = i + 1;
    }
    proof {
        assert(a@ =~= b@);
    }
    true
}

// ------------------------------------------------------------------
// ASCII case folding.
// ------------------------------------------------------------------

/// The ASCII lowercase of a character: `'A'..='Z'` map to `'a'..='z'`,
/// every other character is unchanged.
pub open spec fn ascii_lower_char(c: char) -> char {
    if c == 'A' { 'a' }
    else if c == 'B' { 'b' }
    else if c == 'C' { 'c' }
    else if c == 'D' { 'd' }
    else if c == 'E' { 'e' }
    else if c == 'F' { 'f' }
    else if c == 'G' { 'g' }
    else if c == 'H' { 'h' }
    else if c == 'I' { 'i' }
    else if c == 'J' { 'j' }
    else if c == 'K' { 'k' }
    else if c == 'L' { 'l' }
    else if c == 'M' { 'm' }
    else if c == 'N' { 'n' }
    else if c == 'O' { 'o' }
    else if c == 'P' { 'p' }
    else if c == 'Q' { 'q' }
    else if c == 'R' { 'r' }
    else if c == 'S' { 's' }
    else if c == 'T' { 't' }
    else if c == 'U' { 'u' }
    else if c == 'V' { 'v' }
    else if c == 'W' { 'w' }
    else if c == 'X' { 'x' }
    else if c == 'Y' { 'y' }
    else if c == 'Z' { 'z' }
    else { c }
}

/// The ASCII uppercase of a character: `'a'..='z'` map to `'A'..='Z'`,
/// every other character is unchanged.
pub open spec fn ascii_upper_char(c: char) -> char {
    if c == 'a' { 'A' }
    else if c == 'b' { 'B' }
    else if c == 'c' { 'C' }
    else if c == 'd' { 'D' }
    else if c == 'e' { 'E' }
    else if c == 'f' { 'F' }
    else if c == 'g' { 'G' }
    else if c == 'h' { 'H' }
    else if c == 'i' { 'I' }
    else if c == 'j' { 'J' }
    else if c == 'k' { 'K' }
    else if c == 'l' { 'L' }
    else if c == 'm' { 'M' }
    else if c == 'n' { 'N' }
    else if c == 'o' { 'O' }
    else if c == 'p' { 'P' }
    else if c == 'q' { 'Q' }
    else if c == 'r' { 'R' }
    else if c == 's' { 'S' }
    else if c == 't' { 'T' }
    else if c == 'u' { 'U' }
    else if c == 'v' { 'V' }
    else if c == 'w' { 'W' }
    else if c == 'x' { 'X' }
    else if c == 'y' { 'Y' }
    else if c == 'z' { 'Z' }
    else { c }
}

pub(crate) fn to_ascii_lower_char(c: char) -> (r: char)
    ensures
        r == ascii_lower_char(c),
{
    if c == 'A' { 'a' }
    else if c == 'B' { 'b' }
    else if c == 'C' { 'c' }
    else if c == 'D' { 'd' }
    else if c == 'E' { 'e' }
    else if c == 'F' { 'f' }
    else if c == 'G' { 'g' }
    else if c == 'H' { 'h' }
    else if c == 'I' { 'i' }
    else if c == 'J' { 'j' }
    else if c == 'K' { 'k' }
    else if c == 'L' { 'l' }
    else if c == 'M' { 'm' }
    else if c == 'N' { 'n' }
    else if c == 'O' { 'o' }
    else if c == 'P' { 'p' }
    else if c == 'Q' { 'q' }
    else if c == 'R' { 'r' }
    else if c == 'S' { 's' }
    else if c == 'T' { 't' }
    else if c == 'U' { 'u' }
    else if c == 'V' { 'v' }
    else if c == 'W' { 'w' }
    else if c == 'X' { 'x' }
    else if c == 'Y' { 'y' }
    else if c == 'Z' { 'z' }
    else { c }
}

pub(crate) fn to_ascii_upper_char(c: char) -> (r: char)
    ensures
        r == ascii_upper_char(c),
{
    if c == 'a' { 'A' }
    else if c == 'b' { 'B' }
    else if c == 'c' { 'C' }
    else if c == 'd' { 'D' }
    else if c == 'e' { 'E' }
    else if c == 'f' { 'F' }
    else if c == 'g' { 'G' }
    else if c == 'h' { 'H' }
    else if c == 'i' { 'I' }
    else if c == 'j' { 'J' }
    else if c == 'k' { 'K' }
    else if c == 'l' { 'L' }
    else if c == 'm' { 'M' }
    else if c == 'n' { 'N' }
    else if c == 'o' { 'O' }
    else if c == 'p' { 'P' }
    else if c == 'q' { 'Q' }
    else if c == 'r' { 'R' }
    else if c == 's' { 'S' }
    else if c == 't' { 'T' }
    else if c == 'u' { 'U' }
    else if c == 'v' { 'V' }
    else if c == 'w' { 'W' }
    else if c == 'x' { 'X' }
    else if c == 'y' { 'Y' }
    else if c == 'z' { 'Z' }
    else { c }
}

/// The ASCII lowercase of a whole character sequence.
pub open spec fn ascii_lower(s: Seq<char>) -> Seq<char> {
    s.map_values(|c: char| ascii_lower_char(c))
}

/// ASCII-lowercases every character of a vector.
pub(crate) fn ascii_lower_chars(v: &Vec<char>) -> (r: Vec<char>)
    ensures
        r@ == ascii_lower(v@),
{
    let n = v.len();
    let mut r: Vec<char> = Vec::new();
    let mut i: usize = 0;
    while i < n
        invariant
            i <= n,
            n == v@.len(),
            r@ == ascii_lower(v@.take(i as int)),
        decreases n - i,
    {
        let c = to_ascii_lower_char(v[i]);
        r.push(c);
        proof {
            assert(ascii_lower(v@.take(i as int)).push(ascii_lower_char(v@[i as int]))
                =~= ascii_lower(v@.take(i + 1 as int)));
        }
        i = i + 1;
    }
    proof {
        assert(v@.take(n as int) =~= v@);
    }
    r
}

/// What `capitalize` computes: the first character ASCII-uppercased, the
/// rest unchanged.
pub open spec fn capitalize_spec(s: Seq<char>) -> Seq<char> {
    if s.len() == 0 {
        s
    } else {
        s.update(0, ascii_upper_char(s[0]))
    }
}

/// Uppercases the first character of a string (ASCII only), leaving the
/// rest unchanged.
pub fn capitalize(string: String) -> (r: String)
    ensures
        r@ == capitalize_spec(string@),
{
    let mut v = chars_of(string.as_str());
    if v.len() > 0 {
        let c = to_ascii_upper_char(v[0]);
        v[0] = c;
    }
    string_from_chars(&v)
}

// ------------------------------------------------------------------
// Trimming.
// ------------------------------------------------------------------

/// The sequence with its leading whitespace removed.
pub open spec fn ltrim_spec(s: Seq<char>) -> Seq<char>
    decreases s.len(),
{
    if s.len() > 0 && white_space(s[0]) {
        ltrim_spec(s.drop_first())
    } else {
        s
    }
}

/// The sequence with its trailing whitespace removed.
pub open spec fn rtrim_spec(s: Seq<char>) -> Seq<char>
    decreases s.len(),
{
    if s.len() > 0 && white_space(s.last()) {
        rtrim_spec(s.drop_last())
    } else {
        s
    }
}

/// The sequence with leading and trailing whitespace removed.
pub open spec fn trim_spec(s: Seq<char>) -> Seq<char> {
    rtrim_spec(ltrim_spec(s))
}

proof fn lemma_ltrim_at(s: Seq<char>, a: int)
    requires
        0 <= a <= s.len(),
        forall|k: int| 0 <= k < a ==> white_space(s[k]),
        a < s.len() ==> !white_space(s[a]),
    ensures
        ltrim_spec(s) == s.skip(a),
    decreases a,
{
    if a == 0 {
        assert(s.skip(0) =~= s);
    } else {
        assert(white_space(s[0]));
        lemma_ltrim_at(s.drop_first(), a - 1);
        assert(s.drop_first().skip(a - 1) =~= s.skip(a));
    }
}

proof fn lemma_rtrim_at(s: Seq<char>, b: int)
    requires
        0 <= b <= s.len(),
        forall|k: int| b <= k < s.len() ==> white_space(s[k]),
        b > 0 ==> !white_space(s[b - 1]),
    ensures
        rtrim_spec(s) == s.take(b),
    decreases s.len() - b,
{
    if b == s.len() {
        assert(s.take(b) =~= s);
    } else {
        assert(white_space(s.last()));
        lemma_rtrim_at(s.drop_last(), b);
        assert(s.drop_last().take(b) =~= s.take(b));
    }
}

/// Removes leading and trailing whitespace from a character vector.
pub(crate) fn trim_chars(v: &Vec<char>) -> (r: Vec<char>)
    ensures
        r@ == trim_spec(v@),
{
    let n = v.len();
    let mut a: usize = 0;
    while a < n
        invariant_except_break
            a <= n,
            n == v@.len(),
            forall|k: int| 0 <= k < a ==> white_space(v@[k]),
        ensures
            a <= n,
            n == v@.len(),
            forall|k: int| 0 <= k < a ==> white_space(v@[k]),
            a < n ==> !white_space(v@[a as int]),
        decreases n - a,
    {
        if !char_is_whitespace(v[a]) {
            break;
        }
        a = a + 1;
    }
    let mut b: usize = n;
    while b > a
        invariant_except_break
            a <= b <= n,
            n == v@.len(),
            forall|k: int| b <= k < n ==> white_space(v@[k]),
        ensures
            a <= b <= n,
            n == v@.len(),
            forall|k: int| b <= k < n ==> white_space(v@[k]),
            b > a ==> !white_space(v@[b - 1]),
        decreases b,
    {
        if !char_is_whitespace(v[b - 1]) {
            break;
        }
        b = b - 1;
    }
    let mut r: Vec<char> = Vec::new();
    let mut i: usize = a;
    while i < b
        invariant
            a <= i <= b <= n,
            n == v@.len(),
            r@ == v@.subrange(a as int, i as int),
        decreases b - i,
    {
        let c = v[i];
        r.push(c);
        proof {
            assert(v@.subrange(a as int, i as int).push(v@[i as int])
                =~= v@.subrange(a as int, i + 1 as int));
        }
        i = i + 1;
    }
    proof {
        lemma_ltrim_at(v@, a as int);
        lemma_rtrim_at(v@.skip(a as int), b - a);
        assert forall|k: int| b - a <= k < v@.skip(a as int).len()
            implies white_space(v@.skip(a as int)[k]) by {
            assert(white_space(v@[k + a]));
        }
        assert(v@.skip(a as int).take(b - a) =~= v@.subrange(a as int, b as int));
    }
    r
}

// ------------------------------------------------------------------
// Filtering to alphabetic-or-whitespace characters.
// ------------------------------------------------------------------

/// Whether normalization keeps a character: alphabetic or whitespace.
pub open spec fn keep_char(c: char) -> bool {
    alphabetic(c) || white_space(c)
}

/// The subsequence of alphabetic-or-whitespace characters, in order.
pub open spec fn filter_alpha_ws(s: Seq<char>) -> Seq<char>
    decreases s.len(),
{
    if s.len() == 0 {
        Seq::empty()
    } else if keep_char(s.last()) {
        filter_alpha_ws(s.drop_last()).push(s.last())
    } else {
        filter_alpha_ws(s.drop_last())
    }
}

/// Keeps only the alphabetic-or-whitespace characters of a vector.
pub(crate) fn filter_chars(v: &Vec<char>) -> (r: Vec<char>)
    ensures
        r@ == filter_alpha_ws(v@),
{
    let n = v.len();
    let mut r: Vec<char> = Vec::new();
    let mut i: usize = 0;
    while i < n
        invariant
            i <= n,
            n == v@.len(),
            r@ == filter_alpha_ws(v@.take(i as int)),
        decreases n - i,
    {
        let c = v[i];
        let is_al = char_is_alphabetic(c);
        let is_ws = char_is_whitespace(c);
        proof {
            assert(v@.take(i + 1 as int).drop_last() =~= v@.take(i as int));
            assert(v@.take(i + 1 as int).last() == v@[i as int]);
        }
        if is_al || is_ws {
            r.push(c);
        }
        i = i + 1;
    }
    proof {
        assert(v@.take(n as int) =~= v@);
    }
    r
}

/// The whole normalization pipeline applied to a reference text: trim,
/// Unicode-lowercase, then keep only alphabetic and whitespace characters.
pub open spec fn normalize_spec(s: Seq<char>) -> Seq<char> {
    if trim_spec(s).len() == 0 {
        Seq::empty()
    } else {
        filter_alpha_ws(unicode_lower(trim_spec(s)))
    }
}

/// Normalizes a reference text held as a character vector.
pub(crate) fn normalize_chars(v: &Vec<char>) -> (r: Vec<char>)
    ensures
        r@ == normalize_spec(v@),
{
    let trimmed = trim_chars(v);
    if trimmed.len() == 0 {
        Vec::new()
    } else {
        let ts = string_from_chars(&trimmed);
        let lowered = str_to_lowercase(ts.as_str());
        let lv = chars_of(lowered.as_str());
        filter_chars(&lv)
    }
}

// ------------------------------------------------------------------
// Tokenizing on whitespace runs.
// ------------------------------------------------------------------

/// The index of the first whitespace character of `s`, or `s.len()` if
/// there is none.
pub open spec fn first_ws(s: Seq<char>) -> int
    decreases s.len(),
{
    if s.len() == 0 {
        0
    } else if white_space(s[0]) {
        0
    } else {
        1 + first_ws(s.drop_first())
    }
}

pub proof fn lemma_first_ws(s: Seq<char>)
    ensures
        0 <= first_ws(s) <= s.len(),
        forall|k: int| 0 <= k < first_ws(s) ==> !white_space(s[k]),
        first_ws(s) < s.len() ==> white_space(s[first_ws(s)]),
    decreases s.len(),
{
    if s.len() == 0 {
    } else if white_space(s[0]) {
    } else {
        lemma_first_ws(s.drop_first());
        assert forall|k: int| 0 <= k < first_ws(s) implies !white_space(s[k]) by {
            if k > 0 {
                assert(!white_space(s.drop_first()[k - 1]));
            }
        }
    }
}

/// `first_ws` is pinned down by its characterization.
pub proof fn lemma_first_ws_unique(s: Seq<char>, i: int)
    requires
        0 <= i <= s.len(),
        forall|k: int| 0 <= k < i ==> !white_space(s[k]),
        i < s.len() ==> white_space(s[i]),
    ensures
        first_ws(s) == i,
{
    lemma_first_ws(s);
    let f = first_ws(s);
    if f < i {
        assert(white_space(s[f]));
        assert(!white_space(s[f]));
    } else if f > i {
        assert(white_space(s[i]));
        assert(!white_space(s[i]));
    }
}

/// The maximal non-whitespace runs of `s`, in order.
pub open spec fn ws_tokens(s: Seq<char>) -> Seq<Seq<char>>
    decreases s.len(),
    via ws_tokens_dec
{
    if s.len() == 0 {
        Seq::empty()
    } else if white_space(s[0]) {
        ws_tokens(s.drop_first())
    } else {
        seq![s.take(first_ws(s))] + ws_tokens(s.skip(first_ws(s)))
    }
}

#[via_fn]
proof fn ws_tokens_dec(s: Seq<char>) {
    if s.len() > 0 && !white_space(s[0]) {
        lemma_first_ws(s);
        lemma_first_ws(s.drop_first());
        assert(first_ws(s) >= 1);
    }
}

// ------------------------------------------------------------------
// Splitting on single space characters.
// ------------------------------------------------------------------

/// The index of the first `' '` of `s`, or `s.len()` if there is none.
pub open spec fn first_space(s: Seq<char>) -> int
    decreases s.len(),
{
    if s.len() == 0 {
        0
    } else if s[0] == ' ' {
        0
    } else {
        1 + first_space(s.drop_first())
    }
}

pub proof fn lemma_first_space(s: Seq<char>)
    ensures
        0 <= first_space(s) <= s.len(),
        forall|k: int| 0 <= k < first_space(s) ==> s[k] != ' ',
        first_space(s) < s.len() ==> s[first_space(s)] == ' ',
    decreases s.len(),
{
    if s.len() == 0 {
    } else if s[0] == ' ' {
    } else {
        lemma_first_space(s.drop_first());
        assert forall|k: int| 0 <= k < first_space(s) implies s[k] != ' ' by {
            if k > 0 {
                assert(s.drop_first()[k - 1] != ' ');
            }
        }
    }
}

/// `first_space` is pinned down by its characterization.
pub proof fn lemma_first_space_unique(s: Seq<char>, i: int)
    requires
        0 <= i <= s.len(),
        forall|k: int| 0 <= k < i ==> s[k] != ' ',
        i < s.len() ==> s[i] == ' ',
    ensures
        first_space(s) == i,
{
    lemma_first_space(s);
    let f = first_space(s);
    if f < i {
        assert(s[f] == ' ');
        assert(s[f] != ' ');
    } else if f > i {
        assert(s[i] == ' ');
        assert(s[i] != ' ');
    }
}

/// The fields of `s` split on every single `' '`; empty fields are kept, so
/// the result always has one more field than `s` has spaces.
pub open spec fn space_split(s: Seq<char>) -> Seq<Seq<char>>
    decreases s.len(),
    via space_split_dec
{
    if first_space(s) >= s.len() {
        seq![s]
    } else {
        seq![s.take(first_space(s))] + space_split(s.skip(first_space(s) + 1))
    }
}

#[via_fn]
proof fn space_split_dec(s: Seq<char>) {
    lemma_first_space(s);
}

/// Splitting on single spaces yields at least one field and at most one
/// more field than there are characters.
pub proof fn lemma_space_split_len(s: Seq<char>)
    ensures
        1 <= space_split(s).len() <= s.len() + 1,
    decreases s.len(),
{
    lemma_first_space(s);
    if first_space(s) < s.len() {
        lemma_space_split_len(s.skip(first_space(s) + 1));
    }
}

/// Splits a character vector on every single `' '`, keeping empty fields.
pub(crate) fn split_spaces(v: &Vec<char>) -> (r: Vec<Vec<char>>)
    ensures
        r@.len() == space_split(v@).len(),
        forall|i: int| 0 <= i < r@.len() ==> #[trigger] r@[i]@ == space_split(v@)[i],
{
    let ghost full = v@;
    let ghost toks = space_split(full);
    proof {
        lemma_space_split_len(full);
        assert(full.skip(0) =~= full);
        assert(toks.skip(0) =~= toks);
    }
    let n = v.len();
    let mut r: Vec<Vec<char>> = Vec::new();
    let mut pos: usize = 0;
    let ghost mut t_idx: int = 0;
    loop
        invariant_except_break
            pos <= n,
            n == full.len(),
            v@ == full,
            toks == space_split(full),
            0 <= t_idx <= toks.len() - 1,
            r@.len() == t_idx,
            forall|i: int| 0 <= i < t_idx ==> #[trigger] r@[i]@ == toks[i],
            space_split(full.skip(pos as int)) == toks.skip(t_idx),
        ensures
            r@.len() == toks.len(),
            forall|i: int| 0 <= i < toks.len() ==> #[trigger] r@[i]@ == toks[i],
        decreases n - pos,
    {
        let mut j = pos;
        while j < n
            invariant_except_break
                pos <= j <= n,
                n == full.len(),
                v@ == full,
                forall|k: int| pos <= k < j ==> full[k] != ' ',
            ensures
                pos <= j <= n,
                n == full.len(),
                v@ == full,
                forall|k: int| pos <= k < j ==> full[k] != ' ',
                j < n ==> full[j as int] == ' ',
            decreases n - j,
        {
            if v[j] == ' ' {
                break;
            }
            j = j + 1;
        }
        let mut tok: Vec<char> = Vec::new();
        let mut t = pos;
        while t < j
            invariant
                pos <= t <= j <= n,
                n == full.len(),
                v@ == full,
                tok@ == full.subrange(pos as int, t as int),
            decreases j - t,
        {
            let ch = v[t];
            tok.push(ch);
            proof {
                assert(full.subrange(pos as int, t as int).push(full[t as int])
                    =~= full.subrange(pos as int, t + 1 as int));
            }
            t = t + 1;
        }
        proof {
            let rem = full.skip(pos as int);
            assert forall|k: int| 0 <= k < j - pos implies rem[k] != ' ' by {
                assert(rem[k] == full[k + pos]);
            }
            if j < n {
                assert(rem[j - pos] == full[j as int]);
            }
            lemma_first_space_unique(rem, j - pos);
            assert(rem.take(j - pos) =~= full.subrange(pos as int, j as int));
            if j < n {
                assert(rem.skip(j - pos + 1) =~= full.skip(j + 1 as int));
                assert(space_split(rem)
                    == seq![tok@] + space_split(full.skip(j + 1 as int)));
                assert((seq![tok@] + space_split(full.skip(j + 1 as int))).drop_first()
                    =~= space_split(full.skip(j + 1 as int)));
                lemma_space_split_len(full.skip(j + 1 as int));
            } else {
                assert(rem =~= full.subrange(pos as int, n as int));
                assert(space_split(rem) == seq![rem]);
            }
            assert(toks[t_idx] == space_split(rem)[0]);
            assert(toks[t_idx] == tok@);
        }
        r.push(tok);
        proof {
            t_idx = t_idx + 1;
        }
        if j < n {
            pos = j + 1;
        } else {
            proof {
                assert(t_idx == toks.len());
            }
            break;
        }
    }
    r
}

} // verus!
