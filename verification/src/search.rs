//! Ranking of search items against a query.
//!
//! Every candidate that passes the filter gets a score (text match strength
//! plus lexical, intent, source, mode, recency and frequency bonuses). The
//! results are the best `limit` candidates in key order, with one final
//! top-hit correction that may swap the first two.
use vstd::prelude::*;

use crate::config::SearchMode;
use crate::model::{normalize, SearchItem};
use crate::query_dsl::{time_filter, TimeFilterWindow};
use crate::text;

verus! {

// ---------------------------------------------------------------------------
// Text match scores
// ---------------------------------------------------------------------------

/// How the query matched the title.
#[derive(Debug, Clone, Copy, PartialEq, Eq, Structural)]
pub enum TextMatchKind {
    Exact,
    Prefix,
    Substring,
    Fuzzy,
}

/// Rank of a match kind; lower is a stronger match.
pub open spec fn match_rank(k: TextMatchKind) -> int {
    match k {
        TextMatchKind::Exact => 0,
        TextMatchKind::Prefix => 1,
        TextMatchKind::Substring => 2,
        TextMatchKind::Fuzzy => 3,
    }
}

pub fn match_rank_of(k: TextMatchKind) -> (r: u8)
    ensures
        r == match_rank(k),
{
    match k {
        TextMatchKind::Exact => 0,
        TextMatchKind::Prefix => 1,
        TextMatchKind::Substring => 2,
        TextMatchKind::Fuzzy => 3,
    }
}

pub open spec fn abs(x: int) -> int {
    if x < 0 {
        -x
    } else {
        x
    }
}

/// Byte offset of character index `i` in `s`.
pub open spec fn byte_pos(s: Seq<char>, i: int) -> int {
    text::byte_len(s.take(i))
}

/// First index at or after `from` where `s` holds `c`, or -1.
pub open spec fn first_char_from(s: Seq<char>, c: char, from: int) -> int
    decreases s.len() - from,
{
    if from < 0 || from >= s.len() {
        -1
    } else if s[from] == c {
        from
    } else {
        first_char_from(s, c, from + 1)
    }
}

/// Greedy positions (character indices) at which the characters of `n`
/// occur in order in `h`, searching from `from`; `None` if they do not.
pub open spec fn subsequence_positions(h: Seq<char>, n: Seq<char>, from: int) -> Option<Seq<int>>
    decreases n.len(),
{
    if n.len() == 0 {
        Some(Seq::empty())
    } else {
        let p = first_char_from(h, n[0], from);
        if p < 0 {
            None
        } else {
            match subsequence_positions(h, n.drop_first(), p + 1) {
                Some(rest) => Some(seq![p] + rest),
                None => None,
            }
        }
    }
}

/// Sum, over consecutive matched positions, of the bytes skipped between them.
pub open spec fn gap_bytes(h: Seq<char>, ps: Seq<int>) -> int
    decreases ps.len(),
{
    if ps.len() < 2 {
        0
    } else {
        gap_bytes(h, ps.drop_last()) + byte_pos(h, ps.last()) - byte_pos(h, ps[ps.len() - 2]) - 1
    }
}

/// `(start penalty, gap penalty)` of a fuzzy match of `n` in `h`.
pub open spec fn subsequence_penalties(h: Seq<char>, n: Seq<char>) -> Option<(int, int)> {
    match subsequence_positions(h, n, 0) {
        Some(ps) => Some(
            (if ps.len() > 0 {
                byte_pos(h, ps[0])
            } else {
                0
            }, gap_bytes(h, ps)),
        ),
        None => None,
    }
}

/// Score of matching query `q` against normalized title `t`.
pub open spec fn score_text(t: Seq<char>, q: Seq<char>) -> Option<(int, TextMatchKind)> {
    if t.len() == 0 || q.len() == 0 {
        None
    } else {
        let length_penalty = abs(text::byte_len(t) - text::byte_len(q));
        let compact_bonus = text::byte_len(q) * 45;
        if t == q {
            Some((30_000 + compact_bonus - length_penalty, TextMatchKind::Exact))
        } else if text::starts_with(t, q) {
            Some((24_000 + compact_bonus - length_penalty, TextMatchKind::Prefix))
        } else if text::contains(t, q) {
            let pos = choose|i: int| text::first_occurrence(t, q, i);
            Some(
                (18_000 + compact_bonus - byte_pos(t, pos) * 3 - length_penalty,
                TextMatchKind::Substring),
            )
        } else {
            match subsequence_penalties(t, q) {
                Some((start, gap)) => Some(
                    (12_000 + compact_bonus - gap * 8 - start - length_penalty, TextMatchKind::Fuzzy),
                ),
                None => None,
            }
        }
    }
}

proof fn lemma_first_occurrence_unique(t: Seq<char>, q: Seq<char>, i: int, j: int)
    requires
        text::first_occurrence(t, q, i),
        text::first_occurrence(t, q, j),
    ensures
        i == j,
{
    if i < j {
        assert(!text::occurs_at(t, q, i));
    } else if j < i {
        assert(!text::occurs_at(t, q, j));
    }
}

/// Byte offset of character index `i` in `v`.
pub fn byte_pos_of(v: &Vec<char>, i: usize) -> (n: u128)
    requires
        i <= v.len(),
    ensures
        n == byte_pos(v@, i as int),
        n <= 4 * i,
{
    let mut n: u128 = 0;
    let mut k: usize = 0;
    while k < i
        invariant
            k <= i <= v.len(),
            n == text::byte_len(v@.take(k as int)),
            n <= 4 * k,
        decreases i - k,
    {
        proof {
            text::lemma_byte_len_take_step(v@, k as int);
        }
        let w = text::utf8_width(v[k]);
        n = n + w as u128;
        k = k + 1;
    }
    n
}

/// Index of `c` in `v` at or after `from`, if any, with the byte offset of that index.
fn first_char_from_exec(v: &Vec<char>, c: char, from: usize, from_byte: u128) -> (r: Option<(usize, u128)>)
    requires
        from <= v.len(),
        from_byte == byte_pos(v@, from as int),
        from_byte <= 4 * from,
    ensures
        match r {
            Some((p, b)) => p == first_char_from(v@, c, from as int) && from <= p < v.len() && b == byte_pos(
                v@,
                p as int,
            ) && b <= 4 * p,
            None => first_char_from(v@, c, from as int) == -1,
        },
{
    let mut k = from;
    let mut b = from_byte;
    while k < v.len()
        invariant
            from <= k <= v.len(),
            b == byte_pos(v@, k as int),
            b <= 4 * k,
            first_char_from(v@, c, from as int) == first_char_from(v@, c, k as int),
        decreases v.len() - k,
    {
        if v[k] == c {
            return Some((k, b));
        }
        proof {
            text::lemma_byte_len_take_step(v@, k as int);
        }
        let w = text::utf8_width(v[k]);
        b = b + w as u128;
        k = k + 1;
    }
    None
}

proof fn lemma_gap_bytes_push(h: Seq<char>, ps: Seq<int>, p: int)
    requires
        ps.len() >= 1,
    ensures
        gap_bytes(h, ps.push(p)) == gap_bytes(h, ps) + byte_pos(h, p) - byte_pos(h, ps.last()) - 1,
{
    assert(ps.push(p).drop_last() =~= ps);
}

/// Penalties of a fuzzy match of `n` in `h`, computed in one greedy pass.
pub fn subsequence_penalties_exec(h: &Vec<char>, n: &Vec<char>) -> (r: Option<(i128, i128)>)
    ensures
        match r {
            Some((s, g)) => subsequence_penalties(h@, n@) == Some((s as int, g as int)),
            None => subsequence_penalties(h@, n@) is None,
        },
{
    let mut next: usize = 0;
    let mut next_byte: u128 = 0;
    let mut first_byte: u128 = 0;
    let mut prev_byte: u128 = 0;
    let mut gap: i128 = 0;
    let mut k: usize = 0;
    let ghost mut found: Seq<int> = Seq::empty();
    proof {
        assert(n@.skip(0) =~= n@);
        assert(h@.take(0) =~= Seq::<char>::empty());
    }
    while k < n.len()
        invariant
            k <= n.len(),
            next <= h.len(),
            next_byte == byte_pos(h@, next as int),
            next_byte <= 4 * next,
            found.len() == k,
            k > 0 ==> next == found.last() + 1,
            k > 0 ==> first_byte == byte_pos(h@, found[0]),
            k > 0 ==> prev_byte == byte_pos(h@, found.last()),
            k > 0 ==> first_byte <= prev_byte < next_byte,
            gap == gap_bytes(h@, found),
            0 <= gap <= prev_byte,
            subsequence_positions(h@, n@, 0) == match subsequence_positions(h@, n@.skip(k as int), next as int) {
                Some(rest) => Some(found + rest),
                None => None::<Seq<int>>,
            },
        decreases n.len() - k,
    {
        proof {
            assert(n@.skip(k as int).drop_first() =~= n@.skip(k + 1));
            assert(n@.skip(k as int)[0] == n@[k as int]);
        }
        match first_char_from_exec(h, n[k], next, next_byte) {
            None => {
                return None;
            },
            Some((p, b)) => {
                proof {
                    lemma_byte_len_facts(h@, p as int);
                    if k > 0 {
                        lemma_gap_bytes_push(h@, found, p as int);
                        text::lemma_byte_len_take_monotone(h@, next as int, p as int);
                    }
                    assert(found + (seq![p as int] + Seq::<int>::empty()) =~= found.push(p as int));
                    match subsequence_positions(h@, n@.skip(k + 1), p + 1) {
                        Some(rest) => {
                            assert(found + (seq![p as int] + rest) =~= found.push(p as int) + rest);
                        },
                        None => {},
                    }
                }
                if k == 0 {
                    first_byte = b;
                } else {
                    gap = gap + (b as i128 - prev_byte as i128 - 1);
                }
                prev_byte = b;
                proof {
                    text::lemma_byte_len_take_step(h@, p as int);
                    found = found.push(p as int);
                }
                let w = text::utf8_width(h[p]);
                next = p + 1;
                next_byte = b + w as u128;
                k = k + 1;
            },
        }
    }
    proof {
        assert(n@.skip(n.len() as int) =~= Seq::<char>::empty());
        assert(found + Seq::<int>::empty() =~= found);
    }
    if k == 0 {
        Some((0, gap))
    } else {
        Some((first_byte as i128, gap))
    }
}


/// A bound on text scores, far beyond any that a text in memory can reach.
pub open spec fn score_bound() -> int {
    0x1_0000_0000_0000_0000_0000
}

/// `score_text` on character vectors.
pub fn score_text_exec(t: &Vec<char>, q: &Vec<char>) -> (r: Option<(i128, TextMatchKind)>)
    ensures
        match r {
            Some((sc, k)) => score_text(t@, q@) == Some((sc as int, k)) && -score_bound() <= sc
                <= score_bound(),
            None => score_text(t@, q@) is None,
        },
{
    if t.len() == 0 || q.len() == 0 {
        return None;
    }
    let tb = text::byte_len_of(t);
    let qb = text::byte_len_of(q);
    proof {
        text::lemma_byte_len_bounds(t@);
        text::lemma_byte_len_bounds(q@);
    }
    let length_penalty: i128 = if tb >= qb {
        (tb - qb) as i128
    } else {
        (qb - tb) as i128
    };
    let compact_bonus: i128 = (qb as i128) * 45;
    if text::vec_eq(t, q) {
        return Some((30_000 + compact_bonus - length_penalty, TextMatchKind::Exact));
    }
    if text::vec_starts_with(t, q) {
        return Some((24_000 + compact_bonus - length_penalty, TextMatchKind::Prefix));
    }
    match text::find(t, q) {
        Some(pos) => {
            let pb = byte_pos_of(t, pos);
            proof {
                let c = choose|i: int| text::first_occurrence(t@, q@, i);
                lemma_first_occurrence_unique(t@, q@, c, pos as int);
            }
            return Some(
                (18_000 + compact_bonus - (pb as i128) * 3 - length_penalty, TextMatchKind::Substring),
            );
        },
        None => {},
    }
    match subsequence_penalties_exec(t, q) {
        Some((start, gap)) => {
            proof {
                lemma_penalties_bounded(t@, q@);
            }
            Some(
                (12_000 + compact_bonus - gap * 8 - start - length_penalty, TextMatchKind::Fuzzy),
            )
        },
        None => None,
    }
}

proof fn lemma_penalties_bounded(h: Seq<char>, n: Seq<char>)
    ensures
        match subsequence_penalties(h, n) {
            Some((s, g)) => 0 <= s <= 4 * h.len() && 0 <= g <= 4 * h.len(),
            None => true,
        },
{
    match subsequence_positions(h, n, 0) {
        Some(ps) => {
            lemma_positions_in_range(h, n, 0);
            if ps.len() > 0 {
                lemma_byte_len_facts(h, ps[0]);
            }
            lemma_gap_bytes_bounded(h, ps);
        },
        None => {},
    }
}

proof fn lemma_positions_in_range(h: Seq<char>, n: Seq<char>, from: int)
    requires
        from >= 0,
    ensures
        match subsequence_positions(h, n, from) {
            Some(ps) => (forall|i: int| 0 <= i < ps.len() ==> from <= #[trigger] ps[i] < h.len())
                && (forall|i: int, j: int| 0 <= i < j < ps.len() ==> #[trigger] ps[i] < #[trigger] ps[j]),
            None => true,
        },
    decreases n.len(),
{
    if n.len() > 0 {
        let p = first_char_from(h, n[0], from);
        lemma_first_char_from_range(h, n[0], from);
        if p >= 0 {
            lemma_positions_in_range(h, n.drop_first(), p + 1);
        }
    }
}

proof fn lemma_first_char_from_range(s: Seq<char>, c: char, from: int)
    ensures
        first_char_from(s, c, from) == -1 || (from <= first_char_from(s, c, from) < s.len()
            && s[first_char_from(s, c, from)] == c),
    decreases s.len() - from,
{
    if from >= 0 && from < s.len() && s[from] != c {
        lemma_first_char_from_range(s, c, from + 1);
    }
}

proof fn lemma_gap_bytes_bounded(h: Seq<char>, ps: Seq<int>)
    requires
        forall|i: int| 0 <= i < ps.len() ==> 0 <= #[trigger] ps[i] < h.len(),
        forall|i: int, j: int| 0 <= i < j < ps.len() ==> #[trigger] ps[i] < #[trigger] ps[j],
    ensures
        0 <= gap_bytes(h, ps),
        ps.len() >= 1 ==> gap_bytes(h, ps) <= byte_pos(h, ps.last()),
        ps.len() >= 1 ==> byte_pos(h, ps.last()) <= 4 * h.len(),
    decreases ps.len(),
{
    if ps.len() >= 1 {
        lemma_byte_len_facts(h, ps.last());
    }
    if ps.len() >= 2 {
        let init = ps.drop_last();
        lemma_gap_bytes_bounded(h, init);
        let a = ps[ps.len() - 2];
        let b = ps.last();
        assert(a < b);
        text::lemma_byte_len_take_monotone(h, a + 1, b);
        text::lemma_byte_len_take_step(h, a);
        text::lemma_byte_len_bounds(seq![h[a]]);
        assert(init.last() == a);
    }
}

// ---------------------------------------------------------------------------
// Word boundaries and acronyms
// ---------------------------------------------------------------------------

/// Tokenizer state: finished words, the word being built, and whether the
/// previous character was lowercase.
pub struct WordState {
    pub words: Seq<Seq<char>>,
    pub current: Seq<char>,
    pub previous_was_lower: bool,
}

pub open spec fn word_step(st: WordState, ch: char) -> WordState {
    if !text::unicode_alphanumeric(ch) {
        WordState {
            words: if st.current.len() > 0 {
                st.words.push(st.current)
            } else {
                st.words
            },
            current: Seq::empty(),
            previous_was_lower: false,
        }
    } else {
        let split = st.current.len() > 0 && text::unicode_uppercase(ch) && st.previous_was_lower;
        let words = if split {
            st.words.push(st.current)
        } else {
            st.words
        };
        let base = if split {
            Seq::empty()
        } else {
            st.current
        };
        WordState {
            words,
            current: base + text::unicode_to_lower(ch),
            previous_was_lower: text::unicode_lowercase(ch),
        }
    }
}

pub open spec fn word_state(s: Seq<char>) -> WordState
    decreases s.len(),
{
    if s.len() == 0 {
        WordState { words: Seq::empty(), current: Seq::empty(), previous_was_lower: false }
    } else {
        word_step(word_state(s.drop_last()), s.last())
    }
}

/// The lowercased words of a title: runs of alphanumerics, split also where
/// an uppercase letter follows a lowercase one ("camelCase").
pub open spec fn word_tokens(s: Seq<char>) -> Seq<Seq<char>> {
    let st = word_state(s);
    if st.current.len() > 0 {
        st.words.push(st.current)
    } else {
        st.words
    }
}

/// First characters of the words, in order.
pub open spec fn acronym(words: Seq<Seq<char>>) -> Seq<char>
    decreases words.len(),
{
    if words.len() == 0 {
        Seq::empty()
    } else {
        acronym(words.drop_last()) + (if words.last().len() > 0 {
            seq![words.last()[0]]
        } else {
            Seq::empty()
        })
    }
}

pub fn word_tokens_exec(title: &Vec<char>) -> (words: Vec<Vec<char>>)
    ensures
        views(words@) == word_tokens(title@),
{
    let mut words: Vec<Vec<char>> = Vec::new();
    let mut current: Vec<char> = Vec::new();
    let mut previous_was_lower = false;
    let mut i: usize = 0;
    proof {
        assert(title@.take(0) =~= Seq::<char>::empty());
        assert(views(words@) =~= Seq::<Seq<char>>::empty());
    }
    while i < title.len()
        invariant
            i <= title.len(),
            word_state(title@.take(i as int)) == (WordState {
                words: views(words@),
                current: current@,
                previous_was_lower,
            }),
        decreases title.len() - i,
    {
        let ch = title[i];
        let ghost st = word_state(title@.take(i as int));
        proof {
            assert(title@.take((i + 1) as int).drop_last() =~= title@.take(i as int));
            assert(title@.take((i + 1) as int).last() == ch);
        }
        if !text::is_alphanumeric(ch) {
            if current.len() > 0 {
                let w = current;
                let ghost old_words = words@;
                words.push(w);
                proof {
                    assert(views(words@) =~= views(old_words).push(w@));
                }
            }
            current = Vec::new();
            previous_was_lower = false;
        } else {
            let is_upper = text::is_uppercase(ch);
            if current.len() > 0 && is_upper && previous_was_lower {
                let w = current;
                let ghost old_words = words@;
                words.push(w);
                proof {
                    assert(views(words@) =~= views(old_words).push(w@));
                }
                current = Vec::new();
            }
            let lower = text::to_lowercase(ch);
            let ghost base = current@;
            let mut k: usize = 0;
            while k < lower.len()
                invariant
                    k <= lower.len(),
                    current@ == base + lower@.take(k as int),
                decreases lower.len() - k,
            {
                current.push(lower[k]);
                proof {
                    assert(lower@.take((k + 1) as int) =~= lower@.take(k as int).push(lower@[k as int]));
                }
                k = k + 1;
            }
            proof {
                assert(lower@.take(lower.len() as int) =~= lower@);
            }
            previous_was_lower = text::is_lowercase(ch);
        }
        i = i + 1;
    }
    proof {
        assert(title@.take(title.len() as int) =~= title@);
    }
    if current.len() > 0 {
        let ghost old_words = words@;
        let ghost cur = current@;
        words.push(current);
        proof {
            assert(views(words@) =~= views(old_words).push(cur));
        }
    }
    words
}

/// Bonus for a query that starts a word of the title or matches its acronym.
pub open spec fn lexical_bonus(title: Seq<char>, q: Seq<char>) -> int {
    let words = word_tokens(title);
    if text::trim(title).len() == 0 || q.len() == 0 || words.len() == 0 {
        0
    } else {
        let word_bonus: int = if text::starts_with(words[0], q) {
            210
        } else if exists|j: int| 1 <= j < words.len() && text::starts_with(#[trigger] words[j], q) {
            140
        } else {
            0
        };
        let a = acronym(words);
        let acronym_bonus: int = if text::byte_len(q) >= 2 {
            if a == q {
                290
            } else if text::starts_with(a, q) {
                190
            } else {
                0
            }
        } else {
            0
        };
        clamp(word_bonus + acronym_bonus, 0, 520)
    }
}

pub open spec fn clamp(x: int, lo: int, hi: int) -> int {
    if x < lo {
        lo
    } else if x > hi {
        hi
    } else {
        x
    }
}

/// The texts held by a vector of character vectors.
pub open spec fn views(v: Seq<Vec<char>>) -> Seq<Seq<char>> {
    v.map_values(|w: Vec<char>| w@)
}

pub fn acronym_exec(words: &Vec<Vec<char>>) -> (a: Vec<char>)
    ensures
        a@ == acronym(views(words@)),
{
    let mut a: Vec<char> = Vec::new();
    let mut i: usize = 0;
    while i < words.len()
        invariant
            i <= words.len(),
            a@ == acronym(views(words@).take(i as int)),
        decreases words.len() - i,
    {
        proof {
            assert(views(words@).take((i + 1) as int).drop_last() =~= views(words@).take(i as int));
            assert(views(words@).take((i + 1) as int).last() == words@[i as int]@);
        }
        if words[i].len() > 0 {
            a.push(words[i][0]);
        } else {
            proof {
                assert(a@ + Seq::<char>::empty() =~= a@);
            }
        }
        i = i + 1;
    }
    proof {
        assert(views(words@).take(words.len() as int) =~= views(words@));
    }
    a
}

/// `lexical_bonus` of a raw title against a normalized query.
pub fn lexical_bonus_exec(title: &Vec<char>, q: &Vec<char>) -> (b: i128)
    ensures
        b == lexical_bonus(title@, q@),
{
    let (ti, tj) = text::trim_bounds(title, 0, title.len());
    proof {
        assert(title@.subrange(0, title.len() as int) =~= title@);
    }
    if ti == tj || q.len() == 0 {
        return 0;
    }
    let words = word_tokens_exec(title);
    if words.len() == 0 {
        return 0;
    }
    let mut bonus: i128 = 0;
    proof {
        assert(views(words@)[0] == words@[0]@);
    }
    if text::vec_starts_with(&words[0], q) {
        bonus = 210;
    } else {
        let mut j: usize = 1;
        let mut found = false;
        while j < words.len() && !found
            invariant
                1 <= j <= words.len(),
                found ==> 1 <= j < words.len() && text::starts_with(views(words@)[j as int], q@),
                !found ==> forall|m: int| 1 <= m < j ==> !text::starts_with(#[trigger] views(words@)[m], q@),
            decreases words.len() - j, (if found { 0int } else { 1int }),
        {
            proof {
                assert(views(words@)[j as int] == words@[j as int]@);
            }
            if text::vec_starts_with(&words[j], q) {
                found = true;
            } else {
                j = j + 1;
            }
        }
        if found {
            bonus = 140;
        }
    }
    let a = acronym_exec(&words);
    let qb = text::byte_len_of(q);
    if qb >= 2 {
        if text::vec_eq(&a, q) {
            bonus = bonus + 290;
        } else if text::vec_starts_with(&a, q) {
            bonus = bonus + 190;
        }
    }
    if bonus > 520 {
        520
    } else {
        bonus
    }
}


// ---------------------------------------------------------------------------
// Kinds, sources and bonuses
// ---------------------------------------------------------------------------

/// Whether `s` is a drive-rooted (`C:\...`, `C:/...`) or `/`-rooted local path
/// after trimming. Looking at bytes 1 and 2 of the UTF-8 text, as the executable test does,
/// amounts to the first character being ASCII and the next two being `:` and a
/// separator, since a non-ASCII character is encoded with bytes >= 0x80.
pub open spec fn is_local_path(path: Seq<char>) -> bool {
    let t = text::trim(path);
    if t.len() == 0 || text::contains(t, "://"@) || text::starts_with(t, "\\\\"@) {
        false
    } else if t.len() >= 3 && (t[0] as u32) < 0x80 && t[1] == ':' && (t[2] == '\\' || t[2] == '/') {
        true
    } else {
        t[0] == '/'
    }
}

pub open spec fn kind_is(kind: Seq<char>, name: Seq<char>) -> bool {
    text::eq_ic(kind, name)
}

pub open spec fn is_file_or_folder(kind: Seq<char>) -> bool {
    kind_is(kind, "file"@) || kind_is(kind, "folder"@)
}

/// Source tier of an item: apps, then actions, then local files, then
/// clipboard entries, then everything else.
pub open spec fn source_rank(kind: Seq<char>, path: Seq<char>) -> int {
    if kind_is(kind, "app"@) {
        0
    } else if kind_is(kind, "action"@) {
        1
    } else if is_file_or_folder(kind) && is_local_path(path) {
        2
    } else if kind_is(kind, "clipboard"@) {
        3
    } else {
        4
    }
}

pub open spec fn source_bonus(rank: int) -> int {
    if rank == 0 {
        700
    } else if rank == 1 {
        350
    } else if rank == 2 {
        420
    } else if rank == 3 {
        300
    } else {
        0
    }
}

pub open spec fn matches_mode(kind: Seq<char>, mode: SearchMode) -> bool {
    match mode {
        SearchMode::All => true,
        SearchMode::Apps => kind_is(kind, "app"@),
        SearchMode::Files => is_file_or_folder(kind),
        SearchMode::Actions => kind_is(kind, "action"@),
        SearchMode::Clipboard => kind_is(kind, "clipboard"@),
    }
}

/// +550 for an item of the mode's own kind, -2500 otherwise, 0 in `All`.
pub open spec fn mode_bonus(kind: Seq<char>, mode: SearchMode) -> int {
    match mode {
        SearchMode::All => 0,
        _ => if matches_mode(kind, mode) {
            550
        } else {
            -2_500
        },
    }
}

/// Bonus for recent use, by age in seconds.
pub open spec fn recency_bonus(last: int, now: int) -> int {
    if last <= 0 || now <= 0 {
        0
    } else {
        let age = if last >= now {
            0
        } else {
            now - last
        };
        if age <= 3_600 {
            260
        } else if age <= 86_400 {
            220
        } else if age <= 604_800 {
            170
        } else if age <= 2_592_000 {
            110
        } else if age <= 7_776_000 {
            60
        } else if age <= 31_536_000 {
            25
        } else {
            0
        }
    }
}

/// 18 per use, capped at 220.
pub open spec fn frequency_bonus(use_count: int) -> int {
    if use_count * 18 > 220 {
        220
    } else {
        use_count * 18
    }
}

/// Bias of an app-looking query towards apps and away from files.
pub open spec fn app_intent_bonus(kind: Seq<char>, app_intent: bool, query_bytes: int) -> int {
    if !app_intent || query_bytes == 0 {
        0
    } else if kind_is(kind, "app"@) {
        if query_bytes <= 2 {
            320
        } else if query_bytes <= 4 {
            160
        } else {
            0
        }
    } else if is_file_or_folder(kind) && query_bytes <= 2 {
        -120
    } else {
        0
    }
}

/// A plain query (no path characters, not a command) that likely names an app.
pub open spec fn looks_like_app_intent_query(raw: Seq<char>, nq: Seq<char>, mode: SearchMode) -> bool {
    if nq.len() == 0 || mode == SearchMode::Files {
        false
    } else {
        let t = text::trim(raw);
        if t.len() == 0 || t[0] == '>' {
            false
        } else {
            !(text::has_char(t, '\\') || text::has_char(t, '/') || text::has_char(t, ':')
                || text::has_char(t, '.') || text::has_char(t, '*') || text::has_char(t, '?'))
        }
    }
}

/// Kind tests of one item, computed once.
pub struct KindFlags {
    pub app: bool,
    pub file: bool,
    pub folder: bool,
    pub action: bool,
    pub clipboard: bool,
}

pub open spec fn kind_flags_of(kind: Seq<char>, f: KindFlags) -> bool {
    &&& f.app == kind_is(kind, "app"@)
    &&& f.file == kind_is(kind, "file"@)
    &&& f.folder == kind_is(kind, "folder"@)
    &&& f.action == kind_is(kind, "action"@)
    &&& f.clipboard == kind_is(kind, "clipboard"@)
}

pub fn kind_equals(kind: &Vec<char>, name: &str) -> (b: bool)
    ensures
        b == kind_is(kind@, name@),
{
    let n = text::chars_of(name);
    text::vec_eq_ic(kind, &n)
}

pub fn kind_flags(kind: &Vec<char>) -> (f: KindFlags)
    ensures
        kind_flags_of(kind@, f),
{
    KindFlags {
        app: kind_equals(kind, "app"),
        file: kind_equals(kind, "file"),
        folder: kind_equals(kind, "folder"),
        action: kind_equals(kind, "action"),
        clipboard: kind_equals(kind, "clipboard"),
    }
}

pub fn is_local_path_exec(path: &Vec<char>) -> (b: bool)
    ensures
        b == is_local_path(path@),
{
    let (i, j) = text::trim_bounds(path, 0, path.len());
    proof {
        assert(path@.subrange(0, path.len() as int) =~= path@);
    }
    let t = text::slice_vec(path, i, j);
    if t.len() == 0 {
        return false;
    }
    let sep = text::chars_of("://");
    if text::vec_contains(&t, &sep) {
        return false;
    }
    let unc = text::chars_of("\\\\");
    if text::vec_starts_with(&t, &unc) {
        return false;
    }
    if t.len() >= 3 && (t[0] as u32) < 0x80 && t[1] == ':' && (t[2] == '\\' || t[2] == '/') {
        return true;
    }
    t[0] == '/'
}

pub fn source_rank_exec(flags: &KindFlags, path: &Vec<char>) -> (r: u8)
    ensures
        forall|kind: Seq<char>| kind_flags_of(kind, *flags) ==> r == source_rank(kind, path@),
{
    if flags.app {
        0
    } else if flags.action {
        1
    } else if (flags.file || flags.folder) && is_local_path_exec(path) {
        2
    } else if flags.clipboard {
        3
    } else {
        4
    }
}

pub fn source_bonus_exec(rank: u8) -> (b: i128)
    ensures
        b == source_bonus(rank as int),
{
    if rank == 0 {
        700
    } else if rank == 1 {
        350
    } else if rank == 2 {
        420
    } else if rank == 3 {
        300
    } else {
        0
    }
}

pub fn matches_mode_exec(flags: &KindFlags, mode: SearchMode) -> (b: bool)
    ensures
        forall|kind: Seq<char>| kind_flags_of(kind, *flags) ==> b == matches_mode(kind, mode),
{
    match mode {
        SearchMode::All => true,
        SearchMode::Apps => flags.app,
        SearchMode::Files => flags.file || flags.folder,
        SearchMode::Actions => flags.action,
        SearchMode::Clipboard => flags.clipboard,
    }
}

pub fn mode_bonus_exec(flags: &KindFlags, mode: SearchMode) -> (b: i128)
    ensures
        forall|kind: Seq<char>| kind_flags_of(kind, *flags) ==> b == mode_bonus(kind, mode),
{
    match mode {
        SearchMode::All => 0,
        _ => if matches_mode_exec(flags, mode) {
            550
        } else {
            -2_500
        },
    }
}

pub fn recency_bonus_exec(last: i64, now: i64) -> (b: i128)
    ensures
        b == recency_bonus(last as int, now as int),
{
    if last <= 0 || now <= 0 {
        return 0;
    }
    let age: i64 = if last >= now {
        0
    } else {
        now - last
    };
    if age <= 3_600 {
        260
    } else if age <= 86_400 {
        220
    } else if age <= 604_800 {
        170
    } else if age <= 2_592_000 {
        110
    } else if age <= 7_776_000 {
        60
    } else if age <= 31_536_000 {
        25
    } else {
        0
    }
}

pub fn frequency_bonus_exec(use_count: u32) -> (b: i128)
    ensures
        b == frequency_bonus(use_count as int),
{
    let raw = (use_count as i128) * 18;
    if raw > 220 {
        220
    } else {
        raw
    }
}

pub fn app_intent_bonus_exec(flags: &KindFlags, app_intent: bool, query_bytes: u128) -> (b: i128)
    ensures
        forall|kind: Seq<char>| kind_flags_of(kind, *flags) ==> b == app_intent_bonus(kind, app_intent, query_bytes as int),
{
    if !app_intent || query_bytes == 0 {
        0
    } else if flags.app {
        if query_bytes <= 2 {
            320
        } else if query_bytes <= 4 {
            160
        } else {
            0
        }
    } else if (flags.file || flags.folder) && query_bytes <= 2 {
        -120
    } else {
        0
    }
}

pub fn looks_like_app_intent_query_exec(raw: &Vec<char>, nq: &Vec<char>, mode: SearchMode) -> (b: bool)
    ensures
        b == looks_like_app_intent_query(raw@, nq@, mode),
{
    if nq.len() == 0 || mode == SearchMode::Files {
        return false;
    }
    let (i, j) = text::trim_bounds(raw, 0, raw.len());
    proof {
        assert(raw@.subrange(0, raw.len() as int) =~= raw@);
    }
    let t = text::slice_vec(raw, i, j);
    if t.len() == 0 || t[0] == '>' {
        return false;
    }
    !(text::vec_has_char(&t, '\\') || text::vec_has_char(&t, '/') || text::vec_has_char(&t, ':')
        || text::vec_has_char(&t, '.') || text::vec_has_char(&t, '*') || text::vec_has_char(&t, '?'))
}


// ---------------------------------------------------------------------------
// Filters
// ---------------------------------------------------------------------------

/// Restrictions on which items a search may return.
#[derive(Debug, Clone)]
pub struct SearchFilter {
    pub mode: SearchMode,
    pub kind_filter: Option<String>,
    pub extension_filter: Option<String>,
    pub include_files: bool,
    pub include_folders: bool,
    pub include_groups: Vec<Vec<String>>,
    pub exclude_terms: Vec<String>,
    pub modified_within: Option<TimeFilterWindow>,
    pub created_within: Option<TimeFilterWindow>,
}

/// The filter that restricts nothing.
pub open spec fn is_default_filter(f: SearchFilter) -> bool {
    &&& f.mode == SearchMode::All
    &&& f.kind_filter is None
    &&& f.extension_filter is None
    &&& f.include_files
    &&& f.include_folders
    &&& f.include_groups@.len() == 0
    &&& f.exclude_terms@.len() == 0
    &&& f.modified_within is None
    &&& f.created_within is None
}

impl Default for SearchFilter {
    fn default() -> (f: Self)
        ensures
            is_default_filter(f),
    {
        SearchFilter {
            mode: SearchMode::All,
            kind_filter: None,
            extension_filter: None,
            include_files: true,
            include_folders: true,
            include_groups: Vec::new(),
            exclude_terms: Vec::new(),
            modified_within: None,
            created_within: None,
        }
    }
}

pub fn is_default_filter_exec(f: &SearchFilter) -> (b: bool)
    ensures
        b == is_default_filter(*f),
{
    f.mode == SearchMode::All && f.kind_filter.is_none() && f.extension_filter.is_none()
        && f.include_files && f.include_folders && f.include_groups.len() == 0
        && f.exclude_terms.len() == 0 && f.modified_within.is_none() && f.created_within.is_none()
}

/// Files and folders are hidden when the filter turns them off.
pub open spec fn matches_visibility(kind: Seq<char>, f: SearchFilter) -> bool {
    !(kind_is(kind, "file"@) && !f.include_files) && !(kind_is(kind, "folder"@)
        && !f.include_folders)
}

pub open spec fn matches_kind_filter(kind: Seq<char>, kind_filter: Seq<char>) -> bool {
    let n = text::ascii_lower(text::trim(kind_filter));
    if n.len() == 0 {
        true
    } else if n == "app"@ || n == "apps"@ {
        kind_is(kind, "app"@)
    } else if n == "file"@ || n == "files"@ {
        kind_is(kind, "file"@)
    } else if n == "folder"@ || n == "folders"@ {
        kind_is(kind, "folder"@)
    } else if n == "action"@ || n == "actions"@ {
        kind_is(kind, "action"@)
    } else if n == "clipboard"@ {
        kind_is(kind, "clipboard"@)
    } else {
        kind_is(kind, n)
    }
}

/// What `Path::extension` returns for `path` (the part of the final path
/// component after its last dot, under the target's path syntax).
pub uninterp spec fn path_extension(path: Seq<char>) -> Option<Seq<char>>;

/// Calls `std::path::Path::extension` on `path`; the answer is a fixed function
/// of the text under the target's path syntax, and is named.
#[verifier::external_body]
fn path_extension_of(path: &str) -> (r: Option<String>)
    ensures
        match r {
            Some(e) => path_extension(path@) == Some(e@),
            None => path_extension(path@) is None,
        },
{
    std::path::Path::new(path).extension().and_then(|value| value.to_str()).map(|value| value.to_string())
}

pub open spec fn normalized_extension(e: Seq<char>) -> Seq<char> {
    text::ascii_lower(text::strip_leading(e, '.'))
}

pub open spec fn matches_extension_filter(kind: Seq<char>, path: Seq<char>, extension_filter: Seq<char>) -> bool {
    let n = normalized_extension(text::trim(extension_filter));
    if n.len() == 0 {
        true
    } else if kind_is(kind, "folder"@) || kind_is(kind, "action"@) {
        false
    } else {
        let p = text::trim(path);
        if p.len() == 0 {
            false
        } else {
            match path_extension(p) {
                Some(e) => normalized_extension(e).len() > 0 && normalized_extension(e) == n,
                None => false,
            }
        }
    }
}

/// A non-empty term that occurs in the haystack.
pub open spec fn term_hit(hay: Seq<char>, term: Seq<char>) -> bool {
    term.len() > 0 && text::contains(hay, term)
}

/// Every term of an include group is empty or occurs in the haystack.
pub open spec fn group_satisfied(hay: Seq<char>, group: Seq<String>) -> bool {
    forall|t: int| 0 <= t < group.len() ==> #[trigger] group[t]@.len() == 0 || text::contains(hay, group[t]@)
}

/// No exclude term occurs, and some include group (if there are any) is satisfied.
pub open spec fn matches_term_filters(hay: Seq<char>, f: SearchFilter) -> bool {
    &&& !(exists|t: int| 0 <= t < f.exclude_terms@.len() && #[trigger] term_hit(hay, f.exclude_terms@[t]@))
    &&& (f.include_groups@.len() == 0 || exists|g: int|
        0 <= g < f.include_groups@.len() && #[trigger] group_satisfied(hay, f.include_groups@[g]@))
}

/// Modification and creation times of an item's file, in seconds since the
/// epoch, as far as they could be read.
#[derive(Debug, Clone, Copy)]
pub struct FileTimes {
    pub modified_epoch_secs: Option<i64>,
    pub created_epoch_secs: Option<i64>,
}

pub open spec fn within_window(value: int, now: int, w: TimeFilterWindow) -> bool {
    if value <= 0 || now <= 0 || value > now {
        false
    } else {
        let age = now - value;
        match w {
            TimeFilterWindow::Today => age <= 86_400,
            TimeFilterWindow::Week => age <= 604_800,
            TimeFilterWindow::Month => age <= 2_678_400,
        }
    }
}

pub open spec fn time_ok(window: Option<TimeFilterWindow>, value: Option<i64>, now: int) -> bool {
    match window {
        None => true,
        Some(w) => match value {
            Some(v) => within_window(v as int, now, w),
            None => false,
        },
    }
}

/// Time windows hold of the item's file (an item whose file times could not be
/// read fails any window).
pub open spec fn matches_time_filters(f: SearchFilter, times: Option<FileTimes>, now: int) -> bool {
    if f.modified_within is None && f.created_within is None {
        true
    } else {
        match times {
            None => false,
            Some(t) => time_ok(f.modified_within, t.modified_epoch_secs, now) && time_ok(
                f.created_within,
                t.created_epoch_secs,
                now,
            ),
        }
    }
}

pub fn within_window_exec(value: i64, now: i64, w: TimeFilterWindow) -> (b: bool)
    ensures
        b == within_window(value as int, now as int, w),
{
    if value <= 0 || now <= 0 || value > now {
        return false;
    }
    let age = now - value;
    match w {
        TimeFilterWindow::Today => age <= 86_400,
        TimeFilterWindow::Week => age <= 604_800,
        TimeFilterWindow::Month => age <= 2_678_400,
    }
}

fn time_ok_exec(window: Option<TimeFilterWindow>, value: Option<i64>, now: i64) -> (b: bool)
    ensures
        b == time_ok(window, value, now as int),
{
    match window {
        None => true,
        Some(w) => match value {
            Some(v) => within_window_exec(v, now, w),
            None => false,
        },
    }
}

pub fn matches_time_filters_exec(f: &SearchFilter, times: Option<FileTimes>, now: i64) -> (b: bool)
    ensures
        b == matches_time_filters(*f, times, now as int),
{
    if f.modified_within.is_none() && f.created_within.is_none() {
        return true;
    }
    match times {
        None => false,
        Some(t) => time_ok_exec(f.modified_within, t.modified_epoch_secs, now) && time_ok_exec(
            f.created_within,
            t.created_epoch_secs,
            now,
        ),
    }
}

pub fn matches_kind_filter_exec(kind: &Vec<char>, flags: &KindFlags, kind_filter: &str) -> (b: bool)
    requires
        kind_flags_of(kind@, *flags),
    ensures
        b == matches_kind_filter(kind@, kind_filter@),
{
    let t = text::trimmed_chars(kind_filter);
    let n = text::lower_vec(&t);
    if n.len() == 0 {
        true
    } else if text::vec_eq_str(&n, "app") || text::vec_eq_str(&n, "apps") {
        flags.app
    } else if text::vec_eq_str(&n, "file") || text::vec_eq_str(&n, "files") {
        flags.file
    } else if text::vec_eq_str(&n, "folder") || text::vec_eq_str(&n, "folders") {
        flags.folder
    } else if text::vec_eq_str(&n, "action") || text::vec_eq_str(&n, "actions") {
        flags.action
    } else if text::vec_eq_str(&n, "clipboard") {
        flags.clipboard
    } else {
        text::vec_eq_ic(kind, &n)
    }
}

fn normalized_extension_exec(e: &Vec<char>) -> (out: Vec<char>)
    ensures
        out@ == normalized_extension(e@),
{
    let s = text::strip_leading_vec(e, '.');
    text::lower_vec(&s)
}

pub fn matches_extension_filter_exec(flags: &KindFlags, path: &str, extension_filter: &str) -> (b: bool)
    ensures
        forall|kind: Seq<char>| kind_flags_of(kind, *flags) ==> b == matches_extension_filter(kind, path@, extension_filter@),
{
    let ef = text::trimmed_chars(extension_filter);
    let n = normalized_extension_exec(&ef);
    if n.len() == 0 {
        return true;
    }
    if flags.folder || flags.action {
        return false;
    }
    let pv = text::trimmed_chars(path);
    if pv.len() == 0 {
        return false;
    }
    let p = text::string_of(&pv);
    match path_extension_of(p.as_str()) {
        Some(e) => {
            let ev = text::chars_of(e.as_str());
            let ne = normalized_extension_exec(&ev);
            ne.len() > 0 && text::vec_eq(&ne, &n)
        },
        None => false,
    }
}

pub fn matches_term_filters_exec(hay: &Vec<char>, f: &SearchFilter) -> (b: bool)
    ensures
        b == matches_term_filters(hay@, *f),
{
    let mut t: usize = 0;
    while t < f.exclude_terms.len()
        invariant
            t <= f.exclude_terms@.len(),
            forall|m: int| 0 <= m < t ==> !#[trigger] term_hit(hay@, f.exclude_terms@[m]@),
        decreases f.exclude_terms@.len() - t,
    {
        let term = text::chars_of(f.exclude_terms[t].as_str());
        if term.len() > 0 && text::vec_contains(hay, &term) {
            proof {
                assert(term_hit(hay@, f.exclude_terms@[t as int]@));
            }
            return false;
        }
        t = t + 1;
    }
    if f.include_groups.len() == 0 {
        return true;
    }
    let mut g: usize = 0;
    while g < f.include_groups.len()
        invariant
            g <= f.include_groups@.len(),
            forall|m: int| 0 <= m < f.exclude_terms@.len() ==> !#[trigger] term_hit(hay@, f.exclude_terms@[m]@),
            forall|m: int| 0 <= m < g ==> !#[trigger] group_satisfied(hay@, f.include_groups@[m]@),
        decreases f.include_groups@.len() - g,
    {
        let group = &f.include_groups[g];
        let mut k: usize = 0;
        let mut all = true;
        while k < group.len() && all
            invariant
                k <= group@.len(),
                group == f.include_groups@[g as int],
                all ==> forall|m: int| 0 <= m < k ==> #[trigger] group@[m]@.len() == 0 || text::contains(hay@, group@[m]@),
                !all ==> k < group@.len() && !(group@[k as int]@.len() == 0 || text::contains(hay@, group@[k as int]@)),
            decreases group@.len() - k, (if all { 1int } else { 0int }),
        {
            let term = text::chars_of(group[k].as_str());
            if term.len() == 0 || text::vec_contains(hay, &term) {
                k = k + 1;
            } else {
                all = false;
            }
        }
        if all {
            proof {
                assert(group_satisfied(hay@, f.include_groups@[g as int]@));
            }
            return true;
        }
        proof {
            assert(!group_satisfied(hay@, f.include_groups@[g as int]@));
        }
        g = g + 1;
    }
    false
}


// ---------------------------------------------------------------------------
// Item scores
// ---------------------------------------------------------------------------

/// Title match, falling back to the "title path" text at a 1500 penalty; an
/// empty query matches everything as a substring with score 0.
pub open spec fn text_score_for(item: SearchItem, nq: Seq<char>) -> Option<(int, TextMatchKind)> {
    if nq.len() == 0 {
        Some((0, TextMatchKind::Substring))
    } else {
        match score_text(item.norm_title(), nq) {
            Some(x) => Some(x),
            None => match score_text(item.norm_text(), nq) {
                Some((sc, k)) => Some((sc - 1_500, k)),
                None => None,
            },
        }
    }
}

/// Mode, kind, extension, term and time filters.
pub open spec fn passes_filter(item: SearchItem, f: SearchFilter, times: Option<FileTimes>, now: int) -> bool {
    &&& matches_mode(item.kind@, f.mode)
    &&& match f.kind_filter {
        Some(k) => matches_kind_filter(item.kind@, k@),
        None => true,
    }
    &&& match f.extension_filter {
        Some(e) => matches_extension_filter(item.kind@, item.path@, e@),
        None => true,
    }
    &&& matches_term_filters(item.norm_text(), f)
    &&& matches_time_filters(f, times, now)
}

/// The bonuses every scored item gets on top of its text score.
pub open spec fn common_bonuses(item: SearchItem, nq: Seq<char>, now: int, app_intent: bool) -> int {
    lexical_bonus(item.title@, nq) + app_intent_bonus(item.kind@, app_intent, text::byte_len(nq))
        + source_bonus(source_rank(item.kind@, item.path@)) + recency_bonus(
        item.last_accessed_epoch_secs as int,
        now,
    ) + frequency_bonus(item.use_count as int)
}

/// Score of one item, or `None` if it is filtered out or does not match.
/// `fast` is the path taken for a non-empty query under the default filter:
/// it scores the title only.
pub open spec fn item_score(
    item: SearchItem,
    nq: Seq<char>,
    now: int,
    f: SearchFilter,
    times: Option<FileTimes>,
    app_intent: bool,
    fast: bool,
) -> Option<(int, TextMatchKind)> {
    if !matches_visibility(item.kind@, f) {
        None
    } else if fast {
        match score_text(item.norm_title(), nq) {
            Some((sc, k)) => Some((sc + common_bonuses(item, nq, now, app_intent), k)),
            None => None,
        }
    } else if !passes_filter(item, f, times, now) {
        None
    } else {
        match text_score_for(item, nq) {
            Some((sc, k)) => Some(
                (sc + common_bonuses(item, nq, now, app_intent) + mode_bonus(item.kind@, f.mode), k),
            ),
            None => None,
        }
    }
}

/// What one candidate contributes to ranking.
pub struct Scored {
    pub score: i128,
    pub kind: TextMatchKind,
    pub source_rank: u8,
    pub is_app: bool,
}

fn common_bonuses_exec(
    item: &SearchItem,
    title: &Vec<char>,
    flags: &KindFlags,
    path: &Vec<char>,
    nq: &Vec<char>,
    nq_bytes: u128,
    now: i64,
    app_intent: bool,
) -> (r: (i128, u8))
    requires
        title@ == item.title@,
        kind_flags_of(item.kind@, *flags),
        path@ == item.path@,
        nq_bytes == text::byte_len(nq@),
    ensures
        r.0 == common_bonuses(*item, nq@, now as int, app_intent),
        r.1 == source_rank(item.kind@, item.path@),
        -1_000 <= r.0 <= 3_000,
{
    let lexical = lexical_bonus_exec(title, nq);
    let intent = app_intent_bonus_exec(flags, app_intent, nq_bytes);
    let rank = source_rank_exec(flags, path);
    let source = source_bonus_exec(rank);
    let recency = recency_bonus_exec(item.last_accessed_epoch_secs, now);
    let frequency = frequency_bonus_exec(item.use_count);
    proof {
        lemma_lexical_bonus_range(item.title@, nq@);
    }
    (lexical + intent + source + recency + frequency, rank)
}

proof fn lemma_lexical_bonus_range(title: Seq<char>, q: Seq<char>)
    ensures
        0 <= lexical_bonus(title, q) <= 520,
{
}

/// `item_score` of one item, with the facts that ranking needs about it.
pub fn score_candidate(
    item: &SearchItem,
    nq: &Vec<char>,
    nq_bytes: u128,
    now: i64,
    f: &SearchFilter,
    times: Option<FileTimes>,
    app_intent: bool,
    fast: bool,
) -> (r: Option<Scored>)
    requires
        nq_bytes == text::byte_len(nq@),
    ensures
        match r {
            Some(sc) => item_score(*item, nq@, now as int, *f, times, app_intent, fast) == Some(
                (sc.score as int, sc.kind),
            ) && sc.source_rank == source_rank(item.kind@, item.path@) && sc.is_app == kind_is(
                item.kind@,
                "app"@,
            ) && -score_bound() - 10_000 <= sc.score <= score_bound() + 10_000,
            None => item_score(*item, nq@, now as int, *f, times, app_intent, fast) is None,
        },
{
    let kind = text::chars_of(item.kind.as_str());
    let flags = kind_flags(&kind);
    if (flags.file && !f.include_files) || (flags.folder && !f.include_folders) {
        return None;
    }
    let title = text::chars_of(item.title.as_str());
    let path = text::chars_of(item.path.as_str());
    let ntitle = text::chars_of(item.normalized_title.as_str());
    if fast {
        match score_text_exec(&ntitle, nq) {
            Some((sc, k)) => {
                let (bonus, rank) = common_bonuses_exec(item, &title, &flags, &path, nq, nq_bytes, now, app_intent);
                return Some(Scored { score: sc + bonus, kind: k, source_rank: rank, is_app: flags.app });
            },
            None => {
                return None;
            },
        }
    }
    if !matches_mode_exec(&flags, f.mode) {
        return None;
    }
    match &f.kind_filter {
        Some(k) => {
            if !matches_kind_filter_exec(&kind, &flags, k.as_str()) {
                return None;
            }
        },
        None => {},
    }
    match &f.extension_filter {
        Some(e) => {
            if !matches_extension_filter_exec(&flags, item.path.as_str(), e.as_str()) {
                return None;
            }
        },
        None => {},
    }
    let ntext = text::chars_of(item.normalized_search_text.as_str());
    if !matches_term_filters_exec(&ntext, f) {
        return None;
    }
    if !matches_time_filters_exec(f, times, now) {
        return None;
    }
    let ts: Option<(i128, TextMatchKind)> = if nq.len() == 0 {
        Some((0, TextMatchKind::Substring))
    } else {
        match score_text_exec(&ntitle, nq) {
            Some(x) => Some(x),
            None => match score_text_exec(&ntext, nq) {
                Some((sc, k)) => Some((sc - 1_500, k)),
                None => None,
            },
        }
    };
    match ts {
        Some((sc, k)) => {
            let (bonus, rank) = common_bonuses_exec(item, &title, &flags, &path, nq, nq_bytes, now, app_intent);
            let mb = mode_bonus_exec(&flags, f.mode);
            Some(Scored { score: sc + bonus + mb, kind: k, source_rank: rank, is_app: flags.app })
        },
        None => None,
    }
}


// ---------------------------------------------------------------------------
// Ordering of candidates
// ---------------------------------------------------------------------------

/// Lexicographic comparison by code point (-1, 0 or 1). UTF-8 preserves code
/// point order, so this is also the byte order that `str` comparison uses.
pub open spec fn seq_order(a: Seq<char>, b: Seq<char>) -> int
    decreases a.len(),
{
    if a.len() == 0 && b.len() == 0 {
        0
    } else if a.len() == 0 {
        -1
    } else if b.len() == 0 {
        1
    } else if a[0] < b[0] {
        -1
    } else if a[0] > b[0] {
        1
    } else {
        seq_order(a.drop_first(), b.drop_first())
    }
}

pub proof fn lemma_seq_order_antisym(a: Seq<char>, b: Seq<char>)
    ensures
        seq_order(a, b) == -seq_order(b, a),
        -1 <= seq_order(a, b) <= 1,
        seq_order(a, b) == 0 <==> a == b,
    decreases a.len(),
{
    if a.len() == 0 && b.len() == 0 {
        assert(a =~= b);
    } else if a.len() == 0 || b.len() == 0 {
        assert(a.len() != b.len());
    } else if a[0] != b[0] {
        assert(a != b);
    } else {
        lemma_seq_order_antisym(a.drop_first(), b.drop_first());
        if a.drop_first() == b.drop_first() {
            assert forall|k: int| 0 <= k < a.len() implies a[k] == b[k] by {
                if k > 0 {
                    assert(a[k] == a.drop_first()[k - 1]);
                    assert(b[k] == b.drop_first()[k - 1]);
                }
            }
            assert(a =~= b);
        } else {
            assert(a != b) by {
                if a == b {
                    assert(a.drop_first() =~= b.drop_first());
                }
            }
        }
    }
}

pub proof fn lemma_seq_order_trans(a: Seq<char>, b: Seq<char>, c: Seq<char>)
    requires
        seq_order(a, b) <= 0,
        seq_order(b, c) <= 0,
    ensures
        seq_order(a, c) <= 0,
    decreases a.len(),
{
    if a.len() > 0 && b.len() > 0 && c.len() > 0 && a[0] == b[0] && b[0] == c[0] {
        lemma_seq_order_trans(a.drop_first(), b.drop_first(), c.drop_first());
    }
}

/// The ranking key of a candidate.
pub struct RankKey {
    pub score: int,
    pub match_rank: int,
    pub source_rank: int,
    pub title_len: int,
    pub title: Seq<char>,
    pub id: Seq<char>,
}

/// Higher score first, then stronger match kind, then source tier, then shorter
/// normalized title (in bytes), then normalized title, then id.
pub open spec fn key_order(a: RankKey, b: RankKey) -> int {
    if a.score != b.score {
        if a.score > b.score {
            -1
        } else {
            1
        }
    } else if a.match_rank != b.match_rank {
        if a.match_rank < b.match_rank {
            -1
        } else {
            1
        }
    } else if a.source_rank != b.source_rank {
        if a.source_rank < b.source_rank {
            -1
        } else {
            1
        }
    } else if a.title_len != b.title_len {
        if a.title_len < b.title_len {
            -1
        } else {
            1
        }
    } else if seq_order(a.title, b.title) != 0 {
        seq_order(a.title, b.title)
    } else {
        seq_order(a.id, b.id)
    }
}

pub open spec fn key_le(a: RankKey, b: RankKey) -> bool {
    key_order(a, b) <= 0
}

pub proof fn lemma_key_antisym(a: RankKey, b: RankKey)
    ensures
        key_order(a, b) == -key_order(b, a),
        key_order(a, b) == 0 ==> a.id == b.id && a.title == b.title,
{
    lemma_seq_order_antisym(a.title, b.title);
    lemma_seq_order_antisym(a.id, b.id);
}

pub proof fn lemma_key_trans(a: RankKey, b: RankKey, c: RankKey)
    requires
        key_le(a, b),
        key_le(b, c),
    ensures
        key_le(a, c),
{
    lemma_seq_order_antisym(a.title, b.title);
    lemma_seq_order_antisym(b.title, c.title);
    lemma_seq_order_antisym(a.title, c.title);
    lemma_seq_order_antisym(a.id, b.id);
    lemma_seq_order_antisym(b.id, c.id);
    lemma_seq_order_antisym(a.id, c.id);
    if a.score == b.score && b.score == c.score && a.match_rank == b.match_rank && b.match_rank
        == c.match_rank && a.source_rank == b.source_rank && b.source_rank == c.source_rank
        && a.title_len == b.title_len && b.title_len == c.title_len {
        if seq_order(a.title, b.title) <= 0 && seq_order(b.title, c.title) <= 0 {
            lemma_seq_order_trans(a.title, b.title, c.title);
        }
        if seq_order(a.title, b.title) == 0 && seq_order(b.title, c.title) == 0 {
            lemma_seq_order_trans(a.id, b.id, c.id);
        }
    }
}

pub fn seq_order_exec(a: &Vec<char>, b: &Vec<char>) -> (r: i8)
    ensures
        r as int == seq_order(a@, b@),
{
    let mut i: usize = 0;
    proof {
        assert(a@.skip(0) =~= a@);
        assert(b@.skip(0) =~= b@);
    }
    while i < a.len() && i < b.len() && a[i] == b[i]
        invariant
            i <= a.len(),
            i <= b.len(),
            seq_order(a@, b@) == seq_order(a@.skip(i as int), b@.skip(i as int)),
        decreases a.len() - i,
    {
        proof {
            assert(a@.skip(i as int).drop_first() =~= a@.skip(i + 1));
            assert(b@.skip(i as int).drop_first() =~= b@.skip(i + 1));
        }
        i = i + 1;
    }
    proof {
        if i < a.len() {
            assert(a@.skip(i as int)[0] == a@[i as int]);
        }
        if i < b.len() {
            assert(b@.skip(i as int)[0] == b@[i as int]);
        }
    }
    if i == a.len() && i == b.len() {
        0
    } else if i == a.len() {
        -1
    } else if i == b.len() {
        1
    } else if a[i] < b[i] {
        -1
    } else {
        1
    }
}

/// A scored candidate during ranking, with the texts its key compares.
pub struct Candidate {
    pub idx: usize,
    pub score: i128,
    pub match_kind: TextMatchKind,
    pub source_rank: u8,
    pub title_len: u128,
    pub title: Vec<char>,
    pub id: Vec<char>,
    pub is_app: bool,
}

pub open spec fn key_of(c: Candidate) -> RankKey {
    RankKey {
        score: c.score as int,
        match_rank: match_rank(c.match_kind),
        source_rank: c.source_rank as int,
        title_len: c.title_len as int,
        title: c.title@,
        id: c.id@,
    }
}

pub fn candidate_order(a: &Candidate, b: &Candidate) -> (r: i8)
    ensures
        r as int == key_order(key_of(*a), key_of(*b)),
{
    proof {
        lemma_seq_order_antisym(a.title@, b.title@);
        lemma_seq_order_antisym(a.id@, b.id@);
    }
    if a.score != b.score {
        if a.score > b.score {
            -1
        } else {
            1
        }
    } else {
        let ra = match_rank_of(a.match_kind);
        let rb = match_rank_of(b.match_kind);
        if ra != rb {
            if ra < rb {
                -1
            } else {
                1
            }
        } else if a.source_rank != b.source_rank {
            if a.source_rank < b.source_rank {
                -1
            } else {
                1
            }
        } else if a.title_len != b.title_len {
            if a.title_len < b.title_len {
                -1
            } else {
                1
            }
        } else {
            let t = seq_order_exec(&a.title, &b.title);
            if t != 0 {
                t
            } else {
                seq_order_exec(&a.id, &b.id)
            }
        }
    }
}

// ---------------------------------------------------------------------------
// Selection of the best candidates
// ---------------------------------------------------------------------------

/// Everything ranking needs besides the items.
pub struct RankContext {
    pub nq: Seq<char>,
    pub now: int,
    pub filter: SearchFilter,
    pub times: Seq<Option<FileTimes>>,
    pub app_intent: bool,
    pub fast: bool,
}

pub open spec fn time_at(times: Seq<Option<FileTimes>>, i: int) -> Option<FileTimes> {
    if 0 <= i < times.len() {
        times[i]
    } else {
        None
    }
}

pub open spec fn cand_score(items: Seq<SearchItem>, ctx: RankContext, i: int) -> Option<(int, TextMatchKind)> {
    item_score(items[i], ctx.nq, ctx.now, ctx.filter, time_at(ctx.times, i), ctx.app_intent, ctx.fast)
}

/// Item `i` passes the filter and matches the query.
pub open spec fn is_candidate(items: Seq<SearchItem>, ctx: RankContext, i: int) -> bool {
    0 <= i < items.len() && cand_score(items, ctx, i) is Some
}

pub open spec fn rank_key(items: Seq<SearchItem>, ctx: RankContext, i: int) -> RankKey {
    let (sc, k) = cand_score(items, ctx, i).unwrap();
    RankKey {
        score: sc,
        match_rank: match_rank(k),
        source_rank: source_rank(items[i].kind@, items[i].path@),
        title_len: text::byte_len(items[i].norm_title()),
        title: items[i].norm_title(),
        id: items[i].id@,
    }
}

pub open spec fn cand_matches(items: Seq<SearchItem>, ctx: RankContext, c: Candidate) -> bool {
    &&& is_candidate(items, ctx, c.idx as int)
    &&& rank_key(items, ctx, c.idx as int) == key_of(c)
    &&& c.match_kind == cand_score(items, ctx, c.idx as int).unwrap().1
    &&& c.is_app == kind_is(items[c.idx as int].kind@, "app"@)
    &&& -score_bound() - 10_000 <= c.score <= score_bound() + 10_000
}

pub open spec fn indices_of(buf: Seq<Candidate>) -> Seq<int> {
    buf.map_values(|c: Candidate| c.idx as int)
}

/// `sel` lists, best first, the best `k` of the indices below `upto` for which
/// `cand` holds (all of them if there are fewer): distinct candidates, sorted
/// by `key`, and every candidate left out ranks no better than every one chosen.
pub open spec fn top_k(cand: spec_fn(int) -> bool, key: spec_fn(int) -> RankKey, k: int, upto: int, sel: Seq<int>) -> bool {
    &&& sel.len() <= k
    &&& forall|j: int| 0 <= j < sel.len() ==> cand(#[trigger] sel[j]) && 0 <= sel[j] < upto
    &&& forall|a: int, b: int| 0 <= a < b < sel.len() ==> sel[a] != sel[b]
    &&& forall|a: int, b: int| 0 <= a < b < sel.len() ==> key_le(key(#[trigger] sel[a]), key(#[trigger] sel[b]))
    &&& forall|x: int|
        0 <= x < upto && #[trigger] cand(x) && !sel.contains(x) ==> sel.len() == k && forall|a: int|
            0 <= a < sel.len() ==> key_le(key(#[trigger] sel[a]), key(x))
}

pub proof fn lemma_top_k_skip(cand: spec_fn(int) -> bool, key: spec_fn(int) -> RankKey, k: int, i: int, sel: Seq<int>)
    requires
        top_k(cand, key, k, i, sel),
        !cand(i),
    ensures
        top_k(cand, key, k, i + 1, sel),
{
}

pub proof fn lemma_top_k_drop_new(cand: spec_fn(int) -> bool, key: spec_fn(int) -> RankKey, k: int, i: int, sel: Seq<int>)
    requires
        top_k(cand, key, k, i, sel),
        cand(i),
        sel.len() == k,
        forall|j: int| 0 <= j < sel.len() ==> key_le(key(#[trigger] sel[j]), key(i)),
    ensures
        top_k(cand, key, k, i + 1, sel),
{
}

/// Inserting candidate `i` at the position after everything that ranks no
/// worse keeps the selection sorted.
proof fn lemma_insert_sorted(cand: spec_fn(int) -> bool, key: spec_fn(int) -> RankKey, k: int, i: int, sel: Seq<int>, p: int)
    requires
        top_k(cand, key, k, i, sel),
        cand(i),
        0 <= i,
        0 <= p <= sel.len(),
        forall|j: int| 0 <= j < p ==> key_le(key(#[trigger] sel[j]), key(i)),
        p < sel.len() ==> key_order(key(sel[p]), key(i)) > 0,
    ensures
        ({
            let ins = sel.insert(p, i);
            &&& forall|a: int, b: int| 0 <= a < b < ins.len() ==> key_le(key(#[trigger] ins[a]), key(#[trigger] ins[b]))
            &&& forall|a: int, b: int| 0 <= a < b < ins.len() ==> ins[a] != ins[b]
            &&& forall|j: int| 0 <= j < ins.len() ==> cand(#[trigger] ins[j]) && 0 <= ins[j] < i + 1
            &&& forall|j: int| p <= j < sel.len() ==> key_le(key(i), key(#[trigger] sel[j]))
        }),
{
    let ins = sel.insert(p, i);
    assert forall|j: int| p <= j < sel.len() implies key_le(key(i), key(#[trigger] sel[j])) by {
        lemma_key_antisym(key(sel[p]), key(i));
        if j > p {
            assert(key_le(key(sel[p]), key(sel[j])));
            lemma_key_trans(key(i), key(sel[p]), key(sel[j]));
        }
    }
    assert forall|j: int| 0 <= j < ins.len() implies #[trigger] ins[j] == (if j < p {
        sel[j]
    } else if j == p {
        i
    } else {
        sel[j - 1]
    }) by {}
    assert forall|a: int, b: int| 0 <= a < b < ins.len() implies key_le(key(#[trigger] ins[a]), key(#[trigger] ins[b])) by {
        if a < p && b > p {
            lemma_key_trans(key(sel[a]), key(i), key(sel[b - 1]));
        } else if a > p {
            assert(key_le(key(sel[a - 1]), key(sel[b - 1])));
        } else if a < p && b < p {
            assert(key_le(key(sel[a]), key(sel[b])));
        }
    }
    assert forall|a: int, b: int| 0 <= a < b < ins.len() implies ins[a] != ins[b] by {
        if a != p && b != p {
            let aa = if a < p {
                a
            } else {
                a - 1
            };
            let bb = if b < p {
                b
            } else {
                b - 1
            };
            assert(sel[aa] != sel[bb]);
        } else if a == p {
            assert(cand(sel[b - 1]) && sel[b - 1] < i);
        } else {
            assert(cand(sel[a]) && sel[a] < i);
        }
    }
    assert forall|j: int| 0 <= j < ins.len() implies cand(#[trigger] ins[j]) && 0 <= ins[j] < i + 1 by {
        if j < p {
            assert(ins[j] == sel[j]);
            assert(cand(sel[j]));
        } else if j > p {
            assert(ins[j] == sel[j - 1]);
            assert(cand(sel[j - 1]));
        } else {
            assert(ins[j] == i);
        }
    }
}

proof fn lemma_contains_after_insert(sel: Seq<int>, p: int, i: int, x: int)
    requires
        0 <= p <= sel.len(),
        sel.contains(x),
    ensures
        sel.insert(p, i).contains(x),
{
    let w = choose|w: int| 0 <= w < sel.len() && sel[w] == x;
    if w < p {
        assert(sel.insert(p, i)[w] == x);
    } else {
        assert(sel.insert(p, i)[w + 1] == x);
    }
}

pub proof fn lemma_top_k_insert_grow(cand: spec_fn(int) -> bool, key: spec_fn(int) -> RankKey, k: int, i: int, sel: Seq<int>, p: int)
    requires
        top_k(cand, key, k, i, sel),
        cand(i),
        0 <= i,
        sel.len() < k,
        0 <= p <= sel.len(),
        forall|j: int| 0 <= j < p ==> key_le(key(#[trigger] sel[j]), key(i)),
        p < sel.len() ==> key_order(key(sel[p]), key(i)) > 0,
    ensures
        top_k(cand, key, k, i + 1, sel.insert(p, i)),
{
    lemma_insert_sorted(cand, key, k, i, sel, p);
    let ins = sel.insert(p, i);
    assert(ins[p] == i);
    assert forall|x: int| 0 <= x < i + 1 && #[trigger] cand(x) && !ins.contains(x) implies ins.len() == k && forall|a: int|
        0 <= a < ins.len() ==> key_le(key(#[trigger] ins[a]), key(x)) by {
        if x < i && sel.contains(x) {
            lemma_contains_after_insert(sel, p, i, x);
        }
    }
}

pub proof fn lemma_top_k_insert_replace(cand: spec_fn(int) -> bool, key: spec_fn(int) -> RankKey, k: int, i: int, sel: Seq<int>, p: int)
    requires
        top_k(cand, key, k, i, sel),
        cand(i),
        0 <= i,
        sel.len() == k,
        0 <= p < sel.len(),
        forall|j: int| 0 <= j < p ==> key_le(key(#[trigger] sel[j]), key(i)),
        key_order(key(sel[p]), key(i)) > 0,
    ensures
        top_k(cand, key, k, i + 1, sel.insert(p, i).drop_last()),
{
    lemma_insert_sorted(cand, key, k, i, sel, p);
    let ins = sel.insert(p, i);
    let ns = ins.drop_last();
    let z = sel[sel.len() - 1];
    assert(ins[ins.len() - 1] == z);
    assert(ns[p] == i);
    // everything kept ranks no worse than the dropped element z
    assert forall|a: int| 0 <= a < ns.len() implies key_le(key(#[trigger] ns[a]), key(z)) by {
        assert(ns[a] == ins[a]);
        assert(key_le(key(ins[a]), key(ins[ins.len() - 1])));
    }
    assert forall|a: int, b: int| 0 <= a < b < ns.len() implies key_le(key(#[trigger] ns[a]), key(#[trigger] ns[b])) by {
        assert(ns[a] == ins[a] && ns[b] == ins[b]);
    }
    assert forall|a: int, b: int| 0 <= a < b < ns.len() implies ns[a] != ns[b] by {
        assert(ns[a] == ins[a] && ns[b] == ins[b]);
    }
    assert forall|j: int| 0 <= j < ns.len() implies cand(#[trigger] ns[j]) && 0 <= ns[j] < i + 1 by {
        assert(ns[j] == ins[j]);
    }
    assert forall|x: int| 0 <= x < i + 1 && #[trigger] cand(x) && !ns.contains(x) implies ns.len() == k && forall|a: int|
        0 <= a < ns.len() ==> key_le(key(#[trigger] ns[a]), key(x)) by {
        assert forall|a: int| 0 <= a < ns.len() implies key_le(key(#[trigger] ns[a]), key(x)) by {
            if x == z {
            } else if x == i {
            } else {
                if sel.contains(x) {
                    let w = choose|w: int| 0 <= w < sel.len() && sel[w] == x;
                    if w < p {
                        assert(ns[w] == x);
                    } else {
                        assert(w + 1 < ns.len() || sel[w] == z);
                        if w + 1 < ns.len() {
                            assert(ns[w + 1] == x);
                        }
                    }
                }
                assert(!sel.contains(x));
                assert(key_le(key(sel[sel.len() - 1]), key(x)));
                lemma_key_trans(key(ns[a]), key(z), key(x));
            }
        }
    }
}


// ---------------------------------------------------------------------------
// Ranking and search
// ---------------------------------------------------------------------------

pub open spec fn cand_fn(items: Seq<SearchItem>, ctx: RankContext) -> spec_fn(int) -> bool {
    |i: int| is_candidate(items, ctx, i)
}

pub open spec fn key_fn(items: Seq<SearchItem>, ctx: RankContext) -> spec_fn(int) -> RankKey {
    |i: int| rank_key(items, ctx, i)
}

/// What ranking derives from the query and the filter.
pub open spec fn search_context(query: Seq<char>, f: SearchFilter, times: Seq<Option<FileTimes>>, now: int) -> RankContext {
    let nq = normalize(query);
    RankContext {
        nq,
        now,
        filter: f,
        times,
        app_intent: looks_like_app_intent_query(query, nq, f.mode),
        fast: is_default_filter(f) && nq.len() > 0,
    }
}

/// Whether the first two results trade places: a runner-up with a stronger
/// match kind, an app runner-up for an app-looking query, or a runner-up from a
/// better source, each within a score margin that depends on query length.
pub open spec fn guard_swaps(items: Seq<SearchItem>, ctx: RankContext, sel: Seq<int>) -> bool {
    sel.len() >= 2 && ctx.nq.len() > 0 && {
        let lead = rank_key(items, ctx, sel[0]);
        let runner_up = rank_key(items, ctx, sel[1]);
        let delta = lead.score - runner_up.score;
        let qlen = text::byte_len(ctx.nq);
        let confidence_delta: int = if qlen <= 2 {
            52
        } else if qlen <= 5 {
            78
        } else {
            108
        };
        let app_delta: int = if qlen <= 2 {
            7_000
        } else if qlen <= 5 {
            2_100
        } else {
            780
        };
        let source_delta: int = if qlen <= 2 {
            420
        } else {
            200
        };
        ||| (runner_up.match_rank < lead.match_rank && delta <= confidence_delta)
        ||| (ctx.app_intent && !kind_is(items[sel[0]].kind@, "app"@) && kind_is(items[sel[1]].kind@, "app"@)
            && delta <= app_delta)
        ||| (lead.match_rank == runner_up.match_rank && runner_up.source_rank < lead.source_rank
            && delta <= source_delta)
    }
}

/// The selection after the top-hit correction.
pub open spec fn guarded(items: Seq<SearchItem>, ctx: RankContext, sel: Seq<int>) -> Seq<int> {
    if guard_swaps(items, ctx, sel) {
        sel.update(0, sel[1]).update(1, sel[0])
    } else {
        sel
    }
}

/// `out` is a ranking of `items` for `query`: the best `limit` candidates in
/// key order (ties between identical keys in any order), after the top-hit
/// correction.
pub open spec fn ranked_results(
    items: Seq<SearchItem>,
    query: Seq<char>,
    limit: int,
    f: SearchFilter,
    times: Seq<Option<FileTimes>>,
    now: int,
    out: Seq<SearchItem>,
) -> bool {
    let ctx = search_context(query, f, times, now);
    exists|sel: Seq<int>|
        #![trigger top_k(cand_fn(items, ctx), key_fn(items, ctx), limit, items.len() as int, sel)]
        top_k(cand_fn(items, ctx), key_fn(items, ctx), limit, items.len() as int, sel) && out.len()
            == sel.len() && forall|j: int| 0 <= j < sel.len() ==> #[trigger] out[j] == items[guarded(items, ctx, sel)[j]]
}

#[verifier::rlimit(60)]
#[verifier::spinoff_prover]
fn select_top(
    items: &[SearchItem],
    nq: &Vec<char>,
    nq_bytes: u128,
    now: i64,
    f: &SearchFilter,
    times: &[Option<FileTimes>],
    app_intent: bool,
    fast: bool,
    limit: usize,
    Ghost(ctx): Ghost<RankContext>,
) -> (buf: Vec<Candidate>)
    requires
        nq_bytes == text::byte_len(nq@),
        ctx == (RankContext { nq: nq@, now: now as int, filter: *f, times: times@, app_intent, fast }),
    ensures
        top_k(cand_fn(items@, ctx), key_fn(items@, ctx), limit as int, items@.len() as int, indices_of(buf@)),
        forall|j: int| 0 <= j < buf@.len() ==> cand_matches(items@, ctx, #[trigger] buf@[j]),
{
    let ghost cand = cand_fn(items@, ctx);
    let ghost key = key_fn(items@, ctx);
    let mut buf: Vec<Candidate> = Vec::new();
    let mut i: usize = 0;
    proof {
        assert(indices_of(buf@) =~= Seq::<int>::empty());
    }
    while i < items.len()
        invariant
            i <= items@.len(),
            cand == cand_fn(items@, ctx),
            key == key_fn(items@, ctx),
            ctx == (RankContext { nq: nq@, now: now as int, filter: *f, times: times@, app_intent, fast }),
            nq_bytes == text::byte_len(nq@),
            top_k(cand, key, limit as int, i as int, indices_of(buf@)),
            forall|j: int| 0 <= j < buf@.len() ==> cand_matches(items@, ctx, #[trigger] buf@[j]),
        decreases items@.len() - i,
    {
        let t: Option<FileTimes> = if i < times.len() {
            times[i]
        } else {
            None
        };
        let ghost sel = indices_of(buf@);
        proof {
            assert(t == time_at(times@, i as int));
        }
        match score_candidate(&items[i], nq, nq_bytes, now, f, t, app_intent, fast) {
            None => {
                proof {
                    assert(!cand(i as int));
                    lemma_top_k_skip(cand, key, limit as int, i as int, sel);
                }
            },
            Some(sc) => {
                let title = text::chars_of(items[i].normalized_title.as_str());
                let title_len = text::byte_len_of(&title);
                let id = text::chars_of(items[i].id.as_str());
                let c = Candidate {
                    idx: i,
                    score: sc.score,
                    match_kind: sc.kind,
                    source_rank: sc.source_rank,
                    title_len,
                    title,
                    id,
                    is_app: sc.is_app,
                };
                proof {
                    assert(cand(i as int));
                    assert(rank_key(items@, ctx, i as int) == key_of(c));
                    assert(cand_matches(items@, ctx, c));
                }
                let mut p: usize = 0;
                while p < buf.len() && candidate_order(&buf[p], &c) <= 0
                    invariant
                        p <= buf@.len(),
                        forall|j: int| 0 <= j < p ==> key_le(key_of(#[trigger] buf@[j]), key_of(c)),
                    decreases buf@.len() - p,
                {
                    p = p + 1;
                }
                proof {
                    assert forall|j: int| 0 <= j < p implies key_le(key(#[trigger] sel[j]), key(i as int)) by {
                        assert(cand_matches(items@, ctx, buf@[j]));
                        assert(sel[j] == buf@[j].idx as int);
                    }
                    if p < buf@.len() {
                        assert(cand_matches(items@, ctx, buf@[p as int]));
                        assert(sel[p as int] == buf@[p as int].idx as int);
                    }
                }
                let ghost old_buf = buf@;
                if buf.len() < limit {
                    buf.insert(p, c);
                    proof {
                        lemma_top_k_insert_grow(cand, key, limit as int, i as int, sel, p as int);
                        assert(indices_of(buf@) =~= sel.insert(p as int, i as int));
                        assert forall|j: int| 0 <= j < buf@.len() implies cand_matches(items@, ctx, #[trigger] buf@[j]) by {
                            if j < p {
                                assert(buf@[j] == old_buf[j]);
                            } else if j > p {
                                assert(buf@[j] == old_buf[j - 1]);
                            }
                        }
                    }
                } else if p < buf.len() {
                    buf.insert(p, c);
                    let _ = buf.pop();
                    proof {
                        lemma_top_k_insert_replace(cand, key, limit as int, i as int, sel, p as int);
                        assert(indices_of(buf@) =~= sel.insert(p as int, i as int).drop_last());
                        assert forall|j: int| 0 <= j < buf@.len() implies cand_matches(items@, ctx, #[trigger] buf@[j]) by {
                            if j < p {
                                assert(buf@[j] == old_buf[j]);
                            } else if j > p {
                                assert(buf@[j] == old_buf[j - 1]);
                            }
                        }
                    }
                } else {
                    proof {
                        lemma_top_k_drop_new(cand, key, limit as int, i as int, sel);
                    }
                }
            },
        }
        i = i + 1;
    }
    buf
}

/// Ranks `items` for `query` at time `now`, with the file times that the time
/// filters judge (`times[i]` belongs to `items[i]`; a missing or `None` entry
/// means the file times could not be read).
pub fn search_with_filter_at(
    items: &[SearchItem],
    query: &str,
    limit: usize,
    filter: &SearchFilter,
    times: &[Option<FileTimes>],
    now: i64,
) -> (out: Vec<SearchItem>)
    ensures
        ranked_results(items@, query@, limit as int, *filter, times@, now as int, out@),
        out@.len() <= limit,
        limit == 0 || items@.len() == 0 ==> out@.len() == 0,
{
    let ghost ctx = search_context(query@, *filter, times@, now as int);
    if limit == 0 || items.len() == 0 {
        let out: Vec<SearchItem> = Vec::new();
        proof {
            let sel = Seq::<int>::empty();
            assert(top_k(cand_fn(items@, ctx), key_fn(items@, ctx), limit as int, items@.len() as int, sel));
            if limit != 0 {
                assert forall|x: int| 0 <= x < items@.len() && #[trigger] cand_fn(items@, ctx)(x) implies false by {}
            }
        }
        return out;
    }
    let raw = text::chars_of(query);
    let nq = crate::model::normalize_chars(&raw);
    let nq_bytes = text::byte_len_of(&nq);
    let fast = is_default_filter_exec(filter) && nq.len() > 0;
    let app_intent = looks_like_app_intent_query_exec(&raw, &nq, filter.mode);
    let buf = select_top(items, &nq, nq_bytes, now, filter, times, app_intent, fast, limit, Ghost(ctx));
    let ghost sel = indices_of(buf@);
    let mut swap = false;
    if buf.len() >= 2 && nq.len() > 0 {
        let lead = &buf[0];
        let runner_up = &buf[1];
        proof {
            assert(cand_matches(items@, ctx, buf@[0]));
            assert(cand_matches(items@, ctx, buf@[1]));
            assert(sel[0] == lead.idx as int);
            assert(sel[1] == runner_up.idx as int);
        }
        let score_delta = lead.score - runner_up.score;
        let lead_rank = match_rank_of(lead.match_kind);
        let runner_rank = match_rank_of(runner_up.match_kind);
        let confidence_delta: i128 = if nq_bytes <= 2 {
            52
        } else if nq_bytes <= 5 {
            78
        } else {
            108
        };
        let stronger_runner_up_match = runner_rank < lead_rank && score_delta <= confidence_delta;
        let app_delta: i128 = if nq_bytes <= 2 {
            7_000
        } else if nq_bytes <= 5 {
            2_100
        } else {
            780
        };
        let app_runner_up_preferred = app_intent && !lead.is_app && runner_up.is_app && score_delta <= app_delta;
        let source_delta: i128 = if nq_bytes <= 2 {
            420
        } else {
            200
        };
        let stronger_source_runner_up = lead_rank == runner_rank && runner_up.source_rank < lead.source_rank
            && score_delta <= source_delta;
        swap = stronger_runner_up_match || app_runner_up_preferred || stronger_source_runner_up;
    }
    proof {
        assert(swap == guard_swaps(items@, ctx, sel));
    }
    let ghost g = guarded(items@, ctx, sel);
    let mut out: Vec<SearchItem> = Vec::new();
    let mut j: usize = 0;
    while j < buf.len()
        invariant
            j <= buf@.len(),
            sel == indices_of(buf@),
            g == guarded(items@, ctx, sel),
            swap == guard_swaps(items@, ctx, sel),
            forall|m: int| 0 <= m < sel.len() ==> 0 <= #[trigger] sel[m] < items@.len(),
            out@.len() == j,
            forall|m: int| 0 <= m < j ==> #[trigger] out@[m] == items@[g[m]],
        decreases buf@.len() - j,
    {
        let idx = if swap && j == 0 {
            buf[1].idx
        } else if swap && j == 1 {
            buf[0].idx
        } else {
            buf[j].idx
        };
        proof {
            assert(idx as int == g[j as int]);
        }
        out.push(items[idx].duplicate());
        j = j + 1;
    }
    proof {
        assert(top_k(cand_fn(items@, ctx), key_fn(items@, ctx), limit as int, items@.len() as int, sel));
    }
    out
}

/// `search_with_filter_at` at the current time.
pub fn search_with_filter(
    items: &[SearchItem],
    query: &str,
    limit: usize,
    filter: &SearchFilter,
    times: &[Option<FileTimes>],
) -> (out: Vec<SearchItem>)
    ensures
        exists|now: int| ranked_results(items@, query@, limit as int, *filter, times@, now, out@),
        out@.len() <= limit,
{
    let now = crate::clock::now_epoch_secs();
    search_with_filter_at(items, query, limit, filter, times, now)
}

/// A search under the default filter at time `now`: nothing for a query
/// without any alphanumeric character, else the ranking of the items.
pub open spec fn default_search(items: Seq<SearchItem>, query: Seq<char>, limit: int, now: int, out: Seq<SearchItem>) -> bool {
    &&& normalize(query).len() == 0 ==> out.len() == 0
    &&& normalize(query).len() > 0 ==> exists|f: SearchFilter|
        is_default_filter(f) && ranked_results(items, query, limit, f, Seq::empty(), now, out)
}

/// Search with the default filter at time `now`; a query without any
/// alphanumeric character finds nothing.
pub fn search_at(items: &[SearchItem], query: &str, limit: usize, now: i64) -> (out: Vec<SearchItem>)
    ensures
        default_search(items@, query@, limit as int, now as int, out@),
        out@.len() <= limit,
{
    let nq = crate::model::normalize_for_search(query);
    if nq.as_str().is_empty() {
        return Vec::new();
    }
    let f = SearchFilter::default();
    let times: Vec<Option<FileTimes>> = Vec::new();
    let out = search_with_filter_at(items, query, limit, &f, times.as_slice(), now);
    proof {
        assert(times@ =~= Seq::<Option<FileTimes>>::empty());
    }
    out
}

/// Search with the default filter at the current time.
pub fn search(items: &[SearchItem], query: &str, limit: usize) -> (out: Vec<SearchItem>)
    ensures
        exists|now: int| default_search(items@, query@, limit as int, now, out@),
        out@.len() <= limit,
{
    let now = crate::clock::now_epoch_secs();
    search_at(items, query, limit, now)
}

proof fn lemma_byte_len_facts(h: Seq<char>, p: int)
    requires
        0 <= p <= h.len(),
    ensures
        byte_pos(h, p) >= p,
        byte_pos(h, p) <= 4 * p,
{
    text::lemma_byte_len_bounds(h.take(p));
}

// ---------------------------------------------------------------------------
// Ranking does not depend on the order of the items
// ---------------------------------------------------------------------------

/// Candidates with the same key are the same candidate.
pub open spec fn keys_distinct(cand: spec_fn(int) -> bool, key: spec_fn(int) -> RankKey, n: int) -> bool {
    forall|x: int, y: int|
        0 <= x < n && 0 <= y < n && cand(x) && cand(y) && #[trigger] key_order(key(x), key(y)) == 0 ==> x == y
}

proof fn lemma_same_rank(a: RankKey, b: RankKey)
    requires
        key_le(a, b),
        key_le(b, a),
    ensures
        key_order(a, b) == 0,
{
    lemma_key_antisym(a, b);
}

proof fn lemma_top_k_entry(
    cand: spec_fn(int) -> bool,
    key: spec_fn(int) -> RankKey,
    k: int,
    n: int,
    s1: Seq<int>,
    s2: Seq<int>,
    j: int,
)
    requires
        top_k(cand, key, k, n, s1),
        top_k(cand, key, k, n, s2),
        keys_distinct(cand, key, n),
        0 <= j < s1.len(),
        0 <= j < s2.len(),
        forall|i: int| 0 <= i < j ==> s1[i] == s2[i],
    ensures
        s1[j] == s2[j],
{
    let x = s1[j];
    let y = s2[j];
    assert(cand(x) && 0 <= x < n);
    assert(cand(y) && 0 <= y < n);
    if x != y {
        // where does `y` sit in `s1`?
        if s1.contains(y) {
            let p = choose|p: int| 0 <= p < s1.len() && s1[p] == y;
            if p < j {
                assert(s2[p] == y);
                assert(false);
            } else if p > j {
                assert(key_le(key(s1[j]), key(s1[p])));
            }
        } else {
            assert(key_le(key(s1[j]), key(y)));
        }
        // now key(x) <= key(y); where does `x` sit in `s2`?
        if s2.contains(x) {
            let q = choose|q: int| 0 <= q < s2.len() && s2[q] == x;
            if q < j {
                assert(s1[q] == x);
                assert(false);
            } else if q > j {
                assert(key_le(key(s2[j]), key(s2[q])));
            }
        } else {
            assert(key_le(key(s2[j]), key(x)));
        }
        lemma_same_rank(key(x), key(y));
        assert(key_order(key(x), key(y)) == 0);
    }
}

proof fn lemma_top_k_prefix_equal(
    cand: spec_fn(int) -> bool,
    key: spec_fn(int) -> RankKey,
    k: int,
    n: int,
    s1: Seq<int>,
    s2: Seq<int>,
    j: int,
)
    requires
        top_k(cand, key, k, n, s1),
        top_k(cand, key, k, n, s2),
        keys_distinct(cand, key, n),
        0 <= j <= s1.len(),
        j <= s2.len(),
    ensures
        forall|i: int| 0 <= i < j ==> s1[i] == s2[i],
    decreases j,
{
    if j > 0 {
        lemma_top_k_prefix_equal(cand, key, k, n, s1, s2, j - 1);
        lemma_top_k_entry(cand, key, k, n, s1, s2, j - 1);
    }
}

/// With distinct keys there is one best selection.
pub proof fn lemma_top_k_unique(cand: spec_fn(int) -> bool, key: spec_fn(int) -> RankKey, k: int, n: int, s1: Seq<int>, s2: Seq<int>)
    requires
        top_k(cand, key, k, n, s1),
        top_k(cand, key, k, n, s2),
        keys_distinct(cand, key, n),
    ensures
        s1 == s2,
{
    let m = if s1.len() <= s2.len() { s1.len() as int } else { s2.len() as int };
    lemma_top_k_prefix_equal(cand, key, k, n, s1, s2, m);
    if s1.len() < s2.len() {
        let y = s2[s1.len() as int];
        if s1.contains(y) {
            let p = choose|p: int| 0 <= p < s1.len() && s1[p] == y;
            assert(s2[p] == y);
        }
    } else if s2.len() < s1.len() {
        let x = s1[s2.len() as int];
        if s2.contains(x) {
            let q = choose|q: int| 0 <= q < s2.len() && s2[q] == x;
            assert(s1[q] == x);
        }
    }
    assert(s1 =~= s2);
}

/// `perm` rearranges `items1` into `items2`, each item keeping its file times.
pub open spec fn rearranges(
    items1: Seq<SearchItem>,
    items2: Seq<SearchItem>,
    times1: Seq<Option<FileTimes>>,
    times2: Seq<Option<FileTimes>>,
    perm: Seq<int>,
) -> bool {
    let n = items1.len() as int;
    &&& items2.len() == n
    &&& perm.len() == n
    &&& forall|i: int| 0 <= i < n ==> 0 <= #[trigger] perm[i] < n
    &&& forall|i: int| 0 <= i < n ==> items2[i] == items1[#[trigger] perm[i]]
    &&& forall|i: int| 0 <= i < n ==> time_at(times2, i) == time_at(times1, #[trigger] perm[i])
    &&& forall|i: int, j: int| 0 <= i < j < n ==> #[trigger] perm[i] != #[trigger] perm[j]
    &&& forall|x: int| 0 <= x < n ==> #[trigger] reached(perm, x)
}

/// Some position of `perm` holds `x`.
pub open spec fn reached(perm: Seq<int>, x: int) -> bool {
    exists|i: int| 0 <= i < perm.len() && #[trigger] perm[i] == x
}

/// Ranking does not depend on the order of the items: when no id occurs
/// twice, the same items in another order (each with its own file times),
/// ranked for the same query at the same moment, give the same results.
pub proof fn law_ranking_ignores_item_order(
    items1: Seq<SearchItem>,
    items2: Seq<SearchItem>,
    perm: Seq<int>,
    query: Seq<char>,
    limit: int,
    f: SearchFilter,
    times1: Seq<Option<FileTimes>>,
    times2: Seq<Option<FileTimes>>,
    now: int,
    out1: Seq<SearchItem>,
    out2: Seq<SearchItem>,
)
    requires
        rearranges(items1, items2, times1, times2, perm),
        crate::core_service::unique_ids(items1),
        ranked_results(items1, query, limit, f, times1, now, out1),
        ranked_results(items2, query, limit, f, times2, now, out2),
    ensures
        out1 == out2,
{
    let n = items1.len() as int;
    let ctx1 = search_context(query, f, times1, now);
    let ctx2 = search_context(query, f, times2, now);
    let cand1 = cand_fn(items1, ctx1);
    let key1 = key_fn(items1, ctx1);
    let cand2 = cand_fn(items2, ctx2);
    let key2 = key_fn(items2, ctx2);
    let sel1 = choose|sel: Seq<int>|
        #![trigger top_k(cand1, key1, limit, n, sel)]
        top_k(cand1, key1, limit, n, sel) && out1.len() == sel.len() && forall|j: int|
            0 <= j < sel.len() ==> #[trigger] out1[j] == items1[guarded(items1, ctx1, sel)[j]];
    let sel2 = choose|sel: Seq<int>|
        #![trigger top_k(cand2, key2, limit, n, sel)]
        top_k(cand2, key2, limit, n, sel) && out2.len() == sel.len() && forall|j: int|
            0 <= j < sel.len() ==> #[trigger] out2[j] == items2[guarded(items2, ctx2, sel)[j]];
    // the two rankings see the same candidates under the same keys
    assert forall|i: int| 0 <= i < n implies cand2(i) == cand1(#[trigger] perm[i]) && key2(i) == key1(perm[i]) by {
        assert(cand_score(items2, ctx2, i) == cand_score(items1, ctx1, perm[i]));
    }
    // keys of distinct candidates differ, since ids do
    assert(keys_distinct(cand1, key1, n)) by {
        assert forall|x: int, y: int|
            0 <= x < n && 0 <= y < n && cand1(x) && cand1(y) && #[trigger] key_order(key1(x), key1(y)) == 0 implies x
            == y by {
            lemma_key_antisym(key1(x), key1(y));
            if x < y {
                assert(items1[x].id@ != items1[y].id@);
            } else if y < x {
                assert(items1[y].id@ != items1[x].id@);
            }
        }
    }
    // the second selection, read in the first order, is a best selection too
    let m = sel2.map_values(|i: int| perm[i]);
    assert(top_k(cand1, key1, limit, n, m)) by {
        assert forall|j: int| 0 <= j < m.len() implies cand1(#[trigger] m[j]) && 0 <= m[j] < n by {
            assert(cand2(sel2[j]));
        }
        assert forall|a: int, b: int| 0 <= a < b < m.len() implies m[a] != m[b] by {
            assert(sel2[a] != sel2[b]);
            if sel2[a] < sel2[b] {
                assert(perm[sel2[a]] != perm[sel2[b]]);
            } else {
                assert(perm[sel2[b]] != perm[sel2[a]]);
            }
        }
        assert forall|a: int, b: int| 0 <= a < b < m.len() implies key_le(key1(#[trigger] m[a]), key1(#[trigger] m[b])) by {
            assert(key_le(key2(sel2[a]), key2(sel2[b])));
        }
        assert forall|x: int| 0 <= x < n && #[trigger] cand1(x) && !m.contains(x) implies m.len() == limit && forall|a: int|
            0 <= a < m.len() ==> key_le(key1(#[trigger] m[a]), key1(x)) by {
            assert(reached(perm, x));
            let y = choose|i: int| 0 <= i < perm.len() && #[trigger] perm[i] == x;
            assert(cand2(y));
            if sel2.contains(y) {
                let q = choose|q: int| 0 <= q < sel2.len() && sel2[q] == y;
                assert(m[q] == x);
            }
            assert forall|a: int| 0 <= a < m.len() implies key_le(key1(#[trigger] m[a]), key1(x)) by {
                assert(key_le(key2(sel2[a]), key2(y)));
            }
        }
    }
    lemma_top_k_unique(cand1, key1, limit, n, sel1, m);
    // the top-hit correction sees the same two leaders
    if sel2.len() >= 2 {
        assert(rank_key(items2, ctx2, sel2[0]) == rank_key(items1, ctx1, m[0]));
        assert(rank_key(items2, ctx2, sel2[1]) == rank_key(items1, ctx1, m[1]));
        assert(items2[sel2[0]] == items1[m[0]]);
        assert(items2[sel2[1]] == items1[m[1]]);
    }
    assert(guard_swaps(items2, ctx2, sel2) == guard_swaps(items1, ctx1, m));
    assert forall|j: int| 0 <= j < out1.len() implies out1[j] == out2[j] by {
        let g2 = guarded(items2, ctx2, sel2);
        let g1 = guarded(items1, ctx1, m);
        assert(g1[j] == perm[g2[j]]);
        assert(out2[j] == items2[g2[j]]);
    }
    assert(out1 =~= out2);
}

/// Two filters that restrict nothing rank alike.
proof fn lemma_default_filters_rank_alike(
    items: Seq<SearchItem>,
    query: Seq<char>,
    limit: int,
    f1: SearchFilter,
    f2: SearchFilter,
    now: int,
    out: Seq<SearchItem>,
)
    requires
        is_default_filter(f1),
        is_default_filter(f2),
        ranked_results(items, query, limit, f1, Seq::empty(), now, out),
    ensures
        ranked_results(items, query, limit, f2, Seq::empty(), now, out),
{
    let t = Seq::<Option<FileTimes>>::empty();
    let ctx1 = search_context(query, f1, t, now);
    let ctx2 = search_context(query, f2, t, now);
    assert forall|i: int| #![auto] cand_score(items, ctx1, i) == cand_score(items, ctx2, i) by {
        let it = items[i];
        assert(matches_term_filters(it.norm_text(), f1) == matches_term_filters(it.norm_text(), f2));
        assert(passes_filter(it, f1, time_at(t, i), now) == passes_filter(it, f2, time_at(t, i), now));
    }
    let n = items.len() as int;
    assert(cand_fn(items, ctx1) =~= cand_fn(items, ctx2));
    assert(key_fn(items, ctx1) =~= key_fn(items, ctx2));
    let sel = choose|sel: Seq<int>|
        #![trigger top_k(cand_fn(items, ctx1), key_fn(items, ctx1), limit, n, sel)]
        top_k(cand_fn(items, ctx1), key_fn(items, ctx1), limit, n, sel) && out.len() == sel.len() && forall|j: int|
            0 <= j < sel.len() ==> #[trigger] out[j] == items[guarded(items, ctx1, sel)[j]];
    if sel.len() >= 2 {
        assert(rank_key(items, ctx1, sel[0]) == rank_key(items, ctx2, sel[0]));
        assert(rank_key(items, ctx1, sel[1]) == rank_key(items, ctx2, sel[1]));
    }
    assert(guarded(items, ctx1, sel) == guarded(items, ctx2, sel));
    assert(top_k(cand_fn(items, ctx2), key_fn(items, ctx2), limit, n, sel));
}

/// A search under the default filter does not depend on the order of the
/// items: when no id occurs twice, the same items in another order, searched
/// for the same query at the same moment, give the same results.
pub proof fn law_search_ignores_item_order(
    items1: Seq<SearchItem>,
    items2: Seq<SearchItem>,
    perm: Seq<int>,
    query: Seq<char>,
    limit: int,
    now: int,
    out1: Seq<SearchItem>,
    out2: Seq<SearchItem>,
)
    requires
        rearranges(items1, items2, Seq::empty(), Seq::empty(), perm),
        crate::core_service::unique_ids(items1),
        default_search(items1, query, limit, now, out1),
        default_search(items2, query, limit, now, out2),
    ensures
        out1 == out2,
{
    if normalize(query).len() == 0 {
        assert(out1 =~= out2);
    } else {
        let f1 = choose|f: SearchFilter|
            is_default_filter(f) && ranked_results(items1, query, limit, f, Seq::empty(), now, out1);
        let f2 = choose|f: SearchFilter|
            is_default_filter(f) && ranked_results(items2, query, limit, f, Seq::empty(), now, out2);
        lemma_default_filters_rank_alike(items2, query, limit, f2, f1, now, out2);
        law_ranking_ignores_item_order(
            items1,
            items2,
            perm,
            query,
            limit,
            f1,
            Seq::empty(),
            Seq::empty(),
            now,
            out1,
            out2,
        );
    }
}

/// What a `modified:` or `created:` window name keeps, in any ASCII case and
/// with spaces around it: `today` keeps times of the last day, `week` or
/// `last_week` of the last seven days, `month` or `last_month` of the last 31
/// days (times after the epoch and not after now).
pub proof fn law_time_window_names_keep_their_spans(v: Seq<char>, value: i64, now: int)
    requires
        0 < value <= now,
    ensures
        text::ascii_lower(text::trim(v)) == "today"@ ==> time_filter(v) == Some(TimeFilterWindow::Today) && (time_ok(
            time_filter(v),
            Some(value),
            now,
        ) <==> now - value <= 24 * 3600),
        text::ascii_lower(text::trim(v)) == "week"@ || text::ascii_lower(text::trim(v)) == "last_week"@ ==> time_filter(v)
            == Some(TimeFilterWindow::Week) && (time_ok(time_filter(v), Some(value), now) <==> now - value <= 7 * 24
            * 3600),
        text::ascii_lower(text::trim(v)) == "month"@ || text::ascii_lower(text::trim(v)) == "last_month"@ ==> time_filter(
            v,
        ) == Some(TimeFilterWindow::Month) && (time_ok(time_filter(v), Some(value), now) <==> now - value <= 31 * 24
            * 3600),
        !(text::ascii_lower(text::trim(v)) == "today"@ || text::ascii_lower(text::trim(v)) == "week"@ || text::ascii_lower(
            text::trim(v),
        ) == "last_week"@ || text::ascii_lower(text::trim(v)) == "month"@ || text::ascii_lower(text::trim(v))
            == "last_month"@) ==> time_filter(v) is None,
{
    reveal_strlit("today");
    reveal_strlit("week");
    reveal_strlit("last_week");
    reveal_strlit("month");
    reveal_strlit("last_month");
    let n = text::ascii_lower(text::trim(v));
    if n == "week"@ || n == "last_week"@ {
        assert(n != "today"@) by {
            if n == "today"@ {
                assert(n[0] == 't');
            }
        }
    }
    if n == "month"@ || n == "last_month"@ {
        assert(n != "today"@ && n != "week"@ && n != "last_week"@) by {
            if n == "today"@ || n == "week"@ {
                assert(n.len() != 5 || n[0] == 't');
            }
            if n == "last_week"@ {
                assert(n[5] == 'w');
            }
        }
    }
}

/// A search with exclude terms never returns an item whose normalized search
/// text holds a non-empty exclude term anywhere.
pub proof fn law_excluded_terms_remove_items(
    items: Seq<SearchItem>,
    query: Seq<char>,
    limit: int,
    f: SearchFilter,
    times: Seq<Option<FileTimes>>,
    now: int,
    out: Seq<SearchItem>,
    t: int,
)
    requires
        ranked_results(items, query, limit, f, times, now, out),
        0 <= t < f.exclude_terms@.len(),
        f.exclude_terms@[t]@.len() > 0,
    ensures
        forall|k: int, at: int|
            0 <= k < out.len() && 0 <= at && at + f.exclude_terms@[t]@.len() <= out[k].norm_text().len()
                ==> #[trigger] out[k].norm_text().subrange(at, at + f.exclude_terms@[t]@.len()) != f.exclude_terms@[t]@,
{
    let term = f.exclude_terms@[t]@;
    let ctx = search_context(query, f, times, now);
    let n = items.len() as int;
    let sel = choose|sel: Seq<int>|
        #![trigger top_k(cand_fn(items, ctx), key_fn(items, ctx), limit, n, sel)]
        top_k(cand_fn(items, ctx), key_fn(items, ctx), limit, n, sel) && out.len() == sel.len() && forall|j: int|
            0 <= j < sel.len() ==> #[trigger] out[j] == items[guarded(items, ctx, sel)[j]];
    let g = guarded(items, ctx, sel);
    assert(!ctx.fast);
    assert forall|k: int, at: int|
        0 <= k < out.len() && 0 <= at && at + term.len() <= out[k].norm_text().len() implies #[trigger] out[k].norm_text().subrange(
        at,
        at + term.len(),
    ) != term by {
        let idx = g[k];
        assert(out[k] == items[idx]);
        let j = if guard_swaps(items, ctx, sel) && k == 0 {
            1int
        } else if guard_swaps(items, ctx, sel) && k == 1 {
            0int
        } else {
            k
        };
        assert(idx == sel[j]);
        assert(cand_fn(items, ctx)(sel[j]));
        assert(is_candidate(items, ctx, idx));
        let it = items[idx];
        assert(passes_filter(it, f, time_at(times, idx), now));
        assert(matches_term_filters(it.norm_text(), f));
        if it.norm_text().subrange(at, at + term.len()) == term {
            assert(text::occurs_at(it.norm_text(), term, at));
            assert(term_hit(it.norm_text(), f.exclude_terms@[t]@));
        }
    }
}

} // verus!
