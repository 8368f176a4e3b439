//! Search matching: the query is split into whitespace-separated words and
//! every word must match the text, either as a contiguous substring or, for
//! words of at least four characters, as a subsequence (`hcfg` matches
//! `herdr configurable picker`). Short words stay substring-only so that a
//! query like `tmp` does not hit most labels.

use vstd::prelude::*;
use crate::text::{
    chars_of, char_is_whitespace, is_whitespace, law_whitespace_is_unicode_white_space,
    unicode_white_space,
};

verus! {

/// `q[i..j]` is a word of `q`: a maximal run of non-whitespace characters.
pub open spec fn is_word(q: Seq<char>, i: int, j: int) -> bool {
    &&& 0 <= i < j <= q.len()
    &&& forall|k: int| i <= k < j ==> !is_whitespace(#[trigger] q[k])
    &&& (i == 0 || is_whitespace(q[i - 1]))
    &&& (j == q.len() || is_whitespace(q[j]))
}

/// `needle` occurs in `text` as a contiguous run.
pub open spec fn occurs_in(needle: Seq<char>, text: Seq<char>) -> bool {
    exists|k: int|
        0 <= k && k + needle.len() <= text.len() && #[trigger] text.subrange(k, k + needle.len())
            == needle
}

/// `idx` picks, in increasing positions of `text`, the characters of `needle`.
pub open spec fn is_embedding(idx: Seq<int>, needle: Seq<char>, text: Seq<char>) -> bool {
    &&& idx.len() == needle.len()
    &&& forall|a: int, b: int| 0 <= a < b < idx.len() ==> idx[a] < idx[b]
    &&& forall|a: int|
        0 <= a < idx.len() ==> 0 <= #[trigger] idx[a] < text.len() && text[idx[a]] == needle[a]
}

/// `needle` is a (not necessarily contiguous) subsequence of `text`.
pub open spec fn is_subsequence(needle: Seq<char>, text: Seq<char>) -> bool {
    exists|idx: Seq<int>| #[trigger] is_embedding(idx, needle, text)
}

/// Words of at least four characters may match as subsequences.
pub open spec fn fuzzy_allowed_for(needle: Seq<char>) -> bool {
    needle.len() >= 4
}

/// How a single query word matches a text.
pub open spec fn needle_matches(text: Seq<char>, needle: Seq<char>) -> bool {
    occurs_in(needle, text) || (fuzzy_allowed_for(needle) && is_subsequence(needle, text))
}

/// Every word of `query` matches `text`.
pub open spec fn query_matches(text: Seq<char>, query: Seq<char>) -> bool {
    forall|i: int, j: int|
        #[trigger] is_word(query, i, j) ==> needle_matches(text, query.subrange(i, j))
}


/// `idx` restricted to its first `m` entries embeds the first `m` characters.
proof fn lemma_embedding_prefix(idx: Seq<int>, needle: Seq<char>, text: Seq<char>, m: int)
    requires
        is_embedding(idx, needle, text),
        0 <= m <= needle.len(),
    ensures
        is_embedding(idx.take(m), needle.take(m), text),
{
}

/// Whether a word is long enough to be matched as a subsequence.
fn fuzzy_allowed(needle: &[char]) -> (r: bool)
    ensures
        r == fuzzy_allowed_for(needle@),
{
    needle.len() >= 4
}

/// Whether `needle` occurs contiguously in `text`.
fn occurs(text: &[char], needle: &[char]) -> (r: bool)
    ensures
        r == occurs_in(needle@, text@),
{
    let n = needle.len();
    let t = text.len();
    if n > t {
        assert forall|k: int|
            0 <= k && k + needle@.len() <= text@.len() implies #[trigger] text@.subrange(
            k,
            k + needle@.len(),
        ) != needle@ by {}
        return false;
    }
    let mut k: usize = 0;
    while k <= t - n
        invariant
            n == needle@.len(),
            t == text@.len(),
            n <= t,
            k <= t - n + 1,
            forall|k2: int|
                0 <= k2 < k ==> #[trigger] text@.subrange(k2, k2 + needle@.len()) != needle@,
        decreases t - n + 1 - k,
    {
        let mut j: usize = 0;
        let mut same = true;
        while j < n
            invariant
                n == needle@.len(),
                t == text@.len(),
                k + n <= t,
                j <= n,
                same == (forall|a: int| 0 <= a < j ==> text@[k + a] == needle@[a]),
            decreases n - j,
        {
            if text[k + j] != needle[j] {
                same = false;
            }
            j = j + 1;
        }
        if same {
            assert(text@.subrange(k as int, k + needle@.len()) =~= needle@);
            return true;
        }
        assert(text@.subrange(k as int, k + needle@.len()) != needle@) by {
            let a = choose|a: int| 0 <= a < n && text@[k + a] != needle@[a];
            assert(text@.subrange(k as int, k + needle@.len())[a] == text@[k + a]);
        }
        k = k + 1;
    }
    false
}


/// Whether `needle` is a subsequence of `text`, found by matching each
/// character of `needle` at its earliest possible position.
fn fuzzy_subsequence(text: &[char], needle: &[char]) -> (r: bool)
    ensures
        r == is_subsequence(needle@, text@),
{
    let n = needle.len();
    if n == 0 {
        assert(is_embedding(Seq::<int>::empty(), needle@, text@));
        return true;
    }
    let mut k: usize = 0;
    let ghost mut idx: Seq<int> = Seq::empty();
    let t = text.len();
    let mut i: usize = 0;
    proof {
        assert(is_embedding(idx, needle@.take(0), text@.take(0)));
        if is_subsequence(needle@.take(1), text@.take(0)) {
            let w = choose|w: Seq<int>| #[trigger] is_embedding(w, needle@.take(1), text@.take(0));
            assert(0 <= w[0] < text@.take(0).len());
        }
    }
    while i < t
        invariant
            n == needle@.len(),
            t == text@.len(),
            0 < n,
            k < n,
            i <= t,
            is_embedding(idx, needle@.take(k as int), text@.take(i as int)),
            !is_subsequence(needle@.take(k + 1), text@.take(i as int)),
        decreases t - i,
    {
        if text[i] == needle[k] {
            proof {
                let idx2 = idx.push(i as int);
                assert(is_embedding(idx2, needle@.take(k + 1), text@.take(i + 1))) by {
                    assert forall|a: int| 0 <= a < idx2.len() implies 0 <= #[trigger] idx2[a] < (
                    i + 1) && text@.take(i + 1)[idx2[a]] == needle@.take(k + 1)[a] by {
                        if a < k {
                            assert(idx2[a] == idx[a]);
                            assert(text@.take(i as int)[idx[a]] == needle@.take(k as int)[a]);
                        }
                    }
                }
                idx = idx2;
            }
            if k + 1 == n {
                assert(needle@.take(n as int) =~= needle@);
                assert(is_embedding(idx, needle@, text@)) by {
                    assert forall|a: int| 0 <= a < idx.len() implies 0 <= #[trigger] idx[a]
                        < text@.len() && text@[idx[a]] == needle@[a] by {
                        assert(text@.take(i + 1)[idx[a]] == needle@.take(n as int)[a]);
                    }
                }
                return true;
            }
            proof {
                // No longer prefix fits into text[..i + 1]: its last two
                // characters would both have to sit at or before `i`.
                if is_subsequence(needle@.take(k + 2), text@.take(i + 1)) {
                    let w = choose|w: Seq<int>| #[trigger]
                        is_embedding(w, needle@.take(k + 2), text@.take(i + 1));
                    let w2 = w.take(k + 1);
                    assert(w[k as int] < w[k + 1]);
                    assert(is_embedding(w2, needle@.take(k + 1), text@.take(i as int))) by {
                        assert forall|a: int| 0 <= a < w2.len() implies 0 <= #[trigger] w2[a] < i
                            && text@.take(i as int)[w2[a]] == needle@.take(k + 1)[a] by {
                            assert(w[a] <= w[k as int]);
                            assert(text@.take(i + 1)[w[a]] == needle@.take(k + 2)[a]);
                        }
                    }
                }
            }
            k = k + 1;
        } else {
            proof {
                if is_subsequence(needle@.take(k + 1), text@.take(i + 1)) {
                    let w = choose|w: Seq<int>| #[trigger]
                        is_embedding(w, needle@.take(k + 1), text@.take(i + 1));
                    if w[k as int] == i {
                        assert(text@.take(i + 1)[w[k as int]] == needle@.take(k + 1)[k as int]);
                    } else {
                        assert(is_embedding(w, needle@.take(k + 1), text@.take(i as int))) by {
                            assert forall|a: int| 0 <= a < w.len() implies 0 <= #[trigger] w[a] < i
                                && text@.take(i as int)[w[a]] == needle@.take(k + 1)[a] by {
                                assert(w[a] <= w[k as int]);
                                assert(text@.take(i + 1)[w[a]] == needle@.take(k + 1)[a]);
                            }
                        }
                    }
                }
            }
        }
        i = i + 1;
    }
    proof {
        assert(text@.take(t as int) =~= text@);
        if is_subsequence(needle@, text@) {
            let w = choose|w: Seq<int>| #[trigger] is_embedding(w, needle@, text@);
            lemma_embedding_prefix(w, needle@, text@, k + 1);
        }
    }
    false
}


/// True when every whitespace-separated word of the query matches the text.
/// Both sides must already be lowercase; an empty or blank query matches
/// everything.
pub fn lowered_query_matches(lowered_text: &str, lowered_query: &str) -> (r: bool)
    ensures
        r == query_matches(lowered_text@, lowered_query@),
{
    let text = chars_of(lowered_text);
    let q = chars_of(lowered_query);
    let n = q.len();
    let mut i: usize = 0;
    while i < n
        invariant
            text@ == lowered_text@,
            q@ == lowered_query@,
            n == q@.len(),
            i <= n,
            i == 0 || i == n || is_whitespace(q@[i - 1]) || is_whitespace(q@[i as int]),
            forall|a: int, b: int|
                #[trigger] is_word(q@, a, b) && a < i ==> needle_matches(text@, q@.subrange(a, b)),
        decreases n - i,
    {
        if char_is_whitespace(q[i]) {
            i = i + 1;
        } else {
            let start = i;
            while i < n && !char_is_whitespace(q[i])
                invariant
                    n == q@.len(),
                    start < n,
                    start <= i <= n,
                    forall|k: int| start <= k < i ==> !is_whitespace(#[trigger] q@[k]),
                decreases n - i,
            {
                i = i + 1;
            }
            assert(is_word(q@, start as int, i as int));
            let needle = &q.as_slice()[start..i];
            assert(needle@ == q@.subrange(start as int, i as int));
            let matched = occurs(text.as_slice(), needle) || (fuzzy_allowed(needle)
                && fuzzy_subsequence(text.as_slice(), needle));
            if !matched {
                return false;
            }
            assert forall|a: int, b: int| #[trigger]
                is_word(q@, a, b) && a < i implies needle_matches(text@, q@.subrange(a, b)) by {
                if a >= start {
                    if a > start {
                        assert(!is_whitespace(q@[a - 1]));
                    } else if b < i {
                        assert(!is_whitespace(q@[b]));
                    } else if b > i {
                        assert(!is_whitespace(q@[i as int]));
                    }
                }
            }
        }
    }
    true
}


/// A query made only of whitespace (the empty query among them) matches
/// every text.
pub proof fn law_blank_query_matches_everything(text: Seq<char>, query: Seq<char>)
    requires
        forall|k: int| 0 <= k < query.len() ==> is_whitespace(#[trigger] query[k]),
    ensures
        query_matches(text, query),
{
    assert forall|i: int, j: int| #[trigger] is_word(query, i, j) implies needle_matches(
        text,
        query.subrange(i, j),
    ) by {
        assert(!is_whitespace(query[i]));
    }
}

/// A single word of fewer than four characters matches only as a
/// contiguous substring, never as a scattered subsequence.
pub proof fn law_short_words_match_only_as_substrings(text: Seq<char>, word: Seq<char>)
    requires
        0 < word.len() < 4,
        forall|k: int| 0 <= k < word.len() ==> !is_whitespace(#[trigger] word[k]),
    ensures
        query_matches(text, word) <==> occurs_in(word, text),
{
    assert(is_word(word, 0, word.len() as int));
    assert(word.subrange(0, word.len() as int) =~= word);
    assert forall|i: int, j: int| #[trigger] is_word(word, i, j) implies i == 0 && j
        == word.len() by {
        if i > 0 {
            assert(!is_whitespace(word[i - 1]));
        }
        if j < word.len() {
            assert(!is_whitespace(word[j]));
        }
    }
}

/// Joining two queries with whitespace asks for both: the joined query
/// matches exactly when each part does, so every word must match and their
/// order does not matter.
pub proof fn law_joined_query_needs_both(text: Seq<char>, q1: Seq<char>, sep: char, q2: Seq<char>)
    requires
        is_whitespace(sep),
    ensures
        query_matches(text, q1 + seq![sep] + q2) <==> (query_matches(text, q1) && query_matches(
            text,
            q2,
        )),
{
    let q = q1 + seq![sep] + q2;
    let m = q1.len() as int;
    assert(q[m] == sep);
    assert forall|a: int, b: int| #[trigger] is_word(q1, a, b) implies is_word(q, a, b)
        && q.subrange(a, b) == q1.subrange(a, b) by {
        assert forall|k: int| a <= k < b implies !is_whitespace(#[trigger] q[k]) by {
            assert(q[k] == q1[k]);
        }
        assert(q.subrange(a, b) =~= q1.subrange(a, b));
    }
    assert forall|a: int, b: int| #[trigger] is_word(q2, a, b) implies is_word(
        q,
        a + m + 1,
        b + m + 1,
    ) && q.subrange(a + m + 1, b + m + 1) == q2.subrange(a, b) by {
        assert forall|k: int| a + m + 1 <= k < b + m + 1 implies !is_whitespace(#[trigger] q[k]) by {
            assert(q[k] == q2[k - m - 1]);
            assert(!is_whitespace(q2[k - m - 1]));
        }
        if a > 0 {
            assert(q[a + m] == q2[a - 1]);
        }
        if b < q2.len() {
            assert(q[b + m + 1] == q2[b]);
        }
        assert(q.subrange(a + m + 1, b + m + 1) =~= q2.subrange(a, b));
    }
    if query_matches(text, q1) && query_matches(text, q2) {
        assert forall|a: int, b: int| #[trigger] is_word(q, a, b) implies needle_matches(
            text,
            q.subrange(a, b),
        ) by {
            if a <= m && m < b {
                assert(!is_whitespace(q[m]));
            }
            if b <= m {
                assert forall|k: int| a <= k < b implies !is_whitespace(#[trigger] q1[k]) by {
                    assert(q[k] == q1[k]);
                    assert(!is_whitespace(q[k]));
                }
                if a > 0 {
                    assert(q[a - 1] == q1[a - 1]);
                }
                if b < m {
                    assert(q[b] == q1[b]);
                }
                assert(is_word(q1, a, b));
                assert(q.subrange(a, b) =~= q1.subrange(a, b));
            } else {
                assert(a > m);
                let a2 = a - m - 1;
                let b2 = b - m - 1;
                assert forall|k: int| a2 <= k < b2 implies !is_whitespace(#[trigger] q2[k]) by {
                    assert(q[k + m + 1] == q2[k]);
                    assert(!is_whitespace(q[k + m + 1]));
                }
                if a2 > 0 {
                    assert(q[a - 1] == q2[a2 - 1]);
                }
                if b2 < q2.len() {
                    assert(q[b] == q2[b2]);
                }
                assert(is_word(q2, a2, b2));
                assert(q.subrange(a, b) =~= q2.subrange(a2, b2));
            }
        }
    }
    if query_matches(text, q) {
        assert forall|a: int, b: int| #[trigger] is_word(q1, a, b) implies needle_matches(
            text,
            q1.subrange(a, b),
        ) by {
            assert(is_word(q, a, b));
        }
        assert forall|a: int, b: int| #[trigger] is_word(q2, a, b) implies needle_matches(
            text,
            q2.subrange(a, b),
        ) by {
            assert(is_word(q, a + m + 1, b + m + 1));
        }
    }
}

/// A query holding no Unicode `White_Space` character is one word: it
/// matches a text exactly when it occurs in it, or, being four characters
/// or longer, is spread through it in order.
pub proof fn law_a_query_without_white_space_is_one_word(text: Seq<char>, query: Seq<char>)
    requires
        query.len() > 0,
        forall|k: int| 0 <= k < query.len() ==> !unicode_white_space(#[trigger] query[k]),
    ensures
        query_matches(text, query) <==> (occurs_in(query, text) || (query.len() >= 4
            && is_subsequence(query, text))),
{
    assert forall|k: int| 0 <= k < query.len() implies !is_whitespace(#[trigger] query[k]) by {
        law_whitespace_is_unicode_white_space(query[k]);
    }
    assert(is_word(query, 0, query.len() as int));
    assert(query.subrange(0, query.len() as int) =~= query);
    assert forall|i: int, j: int| #[trigger] is_word(query, i, j) implies i == 0 && j
        == query.len() by {
        if i > 0 {
            assert(!is_whitespace(query[i - 1]));
        }
        if j < query.len() {
            assert(!is_whitespace(query[j]));
        }
    }
}

} // verus!
