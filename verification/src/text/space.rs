//! Whitespace: the words of a text, and a text without the whitespace at
//! its ends.

use crate::text::chars::slice;
use crate::text::split::texts;
use vstd::prelude::*;

verus! {

/// Whitespace in the sense of the Unicode property `White_Space`.
pub open spec fn is_space(c: char) -> bool {
    let n = c as u32;
    ||| 0x09 <= n <= 0x0D
    ||| n == 0x20
    ||| n == 0x85
    ||| n == 0xA0
    ||| n == 0x1680
    ||| 0x2000 <= n <= 0x200A
    ||| n == 0x2028
    ||| n == 0x2029
    ||| n == 0x202F
    ||| n == 0x205F
    ||| n == 0x3000
}

/// Whether `c` is whitespace.
pub fn is_whitespace(c: char) -> (r: bool)
    ensures
        r == is_space(c),
{
    let n: u32 = c as u32;
    (0x09 <= n && n <= 0x0D) || n == 0x20 || n == 0x85 || n == 0xA0 || n == 0x1680 || (0x2000 <= n
        && n <= 0x200A) || n == 0x2028 || n == 0x2029 || n == 0x202F || n == 0x205F || n == 0x3000
}

/// The words of `s`: its longest runs of characters that are not whitespace.
/// `start` is the beginning of the run under way and `i` the index reached.
pub open spec fn words_from(s: Seq<char>, start: int, i: int) -> Seq<Seq<char>>
    decreases s.len() - i,
{
    let word = if start < i {
        seq![s.subrange(start, i)]
    } else {
        Seq::empty()
    };
    if i < 0 || i >= s.len() {
        word
    } else if is_space(s[i]) {
        word + words_from(s, i + 1, i + 1)
    } else {
        words_from(s, start, i + 1)
    }
}

/// The words of `s`.
pub open spec fn words(s: Seq<char>) -> Seq<Seq<char>> {
    words_from(s, 0, 0)
}

/// The words of `s`, in order. A text of whitespace alone has none.
pub fn split_whitespace(s: &Vec<char>) -> (out: Vec<Vec<char>>)
    ensures
        texts(out@) == words(s@),
{
    let mut out: Vec<Vec<char>> = Vec::new();
    let mut start: usize = 0;
    let mut i: usize = 0;
    assert(texts(out@) + words_from(s@, 0, 0) =~= words(s@));
    while i < s.len()
        invariant
            start <= i <= s.len(),
            texts(out@) + words_from(s@, start as int, i as int) == words(s@),
        decreases s.len() - i,
    {
        if is_whitespace(s[i]) {
            let ghost before = out@;
            let ghost rest = words_from(s@, i + 1, i + 1);
            if start < i {
                let word = slice(s, start, i);
                out.push(word);
                assert(texts(out@) =~= texts(before).push(word@));
                assert(texts(out@) + rest =~= texts(before) + (seq![word@] + rest));
            } else {
                assert(texts(out@) + rest =~= texts(before) + (Seq::<Seq<char>>::empty() + rest));
            }
            i += 1;
            start = i;
        } else {
            i += 1;
        }
    }
    if start < i {
        let ghost before = out@;
        let word = slice(s, start, i);
        out.push(word);
        assert(texts(out@) =~= texts(before).push(word@));
        assert(texts(out@) =~= texts(before) + seq![word@]);
    } else {
        assert(texts(out@) + Seq::<Seq<char>>::empty() =~= texts(out@));
    }
    out
}

/// A text that is not empty and holds no whitespace.
pub open spec fn is_clean_word(w: Seq<char>) -> bool {
    &&& w.len() > 0
    &&& forall|k: int| 0 <= k < w.len() ==> !is_space(#[trigger] w[k])
}

/// Every word is a clean word.
pub proof fn lemma_words_from(s: Seq<char>, start: int, i: int)
    requires
        0 <= start <= i <= s.len(),
        forall|k: int| start <= k < i ==> !is_space(#[trigger] s[k]),
    ensures
        forall|n: int|
            0 <= n < words_from(s, start, i).len() ==> is_clean_word(
                #[trigger] words_from(s, start, i)[n],
            ),
    decreases s.len() - i,
{
    let word = s.subrange(start, i);
    if start < i {
        assert(is_clean_word(word)) by {
            assert forall|k: int| 0 <= k < word.len() implies !is_space(#[trigger] word[k]) by {
                assert(word[k] == s[start + k]);
            }
        }
    }
    let all = words_from(s, start, i);
    let first: Seq<Seq<char>> = if start < i {
        seq![word]
    } else {
        Seq::empty()
    };
    if i >= s.len() {
        assert(all == first);
        assert forall|n: int| 0 <= n < all.len() implies is_clean_word(#[trigger] all[n]) by {
            assert(all[n] == word);
        }
    } else if is_space(s[i]) {
        let rest = words_from(s, i + 1, i + 1);
        lemma_words_from(s, i + 1, i + 1);
        assert(all == first + rest);
        assert forall|n: int| 0 <= n < all.len() implies is_clean_word(#[trigger] all[n]) by {
            if n < first.len() {
                assert(all[n] == word);
            } else {
                assert(all[n] == rest[n - first.len()]);
            }
        }
    } else {
        assert forall|k: int| start <= k < i + 1 implies !is_space(#[trigger] s[k]) by {}
        lemma_words_from(s, start, i + 1);
        assert(all == words_from(s, start, i + 1));
    }
}

/// Every word of a text is a clean word.
pub proof fn lemma_words(s: Seq<char>)
    ensures
        forall|n: int| 0 <= n < words(s).len() ==> is_clean_word(#[trigger] words(s)[n]),
{
    lemma_words_from(s, 0, 0);
}

/// The index of the first character at or after `i` that is not whitespace;
/// the length of `s` where there is none.
pub open spec fn lead(s: Seq<char>, i: int) -> int
    decreases s.len() - i,
{
    if 0 <= i < s.len() && is_space(s[i]) {
        lead(s, i + 1)
    } else {
        i
    }
}

/// The index just after the last character before `j` that is not
/// whitespace; 0 where there is none.
pub open spec fn trail(s: Seq<char>, j: int) -> int
    decreases j,
{
    if 0 < j <= s.len() && is_space(s[j - 1]) {
        trail(s, j - 1)
    } else {
        j
    }
}

/// `s` without the whitespace at its two ends.
pub open spec fn trimmed(s: Seq<char>) -> Seq<char> {
    let a = lead(s, 0);
    let b = trail(s, s.len() as int);
    if a < b {
        s.subrange(a, b)
    } else {
        Seq::empty()
    }
}

/// `s` without the whitespace at its two ends.
pub fn trim(s: &Vec<char>) -> (out: Vec<char>)
    ensures
        out@ == trimmed(s@),
{
    let mut a: usize = 0;
    while a < s.len() && is_whitespace(s[a])
        invariant
            a <= s.len(),
            lead(s@, a as int) == lead(s@, 0),
        decreases s.len() - a,
    {
        a += 1;
    }
    let mut b: usize = s.len();
    while b > 0 && is_whitespace(s[b - 1])
        invariant
            b <= s.len(),
            trail(s@, b as int) == trail(s@, s.len() as int),
        decreases b,
    {
        b -= 1;
    }
    if a < b {
        slice(s, a, b)
    } else {
        Vec::new()
    }
}

/// Between `i` and `lead(s, i)` stands whitespace only, and none at `lead(s, i)`.
pub proof fn lemma_lead(s: Seq<char>, i: int)
    requires
        0 <= i <= s.len(),
    ensures
        i <= lead(s, i) <= s.len(),
        forall|k: int| i <= k < lead(s, i) ==> is_space(#[trigger] s[k]),
        lead(s, i) < s.len() ==> !is_space(s[lead(s, i)]),
    decreases s.len() - i,
{
    if i < s.len() && is_space(s[i]) {
        lemma_lead(s, i + 1);
    }
}

/// Between `trail(s, j)` and `j` stands whitespace only, and none just
/// before `trail(s, j)`.
pub proof fn lemma_trail(s: Seq<char>, j: int)
    requires
        0 <= j <= s.len(),
    ensures
        0 <= trail(s, j) <= j,
        forall|k: int| trail(s, j) <= k < j ==> is_space(#[trigger] s[k]),
        trail(s, j) > 0 ==> !is_space(s[trail(s, j) - 1]),
    decreases j,
{
    if 0 < j && is_space(s[j - 1]) {
        lemma_trail(s, j - 1);
    }
}

/// A trimmed text neither begins nor ends with whitespace; it is empty
/// exactly when the text holds whitespace only; and the text is made of
/// whitespace, the trimmed text, and whitespace.
pub proof fn lemma_trimmed(s: Seq<char>)
    ensures
        trimmed(s).len() > 0 ==> !is_space(trimmed(s).first()) && !is_space(trimmed(s).last()),
        trimmed(s).len() == 0 <==> forall|k: int| 0 <= k < s.len() ==> is_space(#[trigger] s[k]),
        exists|a: int, b: int|
            0 <= a <= b <= s.len() && trimmed(s) == #[trigger] s.subrange(a, b) && (forall|k: int|
                0 <= k < a || b <= k < s.len() ==> is_space(#[trigger] s[k])),
{
    let a = lead(s, 0);
    let b = trail(s, s.len() as int);
    lemma_lead(s, 0);
    lemma_trail(s, s.len() as int);
    if a < b {
        assert(trimmed(s) == s.subrange(a, b));
        assert(!is_space(s[a]));
    } else {
        assert(trimmed(s) =~= s.subrange(b, b));
        assert forall|k: int| 0 <= k < s.len() implies is_space(#[trigger] s[k]) by {}
    }
}

/// A text that neither begins nor ends with whitespace is left as it is.
pub proof fn lemma_trimmed_same(s: Seq<char>)
    requires
        s.len() > 0 ==> !is_space(s.first()) && !is_space(s.last()),
    ensures
        trimmed(s) == s,
{
    if s.len() > 0 {
        assert(s.subrange(0, s.len() as int) =~= s);
    } else {
        assert(s =~= Seq::<char>::empty());
    }
}

} // verus!
