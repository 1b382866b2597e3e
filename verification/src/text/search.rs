//! Searching a text for a pattern, and leaving a pattern out of a text.

use vstd::prelude::*;

verus! {

/// `pat` stands in `s` at index `i`.
pub open spec fn occurs_at(s: Seq<char>, pat: Seq<char>, i: int) -> bool {
    &&& 0 <= i
    &&& i + pat.len() <= s.len()
    &&& s.subrange(i, i + pat.len()) == pat
}

/// `pat` stands somewhere in `s`.
pub open spec fn contains(s: Seq<char>, pat: Seq<char>) -> bool {
    exists|i: int| occurs_at(s, pat, i)
}

/// The least index at or after `i` where `pat` stands in `s`; the length of
/// `s` where there is none.
pub open spec fn find_from(s: Seq<char>, pat: Seq<char>, i: int) -> int
    decreases s.len() - i,
{
    if i < 0 || i >= s.len() || i + pat.len() > s.len() {
        s.len() as int
    } else if occurs_at(s, pat, i) {
        i
    } else {
        find_from(s, pat, i + 1)
    }
}

/// What `find_from` finds is an occurrence, and nothing occurs before it.
pub proof fn lemma_find_from(s: Seq<char>, pat: Seq<char>, i: int)
    requires
        0 <= i,
    ensures
        i <= find_from(s, pat, i) || find_from(s, pat, i) == s.len(),
        find_from(s, pat, i) <= s.len(),
        find_from(s, pat, i) < s.len() ==> occurs_at(s, pat, find_from(s, pat, i)),
        forall|j: int| i <= j < find_from(s, pat, i) ==> !occurs_at(s, pat, j),
        find_from(s, pat, i) == s.len() && pat.len() > 0 ==> forall|j: int|
            i <= j ==> !occurs_at(s, pat, j),
    decreases s.len() - i,
{
    if i >= s.len() || i + pat.len() > s.len() {
    } else if occurs_at(s, pat, i) {
    } else {
        lemma_find_from(s, pat, i + 1);
    }
}

/// A non-empty `pat` stands in `s` exactly when the search from the start
/// ends before the end of `s`.
pub proof fn lemma_contains(s: Seq<char>, pat: Seq<char>)
    requires
        pat.len() > 0,
    ensures
        contains(s, pat) <==> find_from(s, pat, 0) < s.len(),
{
    lemma_find_from(s, pat, 0);
}

/// Whether `pat` stands in `s` at index `i`; false where `i` lies beyond `s`.
pub fn matches_at(s: &Vec<char>, pat: &Vec<char>, i: usize) -> (r: bool)
    ensures
        r == occurs_at(s@, pat@, i as int),
{
    if i > s.len() || pat.len() > s.len() - i {
        return false;
    }
    let mut k: usize = 0;
    while k < pat.len()
        invariant
            i + pat.len() <= s.len(),
            k <= pat.len(),
            forall|j: int| 0 <= j < k ==> s@[i + j] == pat@[j],
        decreases pat.len() - k,
    {
        if s[i + k] != pat[k] {
            assert(s@.subrange(i as int, i + pat.len())[k as int] == s@[i + k]);
            return false;
        }
        k += 1;
    }
    assert(s@.subrange(i as int, i + pat.len()) =~= pat@);
    true
}

/// The first index at or after `from` where `pat` stands in `s`, or the
/// length of `s`.
pub fn find(s: &Vec<char>, pat: &Vec<char>, from: usize) -> (r: usize)
    ensures
        r == find_from(s@, pat@, from as int),
        r <= s.len(),
{
    let mut i: usize = from;
    while i <= s.len() && pat.len() <= s.len() - i
        invariant
            find_from(s@, pat@, i as int) == find_from(s@, pat@, from as int),
        decreases s.len() - i,
    {
        if matches_at(s, pat, i) {
            return i;
        }
        if i == s.len() {
            return i;
        }
        i += 1;
    }
    s.len()
}

/// Whether `pat` stands somewhere in `s`. An empty `pat` stands in every text.
pub fn has(s: &Vec<char>, pat: &Vec<char>) -> (r: bool)
    ensures
        r == contains(s@, pat@),
{
    if pat.len() == 0 {
        assert(s@.subrange(0, 0) =~= pat@);
        assert(occurs_at(s@, pat@, 0));
        return true;
    }
    proof {
        lemma_contains(s@, pat@);
    }
    find(s, pat, 0) < s.len()
}

/// `s` from index `i` on, with every occurrence of `pat` left out; the
/// occurrences are taken from left to right and do not overlap.
pub open spec fn without_from(s: Seq<char>, pat: Seq<char>, i: int) -> Seq<char>
    decreases s.len() - i,
{
    if i < 0 || i >= s.len() {
        Seq::empty()
    } else if pat.len() > 0 && occurs_at(s, pat, i) {
        without_from(s, pat, i + pat.len())
    } else {
        seq![s[i]] + without_from(s, pat, i + 1)
    }
}

/// `s` with every occurrence of `pat` left out.
pub open spec fn without(s: Seq<char>, pat: Seq<char>) -> Seq<char> {
    without_from(s, pat, 0)
}

/// `s` with every occurrence of `pat` left out. An empty `pat` leaves `s`
/// as it is.
pub fn remove_all(s: &Vec<char>, pat: &Vec<char>) -> (out: Vec<char>)
    ensures
        out@ == without(s@, pat@),
{
    let mut out: Vec<char> = Vec::new();
    let mut i: usize = 0;
    assert(out@ + without_from(s@, pat@, 0) =~= without(s@, pat@));
    while i < s.len()
        invariant
            i <= s.len(),
            out@ + without_from(s@, pat@, i as int) == without(s@, pat@),
        decreases s.len() - i,
    {
        let ghost before = out@;
        if pat.len() > 0 && matches_at(s, pat, i) {
            i += pat.len();
        } else {
            out.push(s[i]);
            i += 1;
            assert(out@ + without_from(s@, pat@, i as int) =~= before + (seq![s@[i - 1]]
                + without_from(s@, pat@, i as int)));
        }
    }
    assert(out@ + Seq::<char>::empty() =~= out@);
    out
}

/// Where `pat` stands nowhere at or after `i`, nothing is left out from `i` on.
pub proof fn lemma_without_clear(s: Seq<char>, pat: Seq<char>, i: int)
    requires
        0 <= i <= s.len(),
        forall|j: int| i <= j ==> !occurs_at(s, pat, j),
    ensures
        without_from(s, pat, i) == s.subrange(i, s.len() as int),
    decreases s.len() - i,
{
    if i < s.len() {
        lemma_without_clear(s, pat, i + 1);
        assert(seq![s[i]] + s.subrange(i + 1, s.len() as int) =~= s.subrange(i, s.len() as int));
    } else {
        assert(s.subrange(i, s.len() as int) =~= Seq::<char>::empty());
    }
}

/// A text in which `pat` does not stand is left as it is.
pub proof fn lemma_without_absent(s: Seq<char>, pat: Seq<char>)
    requires
        !contains(s, pat),
    ensures
        without(s, pat) == s,
{
    lemma_without_clear(s, pat, 0);
    assert(s.subrange(0, s.len() as int) =~= s);
}

/// Leaving `pat` out of `pat` followed by `rest` gives `rest`, where `pat`
/// does not stand in `rest`.
pub proof fn lemma_without_prefix(pat: Seq<char>, rest: Seq<char>)
    requires
        pat.len() > 0,
        !contains(rest, pat),
    ensures
        without(pat + rest, pat) == rest,
{
    let s = pat + rest;
    let n = pat.len() as int;
    assert(s.subrange(0, n) =~= pat);
    assert(occurs_at(s, pat, 0));
    assert forall|j: int| n <= j implies !occurs_at(s, pat, j) by {
        if occurs_at(s, pat, j) {
            assert(rest.subrange(j - n, j - n + pat.len()) =~= s.subrange(j, j + pat.len()));
            assert(occurs_at(rest, pat, j - n));
        }
    }
    lemma_without_clear(s, pat, n);
    assert(s.subrange(n, s.len() as int) =~= rest);
}

} // verus!
