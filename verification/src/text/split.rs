//! Cutting a text into pieces at each occurrence of a pattern.

use crate::text::chars::slice;
use crate::text::search::{contains, find_from, lemma_find_from, matches_at, occurs_at};
use vstd::prelude::*;

verus! {

/// The view of each text of a list.
pub open spec fn texts(v: Seq<Vec<char>>) -> Seq<Seq<char>> {
    Seq::new(v.len(), |k: int| v[k]@)
}

/// The pieces into which the occurrences of `pat` cut `s`, where `start` is
/// the beginning of the piece under way and `i` the index reached. The
/// occurrences are taken from left to right and do not overlap; an empty
/// `pat` cuts nowhere.
pub open spec fn pieces_from(s: Seq<char>, pat: Seq<char>, start: int, i: int) -> Seq<Seq<char>>
    decreases s.len() - i,
{
    if i < 0 || pat.len() == 0 || i + pat.len() > s.len() {
        seq![s.subrange(start, s.len() as int)]
    } else if occurs_at(s, pat, i) {
        seq![s.subrange(start, i)] + pieces_from(s, pat, i + pat.len(), i + pat.len())
    } else {
        pieces_from(s, pat, start, i + 1)
    }
}

/// The pieces into which the occurrences of `pat` cut `s`: always at least one.
pub open spec fn pieces(s: Seq<char>, pat: Seq<char>) -> Seq<Seq<char>> {
    pieces_from(s, pat, 0, 0)
}

/// The pieces into which the occurrences of `pat` cut `s`. A text without
/// `pat` is one piece; `pat` at the very start or end gives an empty piece.
/// An empty `pat` cuts nowhere.
pub fn split(s: &Vec<char>, pat: &Vec<char>) -> (out: Vec<Vec<char>>)
    ensures
        texts(out@) == pieces(s@, pat@),
        out@.len() > 0,
{
    let mut out: Vec<Vec<char>> = Vec::new();
    let mut start: usize = 0;
    let mut i: usize = 0;
    assert(texts(out@) + pieces_from(s@, pat@, 0, 0) =~= pieces(s@, pat@));
    while pat.len() > 0 && pat.len() <= s.len() - i
        invariant
            start <= i <= s.len(),
            texts(out@) + pieces_from(s@, pat@, start as int, i as int) == pieces(s@, pat@),
        decreases s.len() - i,
    {
        if matches_at(s, pat, i) {
            let ghost before = out@;
            let piece = slice(s, start, i);
            out.push(piece);
            i += pat.len();
            start = i;
            assert(texts(out@) =~= texts(before).push(piece@));
            assert(texts(out@) + pieces_from(s@, pat@, start as int, i as int) =~= texts(before)
                + (seq![piece@] + pieces_from(s@, pat@, start as int, i as int)));
        } else {
            i += 1;
        }
    }
    let ghost before = out@;
    let piece = slice(s, start, s.len());
    out.push(piece);
    assert(texts(out@) =~= texts(before).push(piece@));
    assert(texts(out@) =~= texts(before) + seq![piece@]);
    out
}

/// The first piece is what stands before the first occurrence of `pat`, or
/// the whole text where there is none.
pub proof fn lemma_first_piece(s: Seq<char>, pat: Seq<char>, i: int)
    requires
        pat.len() > 0,
        0 <= i,
    ensures
        pieces_from(s, pat, 0, i).len() > 0,
        pieces_from(s, pat, 0, i)[0] == s.subrange(0, find_from(s, pat, i)),
    decreases s.len() - i,
{
    if i + pat.len() > s.len() {
    } else if occurs_at(s, pat, i) {
    } else {
        lemma_first_piece(s, pat, i + 1);
    }
}

/// The pieces of a list put together again, with `pat` between each two.
pub open spec fn joined(parts: Seq<Seq<char>>, pat: Seq<char>) -> Seq<char>
    decreases parts.len(),
{
    if parts.len() == 0 {
        Seq::empty()
    } else if parts.len() == 1 {
        parts[0]
    } else {
        parts[0] + pat + joined(parts.skip(1), pat)
    }
}

/// Cutting loses nothing: the pieces from `start` on, joined by `pat`, are
/// the text from `start` on.
pub proof fn lemma_pieces_join(s: Seq<char>, pat: Seq<char>, start: int, i: int)
    requires
        pat.len() > 0,
        0 <= start <= i <= s.len(),
    ensures
        pieces_from(s, pat, start, i).len() > 0,
        joined(pieces_from(s, pat, start, i), pat) == s.subrange(start, s.len() as int),
    decreases s.len() - i,
{
    let n = pat.len() as int;
    if i + n > s.len() {
    } else if occurs_at(s, pat, i) {
        let rest = pieces_from(s, pat, i + n, i + n);
        let all = pieces_from(s, pat, start, i);
        lemma_pieces_join(s, pat, i + n, i + n);
        assert(all == seq![s.subrange(start, i)] + rest);
        assert(all.skip(1) =~= rest);
        assert(all[0] == s.subrange(start, i));
        assert(s.subrange(start, i) + pat + s.subrange(i + n, s.len() as int) =~= s.subrange(
            start,
            s.len() as int,
        )) by {
            assert(pat == s.subrange(i, i + n));
        }
    } else {
        lemma_pieces_join(s, pat, start, i + 1);
    }
}

/// The pieces of a text, joined by `pat`, are the text.
pub proof fn lemma_split_join(s: Seq<char>, pat: Seq<char>)
    requires
        pat.len() > 0,
    ensures
        joined(pieces(s, pat), pat) == s,
{
    lemma_pieces_join(s, pat, 0, 0);
    assert(s.subrange(0, s.len() as int) =~= s);
}

/// `pat` stands in no piece, where it stands nowhere between `start` and `i`.
pub proof fn lemma_pieces_clear(s: Seq<char>, pat: Seq<char>, start: int, i: int)
    requires
        pat.len() > 0,
        0 <= start <= i <= s.len(),
        forall|j: int| start <= j < i ==> !occurs_at(s, pat, j),
    ensures
        forall|n: int|
            0 <= n < pieces_from(s, pat, start, i).len() ==> !contains(
                #[trigger] pieces_from(s, pat, start, i)[n],
                pat,
            ),
    decreases s.len() - i,
{
    let p = pat.len() as int;
    let all = pieces_from(s, pat, start, i);
    if i + p > s.len() {
        let piece = s.subrange(start, s.len() as int);
        assert forall|k: int| !occurs_at(piece, pat, k) by {
            if occurs_at(piece, pat, k) {
                assert(s.subrange(start + k, start + k + p) =~= piece.subrange(k, k + p));
                assert(occurs_at(s, pat, start + k));
            }
        }
        assert forall|n: int| 0 <= n < all.len() implies !contains(#[trigger] all[n], pat) by {
            assert(all[n] == piece);
        }
    } else if occurs_at(s, pat, i) {
        let piece = s.subrange(start, i);
        let rest = pieces_from(s, pat, i + p, i + p);
        assert forall|k: int| !occurs_at(piece, pat, k) by {
            if occurs_at(piece, pat, k) {
                assert(s.subrange(start + k, start + k + p) =~= piece.subrange(k, k + p));
                assert(occurs_at(s, pat, start + k));
            }
        }
        lemma_pieces_clear(s, pat, i + p, i + p);
        assert(all == seq![piece] + rest);
        assert forall|n: int| 0 <= n < all.len() implies !contains(#[trigger] all[n], pat) by {
            if n == 0 {
                assert(all[n] == piece);
            } else {
                assert(all[n] == rest[n - 1]);
            }
        }
    } else {
        lemma_pieces_clear(s, pat, start, i + 1);
        assert(all == pieces_from(s, pat, start, i + 1));
    }
}

/// `pat` stands in no piece of a text cut at `pat`.
pub proof fn lemma_split_clear(s: Seq<char>, pat: Seq<char>)
    requires
        pat.len() > 0,
    ensures
        forall|n: int|
            0 <= n < pieces(s, pat).len() ==> !contains(#[trigger] pieces(s, pat)[n], pat),
{
    lemma_pieces_clear(s, pat, 0, 0);
}

/// The piece under way ends at the next occurrence of `pat`, and the other
/// pieces are those of what follows that occurrence; where `pat` does not
/// occur again, the piece under way is the last.
pub proof fn lemma_pieces_next(s: Seq<char>, pat: Seq<char>, start: int, i: int)
    requires
        pat.len() > 0,
        0 <= start <= i <= s.len(),
    ensures
        find_from(s, pat, i) < s.len() ==> pieces_from(s, pat, start, i) == seq![
            s.subrange(start, find_from(s, pat, i)),
        ] + pieces_from(s, pat, find_from(s, pat, i) + pat.len(), find_from(s, pat, i) + pat.len()),
        find_from(s, pat, i) >= s.len() ==> pieces_from(s, pat, start, i) == seq![
            s.subrange(start, s.len() as int),
        ],
    decreases s.len() - i,
{
    if i + pat.len() > s.len() {
    } else if occurs_at(s, pat, i) {
    } else {
        lemma_pieces_next(s, pat, start, i + 1);
    }
}

/// The pieces of a text do not depend on what stands before the place where
/// the cutting begins.
pub proof fn lemma_pieces_shift(x: Seq<char>, b: Seq<char>, pat: Seq<char>, start: int, i: int)
    requires
        pat.len() > 0,
        0 <= start <= i <= b.len(),
    ensures
        pieces_from(x + b, pat, x.len() + start, x.len() + i) == pieces_from(b, pat, start, i),
    decreases b.len() - i,
{
    let s = x + b;
    let n = x.len() as int;
    let p = pat.len() as int;
    assert(s.subrange(n + start, s.len() as int) =~= b.subrange(start, b.len() as int));
    if i + p > b.len() {
    } else {
        assert(s.subrange(n + i, n + i + p) =~= b.subrange(i, i + p));
        assert(s.subrange(n + start, n + i) =~= b.subrange(start, i));
        if occurs_at(b, pat, i) {
            lemma_pieces_shift(x, b, pat, i + p, i + p);
        } else {
            lemma_pieces_shift(x, b, pat, start, i + 1);
        }
    }
}

/// A text made of `a`, `pat` and `b`, in which `pat` first stands right
/// after `a`, is cut into `a` and the pieces of `b`.
pub proof fn lemma_split_first(a: Seq<char>, b: Seq<char>, pat: Seq<char>)
    requires
        pat.len() > 0,
        find_from(a + pat + b, pat, 0) == a.len(),
    ensures
        pieces(a + pat + b, pat) == seq![a] + pieces(b, pat),
{
    let s = a + pat + b;
    let e = a.len() as int;
    lemma_pieces_next(s, pat, 0, 0);
    assert(s.subrange(0, e) =~= a);
    assert(s =~= (a + pat) + b);
    lemma_pieces_shift(a + pat, b, pat, 0, 0);
}

/// A text in which `pat` does not stand is one piece.
pub proof fn lemma_split_whole(s: Seq<char>, pat: Seq<char>)
    requires
        pat.len() > 0,
        !contains(s, pat),
    ensures
        pieces(s, pat) == seq![s],
{
    lemma_pieces_next(s, pat, 0, 0);
    lemma_find_from(s, pat, 0);
    assert(s.subrange(0, s.len() as int) =~= s);
}

} // verus!
