use vstd::prelude::*;

verus! {

/// Whether `needle` occurs in `hay` starting at index `i`.
pub open spec fn match_at(hay: Seq<char>, needle: Seq<char>, i: int) -> bool {
    0 <= i && i + needle.len() <= hay.len() && hay.subrange(i, i + needle.len()) == needle
}

/// How many indices of `hay` start an occurrence of `needle`.
pub open spec fn occurrences(hay: Seq<char>, needle: Seq<char>) -> nat
    decreases hay.len(),
{
    if hay.len() == 0 {
        0
    } else {
        (if match_at(hay, needle, 0) {
            1nat
        } else {
            0nat
        }) + occurrences(hay.drop_first(), needle)
    }
}

/// Whether a text is free of the escape character `%`.
pub open spec fn percent_free(s: Seq<char>) -> bool {
    forall|i: int| 0 <= i < s.len() ==> s[i] != '%'
}

/// Dropping the first character shifts every occurrence down by one.
proof fn lemma_match_at_shift(hay: Seq<char>, needle: Seq<char>, i: int)
    requires
        hay.len() > 0,
        i >= 0,
    ensures
        match_at(hay.drop_first(), needle, i) == match_at(hay, needle, i + 1),
{
    if 0 <= i && i + needle.len() <= hay.len() - 1 {
        assert(hay.drop_first().subrange(i, i + needle.len() as int) =~= hay.subrange(
            i + 1,
            i + 1 + needle.len() as int,
        ));
    }
}

/// A text shorter than the needle holds no occurrence.
pub proof fn lemma_occurrences_short(hay: Seq<char>, needle: Seq<char>)
    requires
        hay.len() < needle.len(),
    ensures
        occurrences(hay, needle) == 0,
    decreases hay.len(),
{
    if hay.len() > 0 {
        lemma_occurrences_short(hay.drop_first(), needle);
    }
}

/// A text where the needle matches nowhere holds zero occurrences.
pub proof fn lemma_occurrences_none(hay: Seq<char>, needle: Seq<char>)
    requires
        forall|i: int| !match_at(hay, needle, i),
    ensures
        occurrences(hay, needle) == 0,
    decreases hay.len(),
{
    if hay.len() > 0 {
        assert forall|i: int| !match_at(hay.drop_first(), needle, i) by {
            if i >= 0 {
                lemma_match_at_shift(hay, needle, i);
            }
        }
        lemma_occurrences_none(hay.drop_first(), needle);
    }
}

/// A text without the needle's head character holds zero occurrences.
pub proof fn lemma_occurrences_none_without_head(hay: Seq<char>, needle: Seq<char>)
    requires
        needle.len() > 0,
        forall|i: int| 0 <= i < hay.len() ==> hay[i] != needle[0],
    ensures
        occurrences(hay, needle) == 0,
{
    assert forall|i: int| !match_at(hay, needle, i) by {
        if match_at(hay, needle, i) {
            assert(hay.subrange(i, i + needle.len() as int)[0] == hay[i]);
        }
    }
    lemma_occurrences_none(hay, needle);
}

/// The needle occurs exactly once in itself.
pub proof fn lemma_occurrences_self(needle: Seq<char>)
    requires
        needle.len() > 0,
    ensures
        occurrences(needle, needle) == 1,
{
    assert(needle.subrange(0, needle.len() as int) =~= needle);
    assert(match_at(needle, needle, 0));
    lemma_occurrences_short(needle.drop_first(), needle);
}

/// Occurrences split over a concatenation when none straddles the boundary.
proof fn lemma_occurrences_concat(a: Seq<char>, b: Seq<char>, needle: Seq<char>)
    requires
        needle.len() > 0,
        forall|i: int| a.len() - needle.len() < i < a.len() ==> !match_at(a + b, needle, i),
    ensures
        occurrences(a + b, needle) == occurrences(a, needle) + occurrences(b, needle),
    decreases a.len(),
{
    if a.len() == 0 {
        assert(a + b =~= b);
    } else {
        assert((a + b).drop_first() =~= a.drop_first() + b);
        if a.len() >= needle.len() {
            if match_at(a + b, needle, 0) || match_at(a, needle, 0) {
                assert((a + b).subrange(0, needle.len() as int) =~= a.subrange(
                    0,
                    needle.len() as int,
                ));
            }
        } else {
            assert(!match_at(a + b, needle, 0));
            assert(!match_at(a, needle, 0));
        }
        assert forall|i: int|
            a.drop_first().len() - needle.len() < i < a.drop_first().len() implies !match_at(
            a.drop_first() + b,
            needle,
            i,
        ) by {
            if i >= 0 {
                lemma_match_at_shift(a + b, needle, i);
                assert(!match_at(a + b, needle, i + 1));
            }
        }
        lemma_occurrences_concat(a.drop_first(), b, needle);
    }
}

/// Occurrences split over a concatenation when the left part's last
/// characters, fewer than the needle's length, never hold the needle's
/// head character: no occurrence can straddle the boundary.
pub proof fn lemma_occurrences_concat_left(a: Seq<char>, b: Seq<char>, needle: Seq<char>)
    requires
        needle.len() > 0,
        forall|i: int| a.len() - needle.len() < i < a.len() && i >= 0 ==> a[i] != needle[0],
    ensures
        occurrences(a + b, needle) == occurrences(a, needle) + occurrences(b, needle),
{
    assert forall|i: int| a.len() - needle.len() < i < a.len() implies !match_at(
        a + b,
        needle,
        i,
    ) by {
        if match_at(a + b, needle, i) {
            assert((a + b).subrange(i, i + needle.len() as int)[0] == (a + b)[i]);
            assert((a + b)[i] == a[i]);
        }
    }
    lemma_occurrences_concat(a, b, needle);
}

/// Occurrences split over a concatenation when the right part's first
/// character occurs nowhere in the needle after its head: no occurrence
/// can straddle the boundary.
pub proof fn lemma_occurrences_concat_right(a: Seq<char>, b: Seq<char>, needle: Seq<char>)
    requires
        needle.len() > 0,
        forall|d: int| 1 <= d < needle.len() && b.len() > 0 ==> needle[d] != b[0],
    ensures
        occurrences(a + b, needle) == occurrences(a, needle) + occurrences(b, needle),
{
    assert forall|i: int| a.len() - needle.len() < i < a.len() implies !match_at(
        a + b,
        needle,
        i,
    ) by {
        if match_at(a + b, needle, i) {
            let d = a.len() - i;
            assert(b.len() > 0);
            assert((a + b).subrange(i, i + needle.len() as int)[d] == (a + b)[a.len() as int]);
            assert((a + b)[a.len() as int] == b[0]);
        }
    }
    lemma_occurrences_concat(a, b, needle);
}

} // verus!
