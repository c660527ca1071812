use vstd::prelude::*;

verus! {

/// True when pattern `p` occurs in `s` starting at index `i`.
pub open spec fn match_at(s: Seq<char>, p: Seq<char>, i: int) -> bool {
    &&& 0 <= i
    &&& i + p.len() <= s.len()
    &&& s.subrange(i, i + p.len() as int) == p
}

/// Index of the first occurrence of `p` in `s`, if any.
pub open spec fn find_sub(s: Seq<char>, p: Seq<char>) -> Option<int>
    decreases s.len(),
{
    if p.len() == 0 {
        Some(0)
    } else if s.len() < p.len() {
        None
    } else if s.subrange(0, p.len() as int) == p {
        Some(0)
    } else {
        match find_sub(s.skip(1), p) {
            None => None,
            Some(j) => Some(j + 1),
        }
    }
}

/// `p` occurs somewhere in `s`.
pub open spec fn has_sub(s: Seq<char>, p: Seq<char>) -> bool {
    exists|i: int| match_at(s, p, i)
}

/// Repeatedly removes the prefix `p` from the front of `s`, as
/// `str::trim_start_matches` does with a literal pattern.
pub open spec fn trim_start(s: Seq<char>, p: Seq<char>) -> Seq<char>
    decreases s.len(),
{
    if p.len() > 0 && p.len() <= s.len() && s.subrange(0, p.len() as int) == p {
        trim_start(s.skip(p.len() as int), p)
    } else {
        s
    }
}

/// `find_sub` returns an in-range index.
pub proof fn lemma_find_sub_bounds(s: Seq<char>, p: Seq<char>)
    ensures
        find_sub(s, p) matches Some(i) ==> 0 <= i && i + p.len() <= s.len(),
    decreases s.len(),
{
    if p.len() == 0 || s.len() < p.len() || s.subrange(0, p.len() as int) == p {
    } else {
        lemma_find_sub_bounds(s.skip(1), p);
    }
}

/// `find_sub` finds exactly the first occurrence: a returned index is a
/// match preceded by no match, and `None` means there is no match at all.
pub proof fn lemma_find_sub_first(s: Seq<char>, p: Seq<char>)
    ensures
        find_sub(s, p) matches Some(i) ==> match_at(s, p, i) && (forall|j: int|
            0 <= j < i ==> !match_at(s, p, j)),
        find_sub(s, p) is None ==> forall|j: int| !match_at(s, p, j),
    decreases s.len(),
{
    if p.len() == 0 {
        assert(s.subrange(0, 0) =~= p);
        assert(match_at(s, p, 0));
    } else if s.len() < p.len() {
    } else if s.subrange(0, p.len() as int) == p {
        assert(match_at(s, p, 0));
    } else {
        lemma_find_sub_first(s.skip(1), p);
        assert forall|j: int| 1 <= j && j + p.len() <= s.len() implies (match_at(s, p, j)
            == match_at(s.skip(1), p, j - 1)) by {
            assert(s.skip(1).subrange(j - 1, j - 1 + p.len() as int) =~= s.subrange(
                j,
                j + p.len() as int,
            ));
        }
        assert(!match_at(s, p, 0));
    }
}

/// A match preceded by no earlier match is exactly what `find_sub` returns.
pub proof fn lemma_find_sub_is(s: Seq<char>, p: Seq<char>, i: int)
    requires
        match_at(s, p, i),
        forall|j: int| 0 <= j < i ==> !match_at(s, p, j),
    ensures
        find_sub(s, p) == Some(i),
{
    lemma_find_sub_first(s, p);
    match find_sub(s, p) {
        None => {
            assert(false);
        },
        Some(k) => {
            if k < i {
                assert(!match_at(s, p, k));
            } else if k > i {
                assert(!match_at(s, p, i));
            }
        },
    }
}

/// Occurrence check at a fixed offset.
pub(crate) fn check_at(s: &str, p: &str, i: usize) -> (b: bool)
    requires
        i + p@.len() <= s@.len(),
    ensures
        b == match_at(s@, p@, i as int),
{
    let sl = s.unicode_len();
    let pl = p.unicode_len();
    let mut k: usize = 0;
    while k < pl
        invariant
            k <= pl,
            pl == p@.len(),
            sl == s@.len(),
            i + pl <= sl,
            forall|t: int| 0 <= t < k ==> s@[i + t] == p@[t],
        decreases pl - k,
    {
        if s.get_char(i + k) != p.get_char(k) {
            proof {
                assert(s@.subrange(i as int, i + pl as int)[k as int] == s@[i + k]);
            }
            return false;
        }
        k += 1;
    }
    proof {
        assert(s@.subrange(i as int, i + pl as int) =~= p@);
    }
    true
}

/// First occurrence of `p` in `s`, as `find_sub` describes it.
pub fn find_sub_str(s: &str, p: &str) -> (r: Option<usize>)
    ensures
        r matches Some(i) ==> find_sub(s@, p@) == Some(i as int),
        r is None ==> find_sub(s@, p@) is None,
{
    let sl = s.unicode_len();
    let pl = p.unicode_len();
    if pl == 0 {
        return Some(0);
    }
    if sl < pl {
        return None;
    }
    proof {
        lemma_find_sub_first(s@, p@);
    }
    let mut i: usize = 0;
    while i <= sl - pl
        invariant
            sl == s@.len(),
            pl == p@.len(),
            0 < pl <= sl,
            i <= sl,
            forall|j: int| 0 <= j < i ==> !match_at(s@, p@, j),
        decreases sl - i,
    {
        if check_at(s, p, i) {
            proof {
                lemma_find_sub_first(s@, p@);
            }
            return Some(i);
        }
        i += 1;
    }
    proof {
        lemma_find_sub_first(s@, p@);
        assert forall|j: int| !match_at(s@, p@, j) by {
            if 0 <= j < i {
            }
        }
    }
    None
}

/// Character-for-character string equality.
pub fn str_eq(a: &str, b: &str) -> (r: bool)
    ensures
        r == (a@ == b@),
{
    let al = a.unicode_len();
    let bl = b.unicode_len();
    if al != bl {
        return false;
    }
    let mut k: usize = 0;
    while k < al
        invariant
            k <= al,
            al == a@.len(),
            al == b@.len(),
            forall|t: int| 0 <= t < k ==> a@[t] == b@[t],
        decreases al - k,
    {
        if a.get_char(k) != b.get_char(k) {
            return false;
        }
        k += 1;
    }
    proof {
        assert(a@ =~= b@);
    }
    true
}

} // verus!
