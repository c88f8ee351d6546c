//! The match rule of the vanity search: a prefix and a suffix, compared
//! exactly or after lower-casing.

use vstd::prelude::*;
use vstd::string::StrSliceExecFns;

verus! {

/// `s` is a prefix of `p`.
pub open spec fn has_prefix(p: Seq<char>, s: Seq<char>) -> bool {
    s.len() <= p.len() && p.subrange(0, s.len() as int) == s
}

/// `e` is a suffix of `p`.
pub open spec fn has_suffix(p: Seq<char>, e: Seq<char>) -> bool {
    e.len() <= p.len() && p.subrange(p.len() - e.len(), p.len() as int) == e
}

/// `p` starts with `s` and ends with `e`, compared exactly.
pub open spec fn matches_exact(p: Seq<char>, s: Seq<char>, e: Seq<char>) -> bool {
    has_prefix(p, s) && has_suffix(p, e)
}

/// Empty bounds match every text.
pub proof fn lemma_empty_bounds_match(p: Seq<char>)
    ensures
        matches_exact(p, Seq::empty(), Seq::empty()),
{
    assert(p.subrange(0, 0) =~= Seq::<char>::empty());
    assert(p.subrange(p.len() as int, p.len() as int) =~= Seq::<char>::empty());
}

/// The lower-cased text, as `str::to_lowercase` writes it.
pub uninterp spec fn lowercase_of(s: Seq<char>) -> Seq<char>;

/// The match rule: exact, or on the lower-cased texts when `ignore_case`.
pub open spec fn matches_rule(p: Seq<char>, s: Seq<char>, e: Seq<char>, ignore_case: bool) -> bool {
    if ignore_case {
        matches_exact(lowercase_of(p), lowercase_of(s), lowercase_of(e))
    } else {
        matches_exact(p, s, e)
    }
}

/// Relies on `str::to_lowercase`: the result depends on the characters alone,
/// and the empty text stays empty.
#[verifier::external_body]
fn to_lower(s: &str) -> (r: String)
    ensures
        r@ == lowercase_of(s@),
        s@.len() == 0 ==> r@.len() == 0,
{
    s.to_lowercase()
}

/// Whether `p` starts with `s`.
pub fn starts_with_text(p: &str, s: &str) -> (r: bool)
    ensures
        r == has_prefix(p@, s@),
{
    let pn = p.unicode_len();
    let sn = s.unicode_len();
    if sn > pn {
        return false;
    }
    let mut i: usize = 0;
    while i < sn
        invariant
            sn == s@.len(),
            pn == p@.len(),
            sn <= pn,
            i <= sn,
            forall|k: int| 0 <= k < i ==> p@[k] == s@[k],
        decreases sn - i,
    {
        if p.get_char(i) != s.get_char(i) {
            assert(p@.subrange(0, sn as int)[i as int] != s@[i as int]);
            return false;
        }
        i = i + 1;
    }
    assert(p@.subrange(0, sn as int) =~= s@);
    true
}

/// Whether `p` ends with `e`.
pub fn ends_with_text(p: &str, e: &str) -> (r: bool)
    ensures
        r == has_suffix(p@, e@),
{
    let pn = p.unicode_len();
    let en = e.unicode_len();
    if en > pn {
        return false;
    }
    let off = pn - en;
    let mut i: usize = 0;
    while i < en
        invariant
            en == e@.len(),
            pn == p@.len(),
            off + en == pn,
            i <= en,
            forall|k: int| 0 <= k < i ==> p@[off + k] == e@[k],
        decreases en - i,
    {
        if p.get_char(off + i) != e.get_char(i) {
            assert(p@.subrange(off as int, pn as int)[i as int] != e@[i as int]);
            return false;
        }
        i = i + 1;
    }
    assert(p@.subrange(off as int, pn as int) =~= e@);
    true
}

/// Whether `p` starts with `s` and ends with `e`, compared exactly. With
/// lower-cased arguments this decides the case-insensitive rule as well.
pub fn matches_case_exact(p: &str, s: &str, e: &str) -> (r: bool)
    ensures
        r == matches_exact(p@, s@, e@),
{
    starts_with_text(p, s) && ends_with_text(p, e)
}

/// Whether `pubkey` starts with `start` and ends with `end`; with
/// `ignore_case` all three texts are lower-cased first.
pub fn check_match(pubkey: &str, start: &str, end: &str, ignore_case: bool) -> (r: bool)
    ensures
        r == matches_rule(pubkey@, start@, end@, ignore_case),
        ignore_case ==> (start@.len() == 0 ==> lowercase_of(start@).len() == 0) && (end@.len() == 0
            ==> lowercase_of(end@).len() == 0),
        start@.len() == 0 && end@.len() == 0 ==> r,
{
    proof {
        lemma_empty_bounds_match(pubkey@);
        lemma_empty_bounds_match(lowercase_of(pubkey@));
        if start@.len() == 0 {
            assert(start@ =~= Seq::<char>::empty());
        }
        if end@.len() == 0 {
            assert(end@ =~= Seq::<char>::empty());
        }
    }
    if ignore_case {
        let p_lower = to_lower(pubkey);
        let s_lower = to_lower(start);
        let e_lower = to_lower(end);
        proof {
            if s_lower@.len() == 0 {
                assert(s_lower@ =~= Seq::<char>::empty());
            }
            if e_lower@.len() == 0 {
                assert(e_lower@ =~= Seq::<char>::empty());
            }
        }
        matches_case_exact(p_lower.as_str(), s_lower.as_str(), e_lower.as_str())
    } else {
        matches_case_exact(pubkey, start, end)
    }
}

} // verus!
