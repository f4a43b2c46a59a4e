//! Small string helpers shared by the row model and the traversal engine.

use vstd::prelude::*;

verus! {

/// Whether `a` and `b` are the same character up to ASCII case.
pub open spec fn ascii_eq_char(a: char, b: char) -> bool {
    a == b || (0x41 <= a as u32 <= 0x5a && b as u32 == a as u32 + 32) || (0x41 <= b as u32 <= 0x5a
        && a as u32 == b as u32 + 32)
}

/// Whether `a` and `b` are the same string up to ASCII case.
pub open spec fn ascii_eq(a: Seq<char>, b: Seq<char>) -> bool {
    a.len() == b.len() && (forall|i: int| 0 <= i < a.len() ==> ascii_eq_char(a[i], b[i]))
}

/// Compares two strings ignoring ASCII case.
pub fn eq_ignore_ascii_case(a: &str, b: &str) -> (r: bool)
    ensures
        r == ascii_eq(a@, b@),
{
    let alen = a.unicode_len();
    let blen = b.unicode_len();
    if alen != blen {
        return false;
    }
    for i in 0..alen
        invariant
            alen == a@.len(),
            alen == b@.len(),
            forall|j: int| 0 <= j < i ==> ascii_eq_char(a@[j], b@[j]),
    {
        let ca = a.get_char(i) as u32;
        let cb = b.get_char(i) as u32;
        let same = ca == cb || (0x41 <= ca && ca <= 0x5a && cb == ca + 32) || (0x41 <= cb && cb
            <= 0x5a && ca == cb + 32);
        if !same {
            return false;
        }
    }
    true
}

/// Compares two string slices for character equality.
pub fn str_eq(a: &str, b: &str) -> (r: bool)
    ensures
        r == (a@ == b@),
{
    let alen = a.unicode_len();
    let blen = b.unicode_len();
    if alen != blen {
        return false;
    }
    for i in 0..alen
        invariant
            alen == a@.len(),
            alen == b@.len(),
            forall|j: int| 0 <= j < i ==> a@[j] == b@[j],
    {
        if a.get_char(i) != b.get_char(i) {
            return false;
        }
    }
    proof {
        assert(a@ =~= b@);
    }
    true
}

/// The suffix of `s` after its last `/`; the whole of `s` when it holds no
/// `/`, and empty when `s` ends with one.
pub open spec fn last_segment(s: Seq<char>) -> Seq<char>
    decreases s.len(),
{
    if s.len() == 0 {
        s
    } else if s.last() == '/' {
        Seq::empty()
    } else {
        last_segment(s.drop_last()).push(s.last())
    }
}

proof fn lemma_last_segment_from_cut(s: Seq<char>, cut: int)
    requires
        0 <= cut <= s.len(),
        forall|i: int| cut <= i < s.len() ==> s[i] != '/',
        cut > 0 ==> s[cut - 1] == '/',
    ensures
        last_segment(s) == s.subrange(cut, s.len() as int),
    decreases s.len() - cut,
{
    if cut == s.len() {
        if s.len() == 0 {
            assert(last_segment(s) =~= s.subrange(cut, s.len() as int));
        } else {
            assert(s.last() == '/');
            assert(last_segment(s) =~= s.subrange(cut, s.len() as int));
        }
    } else {
        assert(s.last() != '/');
        let d = s.drop_last();
        lemma_last_segment_from_cut(d, cut);
        assert(d.subrange(cut, d.len() as int) =~= s.subrange(cut, s.len() as int).drop_last());
        assert(last_segment(s) =~= s.subrange(cut, s.len() as int));
    }
}

/// Returns the substring of `s` after its last `/` (all of `s` when there is
/// none).
pub fn last_segment_str(s: &str) -> (r: String)
    ensures
        r@ == last_segment(s@),
{
    let len = s.unicode_len();
    let mut cut: usize = 0;
    let mut i: usize = len;
    while i > 0
        invariant_except_break
            len == s@.len(),
            i <= len,
            cut == 0,
            forall|j: int| i <= j < len ==> s@[j] != '/',
        ensures
            cut <= len,
            forall|j: int| cut <= j < len ==> s@[j] != '/',
            cut > 0 ==> s@[cut - 1] == '/',
        decreases i,
    {
        if s.get_char(i - 1) == '/' {
            cut = i;
            break;
        }
        i = i - 1;
    }
    proof {
        lemma_last_segment_from_cut(s@, cut as int);
    }
    let seg = s.substring_char(cut, len);
    seg.to_owned()
}

} // verus!
