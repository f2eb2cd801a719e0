//! Character-level string helpers with their mathematical meaning.
use vstd::prelude::*;
use vstd::string::*;

verus! {

/// `p` occurs in `s` starting at position `i`.
pub open spec fn occurs_at(s: Seq<char>, p: Seq<char>, i: int) -> bool {
    0 <= i && i + p.len() <= s.len() && s.subrange(i, i + p.len()) == p
}

/// `p` occurs somewhere in `s`.
pub open spec fn has_infix(s: Seq<char>, p: Seq<char>) -> bool {
    exists|i: int| occurs_at(s, p, i)
}

/// `s` begins with `p`.
pub open spec fn has_prefix(s: Seq<char>, p: Seq<char>) -> bool {
    occurs_at(s, p, 0)
}

/// `s` with every leading `c` removed.
pub open spec fn trim_leading(s: Seq<char>, c: char) -> Seq<char>
    decreases s.len(),
{
    if s.len() > 0 && s[0] == c {
        trim_leading(s.drop_first(), c)
    } else {
        s
    }
}

/// Does `p` occur in `s` at position `i`?
fn matches_at(s: &str, p: &str, s_len: usize, p_len: usize, i: usize) -> (b: bool)
    requires
        s_len == s@.len(),
        p_len == p@.len(),
        i + p_len <= s_len,
    ensures
        b == occurs_at(s@, p@, i as int),
{
    let mut k: usize = 0;
    while k < p_len
        invariant
            s_len == s@.len(),
            p_len == p@.len(),
            i + p_len <= s_len,
            k <= p_len,
            forall|j: int| 0 <= j < k ==> s@[i + j] == p@[j],
        decreases p_len - k,
    {
        if s.get_char(i + k) != p.get_char(k) {
            assert(s@.subrange(i as int, i + p_len)[k as int] != p@[k as int]);
            return false;
        }
        k = k + 1;
    }
    assert(s@.subrange(i as int, i + p_len) =~= p@);
    true
}

/// Whether `s` begins with `p`.
pub fn starts_with(s: &str, p: &str) -> (b: bool)
    ensures
        b == has_prefix(s@, p@),
{
    let s_len = s.unicode_len();
    let p_len = p.unicode_len();
    if p_len > s_len {
        return false;
    }
    matches_at(s, p, s_len, p_len, 0)
}

/// Whether `p` occurs anywhere in `s`.
pub fn contains(s: &str, p: &str) -> (b: bool)
    ensures
        b == has_infix(s@, p@),
{
    let s_len = s.unicode_len();
    let p_len = p.unicode_len();
    if p_len > s_len {
        return false;
    }
    let last = s_len - p_len;
    let mut i: usize = 0;
    loop
        invariant
            s_len == s@.len(),
            p_len == p@.len(),
            last + p_len == s_len,
            i <= last,
            forall|j: int| 0 <= j < i ==> !occurs_at(s@, p@, j),
        decreases last - i,
    {
        if matches_at(s, p, s_len, p_len, i) {
            return true;
        }
        if i == last {
            return false;
        }
        i = i + 1;
    }
}

/// `s` without its leading occurrences of `c`.
pub fn trim_start_char(s: &str, c: char) -> (r: &str)
    ensures
        r@ == trim_leading(s@, c),
{
    let s_len = s.unicode_len();
    let mut i: usize = 0;
    assert(s@.subrange(0, s_len as int) =~= s@);
    while i < s_len && s.get_char(i) == c
        invariant
            s_len == s@.len(),
            i <= s_len,
            trim_leading(s@, c) == trim_leading(s@.subrange(i as int, s_len as int), c),
        decreases s_len - i,
    {
        assert(s@.subrange(i as int, s_len as int).drop_first()
            =~= s@.subrange(i + 1, s_len as int));
        i = i + 1;
    }
    let r = s.substring_char(i, s_len);
    r
}

} // verus!

verus! {

/// Whether `a` and `b` hold the same characters.
pub fn same_text(a: &str, b: &str) -> (r: bool)
    ensures
        r == (a@ == b@),
{
    let a_len = a.unicode_len();
    let b_len = b.unicode_len();
    if a_len != b_len {
        return false;
    }
    let r = starts_with(a, b);
    proof {
        assert(a@ =~= a@.subrange(0, b@.len() as int));
    }
    r
}

/// The characters of an optional string slice.
pub open spec fn opt_text(o: Option<&str>) -> Option<Seq<char>> {
    match o {
        Some(s) => Some(s@),
        None => None,
    }
}

/// The characters of an optional owned string.
pub open spec fn opt_string(o: Option<String>) -> Option<Seq<char>> {
    match o {
        Some(s) => Some(s@),
        None => None,
    }
}

/// An owned copy of an optional string slice.
pub fn to_owned_opt(o: Option<&str>) -> (r: Option<String>)
    ensures
        opt_string(r) == opt_text(o),
{
    match o {
        Some(s) => Some(String::from_str(s)),
        None => None,
    }
}

} // verus!

verus! {

/// Trimming leading `c` removes a prefix made only of `c`: what is left is
/// a suffix of `s` that does not begin with `c`.
pub proof fn lemma_trim_leading_removes_only_c(s: Seq<char>, c: char)
    ensures
        ({
            let t = trim_leading(s, c);
            let cut = s.len() - t.len();
            &&& 0 <= cut <= s.len()
            &&& t == s.subrange(cut, s.len() as int)
            &&& forall|i: int| 0 <= i < cut ==> s[i] == c
            &&& t.len() > 0 ==> t[0] != c
        }),
    decreases s.len(),
{
    if s.len() > 0 && s[0] == c {
        lemma_trim_leading_removes_only_c(s.drop_first(), c);
        let t = trim_leading(s, c);
        let cut = s.len() - t.len();
        assert(t == s.drop_first().subrange(cut - 1, s.len() - 1));
        assert(s.drop_first().subrange(cut - 1, s.len() - 1) =~= s.subrange(cut, s.len() as int));
        assert forall|i: int| 0 <= i < cut implies s[i] == c by {
            if i > 0 {
                assert(s.drop_first()[i - 1] == s[i]);
            }
        }
    } else {
        assert(s.subrange(0, s.len() as int) =~= s);
    }
}

} // verus!
