use vstd::prelude::*;

verus! {

broadcast use vstd::string::group_string_axioms;

/// `p` occurs in `s` starting at position `i`.
pub open spec fn occurs_at(s: Seq<char>, p: Seq<char>, i: int) -> bool {
    0 <= i && i + p.len() <= s.len() && s.subrange(i, i + p.len()) == p
}

/// The first position at or after `i` where `p` occurs in `s`.
pub open spec fn find_from(s: Seq<char>, p: Seq<char>, i: int) -> Option<int>
    decreases s.len() + 1 - i,
{
    if i < 0 || i + p.len() > s.len() {
        None
    } else if occurs_at(s, p, i) {
        Some(i)
    } else {
        find_from(s, p, i + 1)
    }
}

/// The first position where `p` occurs in `s`.
pub open spec fn find(s: Seq<char>, p: Seq<char>) -> Option<int> {
    find_from(s, p, 0)
}

/// A found position is an occurrence, and no earlier one exists.
pub proof fn lemma_find_from(s: Seq<char>, p: Seq<char>, i: int)
    requires
        0 <= i,
    ensures
        match find_from(s, p, i) {
            Some(k) => i <= k && occurs_at(s, p, k) && forall|j: int|
                i <= j < k ==> !occurs_at(s, p, j),
            None => forall|j: int| i <= j ==> !occurs_at(s, p, j),
        },
    decreases s.len() + 1 - i,
{
    if i + p.len() > s.len() {
    } else if occurs_at(s, p, i) {
    } else {
        lemma_find_from(s, p, i + 1);
    }
}

/// The characters of `s`, one element each.
pub fn chars_of(s: &str) -> (v: Vec<char>)
    ensures
        v@ == s@,
{
    let mut v: Vec<char> = Vec::new();
    for c in it: s.chars()
        invariant
            v@ == it.seq().take(it.index() as int),
    {
        v.push(c);
    }
    v
}

/// Relies on `String::push`: appends one character at the end.
#[verifier::external_body]
pub(crate) fn push_char(s: &mut String, c: char)
    ensures
        final(s)@ == old(s)@.push(c),
{
    s.push(c);
}

/// The text made of `s[start..end]`.
pub fn text_of(s: &Vec<char>, start: usize, end: usize) -> (r: String)
    requires
        start <= end <= s.len(),
    ensures
        r@ == s@.subrange(start as int, end as int),
{
    let mut r = String::new();
    let mut i: usize = start;
    while i < end
        invariant
            start <= i <= end <= s.len(),
            r@ == s@.subrange(start as int, i as int),
        decreases end - i,
    {
        push_char(&mut r, s[i]);
        i = i + 1;
        assert(r@ =~= s@.subrange(start as int, i as int));
    }
    r
}

/// Whether `p` occurs in `s` at absolute position `i`, within `s[..end]`.
fn matches_at(s: &Vec<char>, end: usize, p: &Vec<char>, i: usize) -> (r: bool)
    requires
        i <= end <= s.len(),
    ensures
        r == (i + p.len() <= end && s@.subrange(i as int, i + p.len()) == p@),
{
    if p.len() > end - i {
        return false;
    }
    let mut j: usize = 0;
    while j < p.len()
        invariant
            i + p.len() <= end <= s.len(),
            j <= p.len(),
            forall|k: int| 0 <= k < j ==> s@[i + k] == p@[k],
        decreases p.len() - j,
    {
        if s[i + j] != p[j] {
            assert(s@.subrange(i as int, i + p.len())[j as int] != p@[j as int]);
            return false;
        }
        j = j + 1;
    }
    assert(s@.subrange(i as int, i + p.len()) =~= p@);
    true
}

/// The first position, relative to `start`, where `p` occurs in `s[start..end]`.
pub fn find_in(s: &Vec<char>, start: usize, end: usize, p: &Vec<char>) -> (r: Option<usize>)
    requires
        start <= end <= s.len(),
    ensures
        match r {
            Some(k) => find(s@.subrange(start as int, end as int), p@) == Some(k as int) && start
                + k + p@.len() <= end,
            None => find(s@.subrange(start as int, end as int), p@) is None,
        },
{
    let ghost sub = s@.subrange(start as int, end as int);
    let mut i: usize = start;
    while i <= end
        invariant
            start <= i <= end + 1,
            end <= s.len(),
            sub == s@.subrange(start as int, end as int),
            find(sub, p@) == find_from(sub, p@, i - start),
        decreases end + 1 - i,
    {
        let m = matches_at(s, end, p, i);
        proof {
            if i + p.len() <= end {
                assert(sub.subrange(i - start, i - start + p.len()) =~= s@.subrange(
                    i as int,
                    i + p.len(),
                ));
            }
        }
        if m {
            return Some(i - start);
        }
        if i == end {
            assert(find_from(sub, p@, i - start + 1) is None);
            return None;
        }
        i = i + 1;
    }
    None
}

} // verus!
