use vstd::prelude::*;

use crate::error::RequestError;
use crate::text::{chars_of, find, find_in, text_of};

verus! {

/// `p` written `n` times.
pub open spec fn repeat(p: Seq<char>, n: nat) -> Seq<char>
    decreases n,
{
    if n == 0 {
        Seq::empty()
    } else {
        repeat(p, (n - 1) as nat) + p
    }
}

/// `padding` written `n` times, followed by `s`.
pub fn left_pad(s: String, n: usize, padding: &str) -> (r: String)
    ensures
        r@ == repeat(padding@, n as nat) + s@,
{
    let mut r = String::new();
    let mut i: usize = 0;
    while i < n
        invariant
            i <= n,
            r@ == repeat(padding@, i as nat),
        decreases n - i,
    {
        r.append(padding);
        i = i + 1;
    }
    r.append(s.as_str());
    r
}

/// With a count of zero the text comes back unchanged.
pub proof fn lemma_zero_count_keeps_body(padding: Seq<char>, s: Seq<char>)
    ensures
        repeat(padding, 0) + s == s,
{
    assert(repeat(padding, 0) + s =~= s);
}

pub open spec fn is_digit(c: char) -> bool {
    '0' <= c && c <= '9'
}

pub open spec fn digit_value(c: char) -> nat {
    (c as int - '0' as int) as nat
}

/// The number that a run of decimal digits spells.
pub open spec fn digits_value(s: Seq<char>) -> nat
    decreases s.len(),
{
    if s.len() == 0 {
        0
    } else {
        digits_value(s.drop_last()) * 10 + digit_value(s.last())
    }
}

/// The digits of a count: the text without one leading `+`.
pub open spec fn count_digits(s: Seq<char>) -> Seq<char> {
    if s.len() > 0 && s[0] == '+' {
        s.skip(1)
    } else {
        s
    }
}

/// The non-negative integer that `s` denotes, where it is one that fits a
/// `usize`: an optional `+`, then one or more decimal digits.
pub open spec fn count_value(s: Seq<char>) -> Option<nat> {
    let d = count_digits(s);
    if d.len() > 0 && (forall|i: int| 0 <= i < d.len() ==> is_digit(d[i])) && digits_value(d)
        <= usize::MAX {
        Some(digits_value(d))
    } else {
        None
    }
}

/// A longer run of digits never spells a smaller number.
proof fn lemma_digits_value_grows(s: Seq<char>, k: int)
    requires
        0 <= k <= s.len(),
    ensures
        digits_value(s.take(k)) <= digits_value(s),
    decreases s.len() - k,
{
    if k < s.len() {
        lemma_digits_value_grows(s, k + 1);
        assert(s.take(k + 1).drop_last() =~= s.take(k));
    } else {
        assert(s.take(k) =~= s);
    }
}

/// Reads the count in `s[start..end]`.
fn count_in(s: &Vec<char>, start: usize, end: usize) -> (r: Option<usize>)
    requires
        start <= end <= s.len(),
    ensures
        match count_value(s@.subrange(start as int, end as int)) {
            Some(v) => r == Some(v as usize),
            None => r is None,
        },
{
    let ghost t = s@.subrange(start as int, end as int);
    let mut i: usize = start;
    if i < end && s[i] == '+' {
        i = i + 1;
    }
    let ghost d = s@.subrange(i as int, end as int);
    assert(d =~= count_digits(t));
    if i == end {
        return None;
    }
    let first: usize = i;
    let mut v: usize = 0;
    while i < end
        invariant
            start <= first <= i <= end <= s.len(),
            d == s@.subrange(first as int, end as int),
            d == count_digits(t),
            t == s@.subrange(start as int, end as int),
            forall|j: int| first <= j < i ==> is_digit(s@[j]),
            v == digits_value(s@.subrange(first as int, i as int)),
        decreases end - i,
    {
        let c = s[i];
        assert(s@.subrange(first as int, i + 1).drop_last() =~= s@.subrange(
            first as int,
            i as int,
        ));
        assert(d[i - first] == c);
        if !('0' <= c && c <= '9') {
            assert(!is_digit(d[i - first]));
            return None;
        }
        let dv: usize = (c as u32 - '0' as u32) as usize;
        assert(digit_value(c) == dv);
        assert(digits_value(s@.subrange(first as int, i + 1)) == v * 10 + dv);
        if v > (usize::MAX - dv) / 10 {
            proof {
                assert(v * 10 + dv > usize::MAX) by (nonlinear_arith)
                    requires
                        v > (usize::MAX - dv) / 10,
                        dv <= 9,
                ;
                assert(d.take(i + 1 - first) =~= s@.subrange(first as int, i + 1));
                lemma_digits_value_grows(d, i + 1 - first);
            }
            return None;
        }
        proof {
            assert(v * 10 + dv <= usize::MAX) by (nonlinear_arith)
                requires
                    v <= (usize::MAX - dv) / 10,
                    dv <= 9,
            ;
        }
        v = v * 10 + dv;
        i = i + 1;
    }
    assert(d =~= s@.subrange(first as int, i as int));
    Some(v)
}

/// The path separator.
pub open spec fn slash() -> Seq<char> {
    seq!['/']
}

/// The repeat count and pad token that a URI names: `/<count>/<pad>`, where
/// the pad token is the whole rest of the URI, further `/` included.
pub open spec fn padding_spec(uri: Seq<char>) -> Result<(nat, Seq<char>), RequestError> {
    match find(uri, slash()) {
        None => Err(RequestError::MissingCount),
        Some(a) => {
            let rest = uri.skip(a + 1);
            let (count, pad) = match find(rest, slash()) {
                Some(b) => (rest.take(b), Some(rest.skip(b + 1))),
                None => (rest, None),
            };
            match count_value(count) {
                None => Err(RequestError::InvalidCount),
                Some(n) => match pad {
                    None => Err(RequestError::MissingPad),
                    Some(p) => Ok((n, p)),
                },
            }
        },
    }
}

/// Reads the repeat count and pad token from a URI.
pub fn padding_of(uri: &str) -> (r: Result<(usize, String), RequestError>)
    ensures
        match padding_spec(uri@) {
            Ok((n, p)) => r is Ok && r->Ok_0.0 == n && r->Ok_0.1@ == p,
            Err(e) => r == Err::<(usize, String), RequestError>(e),
        },
{
    let s = chars_of(uri);
    let len = s.len();
    let sl = vec!['/'];
    assert(sl@ =~= slash());
    assert(s@.subrange(0, len as int) =~= uri@);
    let a = match find_in(&s, 0, len, &sl) {
        None => {
            return Err(RequestError::MissingCount);
        },
        Some(a) => a,
    };
    let ghost rest = uri@.skip(a + 1);
    assert(rest =~= s@.subrange(a + 1, len as int));
    let (count_end, pad_start) = match find_in(&s, a + 1, len, &sl) {
        Some(b) => {
            assert(rest.take(b as int) =~= s@.subrange(a + 1, a + 1 + b));
            assert(rest.skip(b + 1) =~= s@.subrange(a + b + 2, len as int));
            (a + 1 + b, Some(a + b + 2))
        },
        None => (len, None),
    };
    let n = match count_in(&s, a + 1, count_end) {
        None => {
            return Err(RequestError::InvalidCount);
        },
        Some(n) => n,
    };
    match pad_start {
        None => Err(RequestError::MissingPad),
        Some(p) => Ok((n, text_of(&s, p, len))),
    }
}

} // verus!
