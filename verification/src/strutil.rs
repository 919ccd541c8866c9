use vstd::prelude::*;
use vstd::string::*;

verus! {

/// Relies on String::push: appends exactly one character.
#[verifier::external_body]
pub(crate) fn push_char(s: &mut String, c: char)
    ensures
        final(s)@ == old(s)@.push(c),
{
    s.push(c);
}

/// The character for one decimal digit.
pub open spec fn spec_digit_char(d: int) -> char {
    if d == 0 {
        '0'
    } else if d == 1 {
        '1'
    } else if d == 2 {
        '2'
    } else if d == 3 {
        '3'
    } else if d == 4 {
        '4'
    } else if d == 5 {
        '5'
    } else if d == 6 {
        '6'
    } else if d == 7 {
        '7'
    } else if d == 8 {
        '8'
    } else {
        '9'
    }
}

/// The decimal notation of a number, most significant digit first, without
/// leading zeroes.
pub open spec fn spec_decimal(n: nat) -> Seq<char>
    decreases n,
{
    if n < 10 {
        seq![spec_digit_char(n as int)]
    } else {
        spec_decimal(n / 10).push(spec_digit_char((n % 10) as int))
    }
}

fn digit_char(d: u64) -> (c: char)
    requires
        d < 10,
    ensures
        c == spec_digit_char(d as int),
{
    if d == 0 {
        '0'
    } else if d == 1 {
        '1'
    } else if d == 2 {
        '2'
    } else if d == 3 {
        '3'
    } else if d == 4 {
        '4'
    } else if d == 5 {
        '5'
    } else if d == 6 {
        '6'
    } else if d == 7 {
        '7'
    } else if d == 8 {
        '8'
    } else {
        '9'
    }
}

/// Render a number in decimal.
pub fn u64_to_decimal(n: u64) -> (r: String)
    ensures
        r@ == spec_decimal(n as nat),
    decreases n,
{
    if n < 10 {
        let mut s = String::new();
        push_char(&mut s, digit_char(n));
        proof {
            assert(s@ =~= spec_decimal(n as nat));
        }
        s
    } else {
        let mut s = u64_to_decimal(n / 10);
        push_char(&mut s, digit_char(n % 10));
        s
    }
}

/// `pat` occurs in `s` starting at position `i`.
pub open spec fn spec_contains_at(s: Seq<char>, pat: Seq<char>, i: int) -> bool {
    0 <= i && i + pat.len() <= s.len() && s.subrange(i, i + pat.len()) == pat
}

/// `pat` occurs somewhere in `s`.
pub open spec fn spec_contains(s: Seq<char>, pat: Seq<char>) -> bool {
    exists|i: int| spec_contains_at(s, pat, i)
}

/// `pat` stands at position `i` of `s`.
fn matches_at(s: &str, pat: &str, i: usize) -> (r: bool)
    requires
        i + pat@.len() <= s@.len(),
    ensures
        r == spec_contains_at(s@, pat@, i as int),
{
    let n = s.unicode_len();
    let m = pat.unicode_len();
    let ghost window = s@.subrange(i as int, i + pat@.len());
    let mut k: usize = 0;
    while k < m
        invariant
            k <= m,
            m == pat@.len(),
            n == s@.len(),
            i + m <= n,
            window == s@.subrange(i as int, i + pat@.len()),
            forall|j: int| 0 <= j < k ==> s@[i + j] == pat@[j],
        decreases m - k,
    {
        if s.get_char(i + k) != pat.get_char(k) {
            proof {
                assert(window[k as int] == s@[i + k]);
            }
            return false;
        }
        k = k + 1;
    }
    proof {
        assert(window =~= pat@);
    }
    true
}

/// Naive substring search.
pub fn str_contains(s: &str, pat: &str) -> (r: bool)
    ensures
        r == spec_contains(s@, pat@),
{
    let n = s.unicode_len();
    let m = pat.unicode_len();
    if m > n {
        proof {
            assert forall|i: int| !spec_contains_at(s@, pat@, i) by {}
        }
        return false;
    }
    if m == 0 {
        proof {
            assert(spec_contains_at(s@, pat@, 0)) by {
                assert(s@.subrange(0, 0) =~= pat@);
            }
        }
        return true;
    }
    let mut i: usize = 0;
    while i <= n - m
        invariant
            1 <= m <= n,
            n == s@.len(),
            m == pat@.len(),
            i <= n - m + 1,
            forall|j: int| 0 <= j < i ==> !spec_contains_at(s@, pat@, j),
        decreases n - m + 1 - i,
    {
        if matches_at(s, pat, i) {
            return true;
        }
        i = i + 1;
    }
    proof {
        assert forall|j: int| !spec_contains_at(s@, pat@, j) by {
            if 0 <= j < i {
            }
        }
    }
    false
}

} // verus!
