//! Small verified string utilities shared by the naming, sniffing and
//! resolution modules: character-wise equality, membership in a list of
//! names, and decimal rendering of counters for renamed destinations.

use vstd::prelude::*;

verus! {

use vstd::string::StrSliceExecFns;
use vstd::string::StringExecFns;

/// The character sequences of a list of owned strings.
pub open spec fn views_of(v: Seq<String>) -> Seq<Seq<char>> {
    v.map_values(|s: String| s@)
}

/// Pushing a string onto a list pushes its view onto the list's views.
pub proof fn lemma_views_push(v: Seq<String>, x: String)
    ensures
        views_of(v.push(x)) == views_of(v).push(x@),
{
    assert forall|i: int| 0 <= i < v.len() + 1 implies views_of(v.push(x))[i] == views_of(v).push(
        x@,
    )[i] by {
        if i < v.len() {
            assert(v.push(x)[i] == v[i]);
        } else {
            assert(v.push(x)[i] == x);
        }
    }
    assert(views_of(v.push(x)) =~= views_of(v).push(x@));
}

/// Character-by-character equality of two string slices.
pub fn str_eq(a: &str, b: &str) -> (r: bool)
    ensures
        r == (a@ == b@),
{
    let n = a.unicode_len();
    if n != b.unicode_len() {
        return false;
    }
    let mut i: usize = 0;
    while i < n
        invariant
            i <= n,
            n == a@.len(),
            n == b@.len(),
            forall|j: int| 0 <= j < i ==> a@[j] == b@[j],
        decreases n - i,
    {
        if a.get_char(i) != b.get_char(i) {
            return false;
        }
        i = i + 1;
    }
    proof {
        assert(a@ =~= b@);
    }
    true
}

/// Whether `x` occurs among `names`.
pub fn contains_str(names: &Vec<String>, x: &str) -> (r: bool)
    ensures
        r == views_of(names@).contains(x@),
{
    let mut i: usize = 0;
    while i < names.len()
        invariant
            i <= names@.len(),
            forall|j: int| 0 <= j < i ==> views_of(names@)[j] != x@,
        decreases names@.len() - i,
    {
        if str_eq(names[i].as_str(), x) {
            assert(views_of(names@)[i as int] == x@);
            return true;
        }
        i = i + 1;
    }
    false
}

/// The character for one decimal digit.
pub open spec fn digit_char(d: nat) -> char {
    if d == 0 {
        '0'
    } else if d == 1 {
        '1'
    } else if d == 2 {
        '2'
    } else if d == 3 {
        '3'
    } else if d == 4 {
        '4'
    } else if d == 5 {
        '5'
    } else if d == 6 {
        '6'
    } else if d == 7 {
        '7'
    } else if d == 8 {
        '8'
    } else {
        '9'
    }
}

/// The decimal rendering of a number, most significant digit first.
pub open spec fn digits_of(n: nat) -> Seq<char>
    decreases n,
{
    if n < 10 {
        seq![digit_char(n)]
    } else {
        digits_of(n / 10).push(digit_char(n % 10))
    }
}

fn push_digit(s: &mut String, d: usize)
    requires
        d < 10,
    ensures
        final(s)@ == old(s)@.push(digit_char(d as nat)),
{
    let ds: &str = if d == 0 {
        "0"
    } else if d == 1 {
        "1"
    } else if d == 2 {
        "2"
    } else if d == 3 {
        "3"
    } else if d == 4 {
        "4"
    } else if d == 5 {
        "5"
    } else if d == 6 {
        "6"
    } else if d == 7 {
        "7"
    } else if d == 8 {
        "8"
    } else {
        "9"
    };
    proof {
        reveal_strlit("0");
        reveal_strlit("1");
        reveal_strlit("2");
        reveal_strlit("3");
        reveal_strlit("4");
        reveal_strlit("5");
        reveal_strlit("6");
        reveal_strlit("7");
        reveal_strlit("8");
        reveal_strlit("9");
        assert(ds@ =~= seq![digit_char(d as nat)]);
    }
    s.append(ds);
    proof {
        assert(s@ =~= old(s)@.push(digit_char(d as nat)));
    }
}

/// Renders `n` in decimal.
pub fn usize_to_string(n: usize) -> (r: String)
    ensures
        r@ == digits_of(n as nat),
    decreases n,
{
    if n < 10 {
        let mut s = String::new();
        push_digit(&mut s, n);
        proof {
            assert(s@ =~= digits_of(n as nat));
        }
        s
    } else {
        let mut s = usize_to_string(n / 10);
        push_digit(&mut s, n % 10);
        s
    }
}

proof fn lemma_digits_len_pos(n: nat)
    ensures
        digits_of(n).len() >= 1,
{
    if n < 10 {
        assert(digits_of(n).len() == 1);
    } else {
        assert(digits_of(n) == digits_of(n / 10).push(digit_char(n % 10)));
    }
}

/// Decimal renderings of distinct numbers are distinct.
pub proof fn lemma_digits_injective(a: nat, b: nat)
    requires
        digits_of(a) == digits_of(b),
    ensures
        a == b,
    decreases a + b,
{
    if a < 10 && b < 10 {
        assert(digits_of(a)[0] == digit_char(a));
        assert(digits_of(b)[0] == digit_char(b));
    } else if a < 10 {
        lemma_digits_len_pos(b / 10);
        assert(digits_of(b).len() >= 2);
        assert(digits_of(a).len() == 1);
    } else if b < 10 {
        lemma_digits_len_pos(a / 10);
        assert(digits_of(a).len() >= 2);
        assert(digits_of(b).len() == 1);
    } else {
        assert(digits_of(a).last() == digit_char(a % 10));
        assert(digits_of(b).last() == digit_char(b % 10));
        assert(a % 10 == b % 10);
        assert(digits_of(a).drop_last() =~= digits_of(a / 10));
        assert(digits_of(b).drop_last() =~= digits_of(b / 10));
        lemma_digits_injective(a / 10, b / 10);
    }
}

} // verus!
