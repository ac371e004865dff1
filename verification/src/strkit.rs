//! Small executable string utilities that the rest of the library builds on:
//! equality and membership tests over `&str`, and slash/dot splitting used for
//! file names and extensions.

use vstd::prelude::*;
use vstd::string::*;

verus! {

/// Equality of two string slices, specified over their character views.
pub fn str_eq(a: &str, b: &str) -> (r: bool)
    ensures
        r == (a@ == b@),
{
    let sa: String = a.to_owned();
    let sb: String = b.to_owned();
    sa == sb
}

/// Whether `needle` occurs among `haystack`'s elements, compared by view.
pub fn contains_str(haystack: &Vec<String>, needle: &str) -> (r: bool)
    ensures
        r == haystack@.map_values(|s: String| s@).contains(needle@),
{
    let ghost views = haystack@.map_values(|s: String| s@);
    for i in 0..haystack.len()
        invariant
            views == haystack@.map_values(|s: String| s@),
            forall|j: int| 0 <= j < i ==> views[j] != needle@,
    {
        if str_eq(haystack[i].as_str(), needle) {
            assert(views[i as int] == needle@);
            return true;
        }
    }
    false
}


/// The character of one decimal digit.
pub open spec fn digit_char(d: int) -> char {
    if d == 0 { '0' }
    else if d == 1 { '1' }
    else if d == 2 { '2' }
    else if d == 3 { '3' }
    else if d == 4 { '4' }
    else if d == 5 { '5' }
    else if d == 6 { '6' }
    else if d == 7 { '7' }
    else if d == 8 { '8' }
    else { '9' }
}

/// The decimal rendering of a natural number, most significant digit first.
pub open spec fn dec_rep(n: nat) -> Seq<char>
    decreases n,
{
    if n < 10 {
        seq![digit_char(n as int)]
    } else {
        dec_rep(n / 10).push(digit_char((n % 10) as int))
    }
}

/// One decimal digit as a string slice.
fn digit_str(d: u64) -> (r: &'static str)
    requires
        d < 10,
    ensures
        r@ =~= seq![digit_char(d as int)],
{
    proof {
        reveal_strlit("0");
        reveal_strlit("1");
        reveal_strlit("2");
        reveal_strlit("3");
        reveal_strlit("4");
        reveal_strlit("5");
        reveal_strlit("6");
        reveal_strlit("7");
        reveal_strlit("8");
        reveal_strlit("9");
    }
    match d {
        0 => "0",
        1 => "1",
        2 => "2",
        3 => "3",
        4 => "4",
        5 => "5",
        6 => "6",
        7 => "7",
        8 => "8",
        _ => "9",
    }
}

/// Render a number in decimal.
pub fn u64_to_string(n: u64) -> (r: String)
    ensures
        r@ == dec_rep(n as nat),
    decreases n,
{
    if n < 10 {
        digit_str(n).to_owned()
    } else {
        let mut s = u64_to_string(n / 10);
        s.append(digit_str(n % 10));
        s
    }
}

/// A decimal rendering holds at least one character.
pub proof fn lemma_dec_rep_len(n: nat)
    ensures
        dec_rep(n).len() >= 1,
    decreases n,
{
    if n >= 10 {
        lemma_dec_rep_len(n / 10);
    }
}

/// Distinct numbers render as distinct decimal strings.
pub proof fn lemma_dec_rep_injective(a: nat, b: nat)
    requires
        a != b,
    ensures
        dec_rep(a) != dec_rep(b),
    decreases a + b,
{
    if a < 10 && b < 10 {
        assert(dec_rep(a)[0] != dec_rep(b)[0]);
    } else if a < 10 {
        lemma_dec_rep_len(b / 10);
        assert(dec_rep(a).len() == 1 && dec_rep(b).len() >= 2);
    } else if b < 10 {
        lemma_dec_rep_len(a / 10);
        assert(dec_rep(b).len() == 1 && dec_rep(a).len() >= 2);
    } else {
        let la = dec_rep(a / 10);
        let lb = dec_rep(b / 10);
        if a % 10 != b % 10 {
            assert(dec_rep(a).last() != dec_rep(b).last());
            if dec_rep(a) == dec_rep(b) {
                assert(dec_rep(a).last() == dec_rep(b).last());
            }
        } else {
            assert(a / 10 != b / 10) by {
                assert(a == 10 * (a / 10) + a % 10);
                assert(b == 10 * (b / 10) + b % 10);
            }
            lemma_dec_rep_injective(a / 10, b / 10);
            if dec_rep(a) == dec_rep(b) {
                assert(la =~= dec_rep(a).drop_last());
                assert(lb =~= dec_rep(b).drop_last());
            }
        }
    }
}

/// Equal sequences with the same appended tail had equal heads.
pub proof fn lemma_append_cancel(a: Seq<char>, b: Seq<char>, c: Seq<char>)
    requires
        a + c == b + c,
    ensures
        a == b,
{
    let lhs = a + c;
    let rhs = b + c;
    assert(lhs.len() == a.len() + c.len());
    assert(rhs.len() == b.len() + c.len());
    assert(a.len() == b.len());
    assert forall|i: int| 0 <= i < a.len() implies a[i] == b[i] by {
        assert((a + c)[i] == a[i] && (b + c)[i] == b[i]);
    }
    assert(a =~= b);
}

/// Equal sequences with the same prepended head had equal tails.
pub proof fn lemma_prepend_cancel(a: Seq<char>, b: Seq<char>, c: Seq<char>)
    requires
        c + a == c + b,
    ensures
        a == b,
{
    let lhs = c + a;
    let rhs = c + b;
    assert(lhs.len() == c.len() + a.len());
    assert(rhs.len() == c.len() + b.len());
    assert(a.len() == b.len());
    assert forall|i: int| 0 <= i < a.len() implies a[i] == b[i] by {
        assert((c + a)[c.len() + i] == a[i] && (c + b)[c.len() + i] == b[i]);
    }
    assert(a =~= b);
}

/// Join a directory and a child name with a slash.
pub fn join_path(dir: &str, name: &str) -> (r: String)
    ensures
        r@ == dir@ + "/"@ + name@,
{
    dir.to_owned().concat("/").concat(name)
}


/// Whether `a` is a prefix of `b`, character by character.
pub open spec fn is_prefix(a: Seq<char>, b: Seq<char>) -> bool {
    a.len() <= b.len() && forall|i: int| 0 <= i < a.len() ==> a[i] == b[i]
}

/// Prefix test over string slices.
pub fn str_starts_with(s: &str, prefix: &str) -> (r: bool)
    ensures
        r == is_prefix(prefix@, s@),
{
    let np = prefix.unicode_len();
    let ns = s.unicode_len();
    if np > ns {
        return false;
    }
    for i in 0..np
        invariant
            np == prefix@.len() <= ns == s@.len(),
            forall|j: int| 0 <= j < i ==> prefix@[j] == s@[j],
    {
        if prefix.get_char(i) != s.get_char(i) {
            return false;
        }
    }
    true
}

} // verus!
