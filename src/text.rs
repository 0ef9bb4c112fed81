//! Character-level string helpers with exact specifications.
use vstd::prelude::*;
use vstd::string::*;

verus! {

/// `p` occurs in `s` starting at character `i`.
pub open spec fn occurs_at(s: Seq<char>, p: Seq<char>, i: int) -> bool {
    0 <= i && i + p.len() <= s.len() && s.subrange(i, i + p.len()) == p
}

/// `p` occurs somewhere in `s`.
pub open spec fn occurs_in(s: Seq<char>, p: Seq<char>) -> bool {
    exists|i: int| occurs_at(s, p, i)
}

/// `p` is a prefix of `s`.
pub open spec fn has_prefix(s: Seq<char>, p: Seq<char>) -> bool {
    occurs_at(s, p, 0)
}

/// `p` is a suffix of `s`.
pub open spec fn has_suffix(s: Seq<char>, p: Seq<char>) -> bool {
    p.len() <= s.len() && occurs_at(s, p, s.len() - p.len())
}

/// The decimal digit character of `d`.
pub open spec fn digit_char(d: int) -> char {
    if d == 0 { '0' }
    else if d == 1 { '1' }
    else if d == 2 { '2' }
    else if d == 3 { '3' }
    else if d == 4 { '4' }
    else if d == 5 { '5' }
    else if d == 6 { '6' }
    else if d == 7 { '7' }
    else if d == 8 { '8' }
    else { '9' }
}

/// Decimal digits of a natural number, most significant first, no leading zeros.
pub open spec fn dec_nat(n: nat) -> Seq<char>
    decreases n,
{
    if n < 10 {
        seq![digit_char(n as int)]
    } else {
        dec_nat(n / 10) + seq![digit_char((n % 10) as int)]
    }
}

/// Decimal form of an integer, with a leading `-` when negative.
pub open spec fn dec_int(n: int) -> Seq<char> {
    if n < 0 {
        seq!['-'] + dec_nat((-n) as nat)
    } else {
        dec_nat(n as nat)
    }
}

/// The characters of `s`, as a vector.
pub fn chars_of(s: &str) -> (r: Vec<char>)
    ensures
        r@ == s@,
{
    let n = s.unicode_len();
    let mut r: Vec<char> = Vec::new();
    let mut i: usize = 0;
    while i < n
        invariant
            n == s@.len(),
            i <= n,
            r@ == s@.subrange(0, i as int),
        decreases n - i,
    {
        r.push(s.get_char(i));
        i = i + 1;
    }
    r
}

/// Whether `b` occurs in `a` at position `i`.
pub fn vec_occurs_at(a: &Vec<char>, b: &Vec<char>, i: usize) -> (r: bool)
    ensures
        r == occurs_at(a@, b@, i as int),
{
    let n = a.len();
    if i > n || b.len() > n - i {
        return false;
    }
    let mut k: usize = 0;
    while k < b.len()
        invariant
            n == a@.len(),
            i + b@.len() <= a@.len(),
            k <= b@.len(),
            forall|j: int| 0 <= j < k ==> a@[i + j] == b@[j],
        decreases b.len() - k,
    {
        if a[i + k] != b[k] {
            assert(a@.subrange(i as int, i + b@.len())[k as int] != b@[k as int]);
            return false;
        }
        k = k + 1;
    }
    assert(a@.subrange(i as int, i + b@.len()) =~= b@);
    true
}

/// Whether `p` is a prefix of `s`.
pub fn starts_with(s: &str, p: &str) -> (r: bool)
    ensures
        r == has_prefix(s@, p@),
{
    let a = chars_of(s);
    let b = chars_of(p);
    vec_occurs_at(&a, &b, 0)
}

/// Whether `p` is a suffix of `s`.
pub fn ends_with(s: &str, p: &str) -> (r: bool)
    ensures
        r == has_suffix(s@, p@),
{
    let a = chars_of(s);
    let b = chars_of(p);
    if b.len() > a.len() {
        return false;
    }
    vec_occurs_at(&a, &b, a.len() - b.len())
}

/// Whether `p` occurs anywhere in `s`.
pub fn contains(s: &str, p: &str) -> (r: bool)
    ensures
        r == occurs_in(s@, p@),
{
    let a = chars_of(s);
    let b = chars_of(p);
    if b.len() > a.len() {
        return false;
    }
    if b.len() == 0 {
        assert(s@.subrange(0, 0) =~= p@);
        assert(occurs_at(s@, p@, 0));
        return true;
    }
    let last = a.len() - b.len();
    let mut i: usize = 0;
    while i <= last
        invariant
            a@ == s@,
            b@ == p@,
            last + b@.len() == a@.len(),
            b@.len() > 0,
            forall|j: int| 0 <= j < i ==> !occurs_at(s@, p@, j),
        decreases a.len() + 1 - i,
    {
        if vec_occurs_at(&a, &b, i) {
            return true;
        }
        i = i + 1;
    }
    assert forall|j: int| !occurs_at(s@, p@, j) by {
        if 0 <= j && j + p@.len() <= s@.len() {
            assert(j < i);
        }
    }
    false
}

/// Whether two strings hold the same characters.
pub fn str_eq(a: &str, b: &str) -> (r: bool)
    ensures
        r == (a@ == b@),
{
    let x = chars_of(a);
    let y = chars_of(b);
    if x.len() != y.len() {
        return false;
    }
    let r = vec_occurs_at(&x, &y, 0);
    proof {
        assert(x@ =~= x@.subrange(0, y@.len() as int));
    }
    r
}

fn digit_str(d: u128) -> (r: &'static str)
    requires
        d < 10,
    ensures
        r@ == seq![digit_char(d as int)],
{
    proof {
        reveal_strlit("0");
        reveal_strlit("1");
        reveal_strlit("2");
        reveal_strlit("3");
        reveal_strlit("4");
        reveal_strlit("5");
        reveal_strlit("6");
        reveal_strlit("7");
        reveal_strlit("8");
        reveal_strlit("9");
    }
    let r = if d == 0 { "0" }
    else if d == 1 { "1" }
    else if d == 2 { "2" }
    else if d == 3 { "3" }
    else if d == 4 { "4" }
    else if d == 5 { "5" }
    else if d == 6 { "6" }
    else if d == 7 { "7" }
    else if d == 8 { "8" }
    else { "9" };
    assert(r@ =~= seq![digit_char(d as int)]);
    r
}

/// Appends the decimal digits of `n` to `out`.
pub fn push_nat(n: u128, out: &mut String)
    ensures
        final(out)@ == old(out)@ + dec_nat(n as nat),
    decreases n,
{
    if n >= 10 {
        push_nat(n / 10, out);
    }
    out.append(digit_str(n % 10));
    assert(out@ =~= old(out)@ + dec_nat(n as nat));
}

/// The decimal form of `n`.
pub fn render_int(n: i64) -> (r: String)
    ensures
        r@ == dec_int(n as int),
{
    let mut out = String::new();
    if n < 0 {
        proof { reveal_strlit("-"); }
        out.append("-");
        let m: u64 = if n == i64::MIN { 9223372036854775808u64 } else { (-n) as u64 };
        push_nat(m as u128, &mut out);
    } else {
        push_nat(n as u128, &mut out);
    }
    assert(out@ =~= dec_int(n as int));
    out
}

} // verus!
