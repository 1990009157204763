//! Natural numbers of any size, read from and written in decimal.
//!
//! A number is held as its digit values, most significant first; leading
//! zeros are allowed and change nothing.

use vstd::prelude::*;
use vstd::string::StringExecFns;
use vstd::string::StrSliceExecFns;

verus! {

/// Whether `c` is one of `0` to `9`.
pub open spec fn is_digit(c: char) -> bool {
    48 <= c as u32 <= 57
}

/// The character for the digit `d`, for `d` below ten.
pub open spec fn digit_char(d: nat) -> char {
    if d == 0 {
        '0'
    } else if d == 1 {
        '1'
    } else if d == 2 {
        '2'
    } else if d == 3 {
        '3'
    } else if d == 4 {
        '4'
    } else if d == 5 {
        '5'
    } else if d == 6 {
        '6'
    } else if d == 7 {
        '7'
    } else if d == 8 {
        '8'
    } else {
        '9'
    }
}

/// `n` in decimal, without sign or leading zeros.
pub open spec fn decimal(n: nat) -> Seq<char>
    decreases n,
{
    if n < 10 {
        seq![digit_char(n)]
    } else {
        decimal(n / 10).push(digit_char(n % 10))
    }
}

/// The number that a run of decimal digits stands for.
pub open spec fn digits_number(s: Seq<char>) -> nat
    decreases s.len(),
{
    if s.len() == 0 {
        0
    } else {
        digits_number(s.drop_last()) * 10 + (s.last() as u32 - 48) as nat
    }
}

/// Whether every character of `s` is a decimal digit.
pub open spec fn all_digits(s: Seq<char>) -> bool {
    forall|i: int| 0 <= i < s.len() ==> is_digit(#[trigger] s[i])
}

/// `s` without one leading `+`, if it has one.
pub open spec fn unsigned_part(s: Seq<char>) -> Seq<char> {
    if s.len() > 0 && s[0] == '+' {
        s.skip(1)
    } else {
        s
    }
}

/// The number that `s` spells in decimal: an optional `+`, then one or more
/// digits. Anything else spells no number.
pub open spec fn read_number(s: Seq<char>) -> Option<nat> {
    let body = unsigned_part(s);
    if body.len() > 0 && all_digits(body) {
        Some(digits_number(body))
    } else {
        None
    }
}

/// Whether every item of `ds` is a digit value, zero to nine.
pub open spec fn are_digits(ds: Seq<u8>) -> bool {
    forall|i: int| 0 <= i < ds.len() ==> #[trigger] ds[i] <= 9
}

/// The number that the digit values `ds` stand for, most significant first.
pub open spec fn number(ds: Seq<u8>) -> nat
    decreases ds.len(),
{
    if ds.len() == 0 {
        0
    } else {
        number(ds.drop_last()) * 10 + ds.last() as nat
    }
}

/// `ds` with zeros in front, to the length `n`.
pub open spec fn padded(ds: Seq<u8>, n: int) -> Seq<u8> {
    Seq::new((n - ds.len()) as nat, |i: int| 0u8) + ds
}

/// One more digit at the end: ten times the number, and the digit.
pub proof fn lemma_number_push(ds: Seq<u8>, d: u8)
    ensures
        number(ds.push(d)) == number(ds) * 10 + d as nat,
{
    assert(ds.push(d).drop_last() =~= ds);
}

/// Zeros stand for zero.
pub proof fn lemma_zeros(k: nat)
    ensures
        number(Seq::new(k, |i: int| 0u8)) == 0,
    decreases k,
{
    if k > 0 {
        lemma_zeros((k - 1) as nat);
        assert(Seq::new(k, |i: int| 0u8).drop_last() =~= Seq::new((k - 1) as nat, |i: int| 0u8));
    }
}

/// Zeros in front change nothing.
pub proof fn lemma_padding(ds: Seq<u8>, n: int)
    requires
        n >= ds.len(),
    ensures
        number(padded(ds, n)) == number(ds),
    decreases ds.len(),
{
    if ds.len() == 0 {
        lemma_zeros(n as nat);
        assert(padded(ds, n) =~= Seq::new(n as nat, |i: int| 0u8));
    } else {
        lemma_padding(ds.drop_last(), n - 1);
        assert(padded(ds, n).drop_last() =~= padded(ds.drop_last(), n - 1));
        assert(padded(ds, n).last() == ds.last());
    }
}

/// A run of leading zeros stands for zero.
pub proof fn lemma_leading_zeros(ds: Seq<u8>, k: int)
    requires
        0 <= k <= ds.len(),
        forall|j: int| 0 <= j < k ==> ds[j] == 0,
    ensures
        number(ds.take(k)) == 0,
    decreases k,
{
    if k > 0 {
        lemma_leading_zeros(ds, k - 1);
        assert(ds.take(k).drop_last() =~= ds.take(k - 1));
        assert(ds.take(k).last() == ds[k - 1]);
    }
}

fn digit_str(d: u64) -> (s: &'static str)
    requires
        d < 10,
    ensures
        s@ == seq![digit_char(d as nat)],
{
    proof {
        reveal_strlit("0");
        reveal_strlit("1");
        reveal_strlit("2");
        reveal_strlit("3");
        reveal_strlit("4");
        reveal_strlit("5");
        reveal_strlit("6");
        reveal_strlit("7");
        reveal_strlit("8");
        reveal_strlit("9");
    }
    let s = if d == 0 {
        "0"
    } else if d == 1 {
        "1"
    } else if d == 2 {
        "2"
    } else if d == 3 {
        "3"
    } else if d == 4 {
        "4"
    } else if d == 5 {
        "5"
    } else if d == 6 {
        "6"
    } else if d == 7 {
        "7"
    } else if d == 8 {
        "8"
    } else {
        "9"
    };
    assert(s@ =~= seq![digit_char(d as nat)]);
    s
}

/// Reads a number of any size, as [`read_number`] defines it.
pub fn read_digits(s: &str) -> (r: Option<Vec<u8>>)
    ensures
        match r {
            Some(ds) => are_digits(ds@) && read_number(s@) == Some(number(ds@)),
            None => read_number(s@) is None,
        },
{
    let len = s.unicode_len();
    if len == 0 {
        return None;
    }
    let start: usize = if s.get_char(0) == '+' {
        1
    } else {
        0
    };
    let ghost body = unsigned_part(s@);
    assert(body =~= s@.skip(start as int));
    if start == len {
        return None;
    }
    let mut ds: Vec<u8> = Vec::new();
    let mut i: usize = start;
    while i < len
        invariant
            start <= i <= len,
            len == s@.len(),
            body == unsigned_part(s@),
            body == s@.skip(start as int),
            all_digits(body.take(i - start)),
            are_digits(ds@),
            number(ds@) == digits_number(body.take(i - start)),
        decreases len - i,
    {
        let c = s.get_char(i);
        let ghost shorter = body.take(i - start);
        let ghost longer = body.take(i - start + 1);
        assert(longer.drop_last() =~= shorter);
        assert(longer.last() == c);
        let code = c as u32;
        if code < 48 || code > 57 {
            assert(!is_digit(body[i - start]));
            return None;
        }
        assert forall|j: int| 0 <= j < longer.len() implies is_digit(#[trigger] longer[j]) by {
            if j < shorter.len() {
                assert(longer[j] == shorter[j]);
            }
        }
        let d: u8 = (code - 48) as u8;
        proof {
            lemma_number_push(ds@, d);
        }
        ds.push(d);
        i += 1;
    }
    assert(body.take(len - start) =~= body);
    Some(ds)
}

/// The number after `ds`.
pub fn successor(ds: Vec<u8>) -> (r: Vec<u8>)
    requires
        are_digits(ds@),
    ensures
        are_digits(r@),
        number(r@) == number(ds@) + 1,
    decreases ds.len(),
{
    let mut v = ds;
    match v.pop() {
        None => {
            let mut r: Vec<u8> = Vec::new();
            r.push(1u8);
            proof {
                lemma_number_push(Seq::<u8>::empty(), 1u8);
                assert(r@ =~= Seq::<u8>::empty().push(1u8));
            }
            r
        },
        Some(d) => {
            proof {
                assert(ds@ =~= v@.push(d));
                lemma_number_push(v@, d);
                assert(ds@[ds.len() - 1] == d);
                assert forall|i: int| 0 <= i < v.len() implies #[trigger] v@[i] <= 9 by {
                    assert(v@[i] == ds@[i]);
                }
            }
            if d < 9 {
                proof {
                    lemma_number_push(v@, (d + 1) as u8);
                }
                v.push(d + 1);
                v
            } else {
                let mut r = successor(v);
                proof {
                    lemma_number_push(r@, 0u8);
                }
                r.push(0u8);
                r
            }
        },
    }
}

/// Whether the number of `a` is less than that of `b`.
pub fn is_less(a: &Vec<u8>, b: &Vec<u8>) -> (less: bool)
    requires
        are_digits(a@),
        are_digits(b@),
    ensures
        less == (number(a@) < number(b@)),
{
    let la = a.len();
    let lb = b.len();
    let n = if la > lb {
        la
    } else {
        lb
    };
    let ghost pa = padded(a@, n as int);
    let ghost pb = padded(b@, n as int);
    proof {
        lemma_padding(a@, n as int);
        lemma_padding(b@, n as int);
    }
    // 0: equal so far; 1: `a` is less; 2: `a` is greater.
    let mut order: u8 = 0;
    let mut i: usize = 0;
    while i < n
        invariant
            i <= n,
            la == a.len(),
            lb == b.len(),
            la <= n,
            lb <= n,
            pa == padded(a@, n as int),
            pb == padded(b@, n as int),
            are_digits(a@),
            are_digits(b@),
            order <= 2,
            order == 0 ==> number(pa.take(i as int)) == number(pb.take(i as int)),
            order == 1 ==> number(pa.take(i as int)) < number(pb.take(i as int)),
            order == 2 ==> number(pa.take(i as int)) > number(pb.take(i as int)),
        decreases n - i,
    {
        let da: u8 = if i < n - la {
            0
        } else {
            a[i - (n - la)]
        };
        let db: u8 = if i < n - lb {
            0
        } else {
            b[i - (n - lb)]
        };
        proof {
            assert(pa[i as int] == da);
            assert(pb[i as int] == db);
            assert(pa.take(i + 1) =~= pa.take(i as int).push(da));
            assert(pb.take(i + 1) =~= pb.take(i as int).push(db));
            lemma_number_push(pa.take(i as int), da);
            lemma_number_push(pb.take(i as int), db);
        }
        if order == 0 {
            if da < db {
                order = 1;
            } else if da > db {
                order = 2;
            }
        }
        i += 1;
    }
    assert(pa.take(n as int) =~= pa);
    assert(pb.take(n as int) =~= pb);
    order == 1
}

/// Writes the number of `ds` in decimal, without leading zeros.
pub fn write_digits(ds: &Vec<u8>) -> (text: String)
    requires
        are_digits(ds@),
    ensures
        text@ == decimal(number(ds@)),
{
    let n = ds.len();
    let mut first: usize = 0;
    while first < n && ds[first] == 0
        invariant
            first <= n,
            n == ds.len(),
            forall|j: int| 0 <= j < first ==> ds@[j] == 0,
        decreases n - first,
    {
        first += 1;
    }
    proof {
        lemma_leading_zeros(ds@, first as int);
    }
    if first == n {
        assert(ds@.take(n as int) =~= ds@);
        return String::from_str(digit_str(0));
    }
    let lead = ds[first];
    proof {
        assert(ds@.take(first + 1) =~= ds@.take(first as int).push(lead));
        lemma_number_push(ds@.take(first as int), lead);
    }
    let mut text = String::from_str(digit_str(lead as u64));
    let mut i: usize = first + 1;
    while i < n
        invariant
            first < i <= n,
            n == ds.len(),
            are_digits(ds@),
            number(ds@.take(i as int)) >= 1,
            text@ == decimal(number(ds@.take(i as int))),
        decreases n - i,
    {
        let d = ds[i];
        let ghost m = number(ds@.take(i as int));
        proof {
            assert(ds@.take(i + 1) =~= ds@.take(i as int).push(d));
            lemma_number_push(ds@.take(i as int), d);
            let v = number(ds@.take(i + 1));
            assert(v == m * 10 + d);
            assert(v >= 10 && v / 10 == m && v % 10 == d as nat);
        }
        text.append(digit_str(d as u64));
        assert(text@ =~= decimal(m).push(digit_char(d as nat)));
        i += 1;
    }
    assert(ds@.take(n as int) =~= ds@);
    text
}

/// A number written in decimal is made of digits and stands for itself.
pub proof fn lemma_decimal_is_digits(n: nat)
    ensures
        decimal(n).len() >= 1,
        all_digits(decimal(n)),
        digits_number(decimal(n)) == n,
    decreases n,
{
    if n < 10 {
        let s = decimal(n);
        assert(s.len() == 1 && s[0] == digit_char(n));
        assert(s.drop_last().len() == 0);
        assert(digits_number(s.drop_last()) == 0);
        assert(digit_char(n) as u32 - 48 == n);
    } else {
        lemma_decimal_is_digits(n / 10);
        let shorter = decimal(n / 10);
        let s = decimal(n);
        assert(s == shorter.push(digit_char(n % 10)));
        assert(s.drop_last() =~= shorter);
        assert(s.last() == digit_char(n % 10));
        assert(digit_char(n % 10) as u32 - 48 == n % 10);
        assert forall|i: int| 0 <= i < s.len() implies is_digit(#[trigger] s[i]) by {
            if i < shorter.len() {
                assert(s[i] == shorter[i]);
            }
        }
    }
}

/// A number written in decimal is read back as itself.
pub proof fn lemma_decimal_reads_back(n: nat)
    ensures
        read_number(decimal(n)) == Some(n),
{
    lemma_decimal_is_digits(n);
    let s = decimal(n);
    assert(is_digit(s[0]));
    assert(unsigned_part(s) == s);
}

} // verus!
