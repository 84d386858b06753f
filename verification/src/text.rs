//! Text that the pipeline writes and reads: decimal numbers in names and
//! addresses, and the search for a date tag inside a file name.

use vstd::prelude::*;

verus! {

/// The character of a decimal digit.
pub open spec fn digit_char(digit: int) -> char {
    if digit == 0 {
        '0'
    } else if digit == 1 {
        '1'
    } else if digit == 2 {
        '2'
    } else if digit == 3 {
        '3'
    } else if digit == 4 {
        '4'
    } else if digit == 5 {
        '5'
    } else if digit == 6 {
        '6'
    } else if digit == 7 {
        '7'
    } else if digit == 8 {
        '8'
    } else {
        '9'
    }
}

/// A natural number in decimal, without leading zeros.
pub open spec fn decimal(n: nat) -> Seq<char>
    decreases n,
{
    if n < 10 {
        seq![digit_char(n as int)]
    } else {
        decimal(n / 10).push(digit_char((n % 10) as int))
    }
}

/// `count` zeros.
pub open spec fn zeros(count: nat) -> Seq<char> {
    Seq::new(count, |i: int| '0')
}

/// A natural number in decimal, with zeros in front up to `width` characters.
pub open spec fn padded(n: nat, width: nat) -> Seq<char> {
    let digits = decimal(n);
    if digits.len() >= width {
        digits
    } else {
        zeros((width - digits.len()) as nat) + digits
    }
}

/// An integer in decimal, a minus sign before a negative one.
pub open spec fn signed_decimal(n: int) -> Seq<char> {
    if n < 0 {
        seq!['-'] + decimal((-n) as nat)
    } else {
        decimal(n as nat)
    }
}

/// An integer in decimal, filled up with zeros behind its sign to `width`
/// characters, the sign counted.
pub open spec fn signed_padded(n: int, width: nat) -> Seq<char> {
    if n < 0 {
        seq!['-'] + padded((-n) as nat, if width >= 1 {
            (width - 1) as nat
        } else {
            0
        })
    } else {
        padded(n as nat, width)
    }
}

/// `needle` occurs in `haystack` as a run of neighbouring characters.
pub open spec fn is_substring(needle: Seq<char>, haystack: Seq<char>) -> bool {
    exists|start: int| occurs_at(needle, haystack, start)
}

/// `needle` occurs in `haystack` from position `start` on.
pub open spec fn occurs_at(needle: Seq<char>, haystack: Seq<char>, start: int) -> bool {
    &&& 0 <= start
    &&& start + needle.len() <= haystack.len()
    &&& haystack.subrange(start, start + needle.len()) == needle
}

/// The character is a decimal digit.
pub open spec fn is_digit(c: char) -> bool {
    c == '0' || c == '1' || c == '2' || c == '3' || c == '4' || c == '5' || c == '6' || c == '7'
        || c == '8' || c == '9'
}

/// Every character of `s` is a decimal digit or a minus sign.
pub open spec fn is_numeric(s: Seq<char>) -> bool {
    forall|i: int| 0 <= i < s.len() ==> is_digit(#[trigger] s[i]) || s[i] == '-'
}

/// A number in decimal, padded or not, signed or not, is made of digits and
/// at most a minus sign.
pub proof fn lemma_numbers_are_numeric(n: int, width: nat)
    ensures
        n >= 0 ==> is_numeric(decimal(n as nat)),
        n >= 0 ==> is_numeric(padded(n as nat, width)),
        is_numeric(signed_decimal(n)),
        is_numeric(signed_padded(n, width)),
{
    let m: nat = if n >= 0 {
        n as nat
    } else {
        (-n) as nat
    };
    lemma_decimal_digits(m);
    let narrow: nat = if width >= 1 {
        (width - 1) as nat
    } else {
        0
    };
    assert(is_numeric(padded(m, width)));
    assert(is_numeric(padded(m, narrow)));
}

/// A natural number in decimal is made of digits.
pub proof fn lemma_decimal_digits(n: nat)
    ensures
        forall|i: int| 0 <= i < decimal(n).len() ==> is_digit(#[trigger] decimal(n)[i]),
    decreases n,
{
    if n >= 10 {
        lemma_decimal_digits(n / 10);
        assert forall|i: int| 0 <= i < decimal(n).len() implies is_digit(
            #[trigger] decimal(n)[i],
        ) by {
            if i < decimal(n / 10).len() {
                assert(decimal(n)[i] == decimal(n / 10)[i]);
            } else {
                assert(decimal(n)[i] == digit_char((n % 10) as int));
            }
        }
    } else {
        assert(decimal(n)[0] == digit_char(n as int));
    }
}

/// A decimal digit as text.
fn digit_str(digit: u64) -> (s: &'static str)
    requires
        digit < 10,
    ensures
        s@ == seq![digit_char(digit as int)],
{
    proof {
        reveal_strlit("0");
        reveal_strlit("1");
        reveal_strlit("2");
        reveal_strlit("3");
        reveal_strlit("4");
        reveal_strlit("5");
        reveal_strlit("6");
        reveal_strlit("7");
        reveal_strlit("8");
        reveal_strlit("9");
    }
    let s = if digit == 0 {
        "0"
    } else if digit == 1 {
        "1"
    } else if digit == 2 {
        "2"
    } else if digit == 3 {
        "3"
    } else if digit == 4 {
        "4"
    } else if digit == 5 {
        "5"
    } else if digit == 6 {
        "6"
    } else if digit == 7 {
        "7"
    } else if digit == 8 {
        "8"
    } else {
        "9"
    };
    assert(s@ =~= seq![digit_char(digit as int)]);
    s
}

/// Appends `n` in decimal to `out`.
pub fn push_decimal(out: &mut String, n: u64)
    ensures
        final(out)@ == old(out)@ + decimal(n as nat),
    decreases n,
{
    if n >= 10 {
        push_decimal(out, n / 10);
    }
    out.append(digit_str(n % 10));
    assert(final(out)@ =~= old(out)@ + decimal(n as nat));
}

/// Appends `count` zeros to `out`.
fn push_zeros(out: &mut String, count: usize)
    ensures
        final(out)@ == old(out)@ + zeros(count as nat),
{
    let mut i: usize = 0;
    proof {
        reveal_strlit("0");
    }
    while i < count
        invariant
            i <= count,
            out@ == old(out)@ + zeros(i as nat),
            "0"@ == seq!['0'],
        decreases count - i,
    {
        out.append("0");
        i = i + 1;
        assert(out@ =~= old(out)@ + zeros(i as nat));
    }
}

/// How many digits `n` has in decimal.
fn decimal_len(n: u64) -> (len: usize)
    ensures
        len == decimal(n as nat).len(),
        1 <= len <= 20,
{
    let mut len: usize = 1;
    let mut rest: u64 = n;
    assert(rest as nat * pow10(0) <= n) by (nonlinear_arith)
        requires
            rest == n,
            pow10(0) == 1,
    ;
    while rest >= 10
        invariant
            1 <= len <= 20,
            decimal(n as nat).len() == decimal(rest as nat).len() + len - 1,
            rest as nat * pow10((len - 1) as nat) <= n,
        decreases rest,
    {
        proof {
            lemma_pow10_step(rest as nat, (len - 1) as nat, n as nat);
        }
        rest = rest / 10;
        len = len + 1;
    }
    len
}

/// Ten to the power `e`.
spec fn pow10(e: nat) -> nat
    decreases e,
{
    if e == 0 {
        1
    } else {
        10 * pow10((e - 1) as nat)
    }
}

/// Taking a digit off a number that fits in sixty-four bits leaves room for
/// one more power of ten, and there are at most nineteen of them.
proof fn lemma_pow10_step(rest: nat, e: nat, n: nat)
    requires
        rest >= 10,
        rest * pow10(e) <= n,
        n <= u64::MAX,
    ensures
        (rest / 10) * pow10(e + 1) <= n,
        e + 1 <= 19,
{
    let p = pow10(e);
    assert(pow10(e + 1) == 10 * p);
    assert((rest / 10) * (10 * p) <= rest * p) by (nonlinear_arith)
        requires
            rest >= 0,
            p >= 0,
    ;
    if e + 1 > 19 {
        lemma_pow10_grows(19, e);
        assert(pow10(19) == 10_000_000_000_000_000_000) by {
            reveal_with_fuel(pow10, 20);
        }
        assert(10 * p <= rest * p) by (nonlinear_arith)
            requires
                rest >= 10,
                p >= 0,
        ;
    }
}

/// Powers of ten grow with the exponent.
proof fn lemma_pow10_grows(a: nat, b: nat)
    requires
        a <= b,
    ensures
        pow10(a) <= pow10(b),
    decreases b,
{
    if a < b {
        lemma_pow10_grows(a, (b - 1) as nat);
    }
}

/// Appends `n` in decimal to `out`, with zeros in front up to `width` characters.
pub fn push_padded(out: &mut String, n: u64, width: usize)
    ensures
        final(out)@ == old(out)@ + padded(n as nat, width as nat),
{
    let len = decimal_len(n);
    if len < width {
        push_zeros(out, width - len);
    }
    push_decimal(out, n);
    assert(final(out)@ =~= old(out)@ + padded(n as nat, width as nat));
}

/// The absolute value of a negative number.
fn magnitude(n: i64) -> (m: u64)
    requires
        n < 0,
    ensures
        m == -n,
{
    let below: i64 = -(n + 1);
    below as u64 + 1
}

/// Appends `n` in decimal to `out`, a minus sign before a negative number.
pub fn push_signed(out: &mut String, n: i64)
    ensures
        final(out)@ == old(out)@ + signed_decimal(n as int),
{
    proof {
        reveal_strlit("-");
    }
    if n < 0 {
        out.append("-");
        push_decimal(out, magnitude(n));
        assert(final(out)@ =~= old(out)@ + signed_decimal(n as int));
    } else {
        push_decimal(out, n as u64);
    }
}

/// Appends `n` in decimal to `out`, filled up with zeros behind its sign to
/// `width` characters, the sign counted.
pub fn push_signed_padded(out: &mut String, n: i64, width: usize)
    ensures
        final(out)@ == old(out)@ + signed_padded(n as int, width as nat),
{
    proof {
        reveal_strlit("-");
    }
    if n < 0 {
        out.append("-");
        let rest: usize = if width >= 1 {
            width - 1
        } else {
            0
        };
        push_padded(out, magnitude(n), rest);
        assert(final(out)@ =~= old(out)@ + signed_padded(n as int, width as nat));
    } else {
        push_padded(out, n as u64, width);
    }
}

/// The characters of a string, one by one.
pub fn chars_of(s: &str) -> (v: Vec<char>)
    ensures
        v@ == s@,
{
    let mut v: Vec<char> = Vec::new();
    for c in it: s.chars()
        invariant
            v@ == it.seq().take(it.index() as int),
            it.seq() == s@,
    {
        v.push(c);
    }
    assert(v@ =~= s@);
    v
}

/// Whether `needle` stands in `haystack` from position `start` on.
fn matches_at(needle: &Vec<char>, haystack: &Vec<char>, start: usize) -> (found: bool)
    requires
        start + needle.len() <= haystack.len(),
    ensures
        found == occurs_at(needle@, haystack@, start as int),
{
    let mut i: usize = 0;
    while i < needle.len()
        invariant
            i <= needle.len(),
            start + needle.len() <= haystack.len(),
            forall|k: int| 0 <= k < i ==> haystack@[start + k] == needle@[k],
        decreases needle.len() - i,
    {
        if haystack[start + i] != needle[i] {
            proof {
                let window = haystack@.subrange(start as int, start + needle@.len());
                assert(window[i as int] != needle@[i as int]);
            }
            return false;
        }
        i = i + 1;
    }
    assert(haystack@.subrange(start as int, start + needle@.len()) =~= needle@);
    true
}

/// Whether `needle` occurs in `haystack`.
pub fn contains(haystack: &str, needle: &str) -> (found: bool)
    ensures
        found == is_substring(needle@, haystack@),
{
    let hay = chars_of(haystack);
    let pin = chars_of(needle);
    if pin.len() > hay.len() {
        return false;
    }
    let last: usize = hay.len() - pin.len();
    let mut start: usize = 0;
    loop
        invariant
            start <= last,
            last == hay.len() - pin.len(),
            pin.len() <= hay.len(),
            hay@ == haystack@,
            pin@ == needle@,
            forall|s: int| 0 <= s < start ==> !occurs_at(needle@, haystack@, s),
        decreases last - start,
    {
        if matches_at(&pin, &hay, start) {
            return true;
        }
        if start == last {
            return false;
        }
        start = start + 1;
    }
}

/// Whether two texts are the same.
pub fn same_text(a: &str, b: &str) -> (same: bool)
    ensures
        same == (a@ == b@),
{
    let left = chars_of(a);
    let right = chars_of(b);
    if left.len() != right.len() {
        return false;
    }
    let found = matches_at(&left, &right, 0);
    assert(right@.subrange(0, left@.len() as int) =~= right@);
    found
}

} // verus!
