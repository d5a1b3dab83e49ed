//! Character-level helpers shared by the parsers and message builders:
//! decimal digits, the documented grammar of unsigned integer parsing, and
//! string building.
use vstd::prelude::*;
use vstd::string::StringExecFns;

verus! {

/// The characters of a string slice, in order.
pub fn chars_of(s: &str) -> (r: Vec<char>)
    ensures
        r@ == s@,
{
    let mut r: Vec<char> = Vec::new();
    for c in it: s.chars()
        invariant
            r@ == it.seq().take(it.index() as int),
            it.seq() == s@,
    {
        r.push(c);
    }
    r
}

/// Every character takes at least one byte in UTF-8.
pub proof fn lemma_bytes_at_least_chars(cs: Seq<char>)
    ensures
        vstd::utf8::encode_utf8(cs).len() >= cs.len(),
    decreases cs.len(),
{
    if cs.len() > 0 {
        lemma_bytes_at_least_chars(cs.drop_first());
        assert(vstd::utf8::encode_scalar(cs[0] as u32).len() >= 1);
    }
}

/// Appends one character to a string (`String::push`).
#[verifier::external_body]
pub fn push_char(s: &mut String, c: char)
    ensures
        final(s)@ == old(s)@.push(c),
{
    s.push(c);
}

/// Appends a string slice to a string.
pub fn push_str(s: &mut String, t: &str)
    ensures
        final(s)@ == old(s)@ + t@,
{
    s.append(t);
}

pub open spec fn is_digit(c: char) -> bool {
    '0' <= c && c <= '9'
}

pub open spec fn digit_value(c: char) -> int {
    c as int - '0' as int
}

pub open spec fn digit_char(d: nat) -> char
    recommends
        d < 10,
{
    ((d + '0' as nat) as u32) as char
}

pub open spec fn all_digits(s: Seq<char>) -> bool {
    forall|i: int| 0 <= i < s.len() ==> is_digit(#[trigger] s[i])
}

/// The number written by a sequence of decimal digits (most significant first).
pub open spec fn digits_value(s: Seq<char>) -> int
    decreases s.len(),
{
    if s.len() == 0 {
        0
    } else {
        digits_value(s.drop_last()) * 10 + digit_value(s.last())
    }
}

/// The decimal representation of a natural number, without leading zeros
/// (zero is written `0`).
pub open spec fn decimal(n: nat) -> Seq<char>
    decreases n,
{
    if n < 10 {
        seq![digit_char(n)]
    } else {
        decimal(n / 10).push(digit_char(n % 10))
    }
}

/// The decimal representation of an integer, with a leading `-` when negative.
pub open spec fn signed_decimal(n: int) -> Seq<char> {
    if n < 0 {
        seq!['-'] + decimal((-n) as nat)
    } else {
        decimal(n as nat)
    }
}

/// What `u64::from_str` accepts according to its documentation: an optional
/// `+` sign followed by at least one ASCII digit, with a value that fits.
pub open spec fn spec_parse_u64(s: Seq<char>) -> Option<u64> {
    let body = if s.len() > 0 && s[0] == '+' {
        s.drop_first()
    } else {
        s
    };
    if body.len() > 0 && all_digits(body) && digits_value(body) <= u64::MAX {
        Some(digits_value(body) as u64)
    } else {
        None
    }
}

pub proof fn lemma_digits_value_nonneg(s: Seq<char>)
    requires
        all_digits(s),
    ensures
        digits_value(s) >= 0,
    decreases s.len(),
{
    if s.len() > 0 {
        lemma_digits_value_nonneg(s.drop_last());
    }
}

pub proof fn lemma_digits_value_prefix(s: Seq<char>, k: int)
    requires
        all_digits(s),
        0 <= k <= s.len(),
    ensures
        digits_value(s.take(k)) <= digits_value(s),
    decreases s.len(),
{
    if k < s.len() {
        assert(s.drop_last().take(k) =~= s.take(k));
        lemma_digits_value_prefix(s.drop_last(), k);
        lemma_digits_value_nonneg(s.drop_last());
    } else {
        assert(s.take(k) =~= s);
    }
}

/// Parses a run of characters the way `str::parse::<u64>` does.
pub fn parse_u64(s: &[char]) -> (r: Option<u64>)
    ensures
        r == spec_parse_u64(s@),
{
    let start: usize = if s.len() > 0 && s[0] == '+' { 1 } else { 0 };
    let ghost body = if s@.len() > 0 && s@[0] == '+' { s@.drop_first() } else { s@ };
    assert(body =~= s@.skip(start as int));
    if start >= s.len() {
        return None;
    }
    let mut acc: u64 = 0;
    let mut i: usize = start;
    while i < s.len()
        invariant
            start <= i <= s.len(),
            body =~= s@.skip(start as int),
            body == (if s@.len() > 0 && s@[0] == '+' { s@.drop_first() } else { s@ }),
            all_digits(body.take(i - start)),
            acc == digits_value(body.take(i - start)),
        decreases s.len() - i,
    {
        let c = s[i];
        if !('0' <= c && c <= '9') {
            assert(body[i - start] == c);
            assert(!is_digit(body[i - start]));
            return None;
        }
        let d = (c as u32 - '0' as u32) as u64;
        let ghost pre = body.take(i - start);
        assert(body.take(i - start + 1) =~= pre.push(c));
        assert(body.take(i - start + 1).drop_last() =~= pre);
        assert(digits_value(body.take(i - start + 1)) == acc * 10 + d);
        match acc.checked_mul(10) {
            Some(m) => match m.checked_add(d) {
                Some(v) => {
                    acc = v;
                },
                None => {
                    proof {
                        if all_digits(body) {
                            lemma_digits_value_prefix(body, i - start + 1);
                        }
                    }
                    return None;
                },
            },
            None => {
                proof {
                    if all_digits(body) {
                        lemma_digits_value_prefix(body, i - start + 1);
                    }
                }
                return None;
            },
        }
        i = i + 1;
    }
    assert(body.take(i - start) =~= body);
    Some(acc)
}

/// Appends the decimal representation of `n`.
pub fn push_decimal(s: &mut String, n: u64)
    ensures
        final(s)@ == old(s)@ + decimal(n as nat),
    decreases n,
{
    if n >= 10 {
        push_decimal(s, n / 10);
    }
    let d = (n % 10) as u32;
    let c = char_from_digit(d);
    push_char(s, c);
    proof {
        if n >= 10 {
            assert(decimal(n as nat) =~= decimal((n / 10) as nat).push(digit_char((n % 10) as nat)));
        }
    }
}

/// Appends the decimal representation of `n`, with a `-` when negative.
pub fn push_signed_decimal(s: &mut String, n: i64)
    ensures
        final(s)@ == old(s)@ + signed_decimal(n as int),
{
    if n < 0 {
        push_char(s, '-');
        let m: u64 = (0i128 - n as i128) as u64;
        push_decimal(s, m);
        assert(old(s)@.push('-') + decimal(m as nat) =~= old(s)@ + (seq!['-'] + decimal(m as nat)));
    } else {
        push_decimal(s, n as u64);
    }
}

/// The decimal representation of `n`, with a `-` when negative, as a new
/// string.
pub fn i64_to_string(n: i64) -> (r: String)
    ensures
        r@ == signed_decimal(n as int),
{
    let mut s = String::new();
    push_signed_decimal(&mut s, n);
    assert(Seq::<char>::empty() + signed_decimal(n as int) =~= signed_decimal(n as int));
    s
}

/// Whether two string slices hold the same characters.
pub fn str_eq(a: &str, b: &str) -> (r: bool)
    ensures
        r == (a@ == b@),
{
    let x = chars_of(a);
    let y = chars_of(b);
    if x.len() != y.len() {
        return false;
    }
    let mut i: usize = 0;
    while i < x.len()
        invariant
            x@ == a@,
            y@ == b@,
            x@.len() == y@.len(),
            i <= x@.len(),
            forall|k: int| 0 <= k < i ==> x@[k] == y@[k],
        decreases x@.len() - i,
    {
        if x[i] != y[i] {
            assert(a@[i as int] != b@[i as int]);
            return false;
        }
        i = i + 1;
    }
    assert(x@ =~= y@);
    true
}

/// Whether `s` holds `lit` from position `p` on.
pub open spec fn holds_at(s: Seq<char>, p: int, lit: Seq<char>) -> bool {
    0 <= p && p + lit.len() <= s.len() && s.subrange(p, p + lit.len()) == lit
}

/// Whether `cs` holds `lit` from position `p` on.
pub fn holds_at_exec(cs: &Vec<char>, p: usize, lit: &str) -> (r: bool)
    ensures
        r == holds_at(cs@, p as int, lit@),
{
    let l = chars_of(lit);
    if l.len() > cs.len() || p > cs.len() - l.len() {
        return false;
    }
    let end = p + l.len();
    let mut i: usize = 0;
    while i < l.len()
        invariant
            l@ == lit@,
            end == p + l@.len(),
            end <= cs@.len(),
            i <= l@.len(),
            forall|k: int| 0 <= k < i ==> cs@[p + k] == l@[k],
        decreases l@.len() - i,
    {
        if cs[p + i] != l[i] {
            assert(cs@.subrange(p as int, p + l@.len())[i as int] != lit@[i as int]);
            return false;
        }
        i = i + 1;
    }
    assert(cs@.subrange(p as int, p + l@.len()) =~= lit@);
    true
}

/// Whether every character is an ASCII decimal digit.
pub fn all_ascii_digits(s: &[char]) -> (r: bool)
    ensures
        r == all_digits(s@),
{
    let mut i: usize = 0;
    while i < s.len()
        invariant
            i <= s@.len(),
            forall|k: int| 0 <= k < i ==> is_digit(#[trigger] s@[k]),
        decreases s@.len() - i,
    {
        if !('0' <= s[i] && s[i] <= '9') {
            assert(!is_digit(s@[i as int]));
            return false;
        }
        i = i + 1;
    }
    true
}

/// The character of a decimal digit.
pub fn char_from_digit(d: u32) -> (c: char)
    requires
        d < 10,
    ensures
        c == digit_char(d as nat),
{
    if d == 0 { '0' }
    else if d == 1 { '1' }
    else if d == 2 { '2' }
    else if d == 3 { '3' }
    else if d == 4 { '4' }
    else if d == 5 { '5' }
    else if d == 6 { '6' }
    else if d == 7 { '7' }
    else if d == 8 { '8' }
    else { '9' }
}

} // verus!

verus! {

/// Writing a number in decimal and reading the digits back gives the
/// number: the decimal form is made of digits, none but zero starting
/// with `0`.
pub proof fn lemma_decimal_roundtrip(n: nat)
    ensures
        all_digits(decimal(n)),
        decimal(n).len() >= 1,
        digits_value(decimal(n)) == n,
    decreases n,
{
    if n < 10 {
        assert(digits_value(seq![digit_char(n)].drop_last()) == 0);
    } else {
        lemma_decimal_roundtrip(n / 10);
        let d = decimal(n);
        assert(d.drop_last() =~= decimal(n / 10));
    }
}

/// A number of `k` or more decimal digits is at least `10^(k-1)`.
pub proof fn lemma_decimal_len(n: nat, k: nat)
    requires
        n >= pow10_nat(k),
    ensures
        decimal(n).len() > k,
    decreases k,
{
    if k > 0 {
        assert(n >= 10) by {
            lemma_pow10_nat_positive((k - 1) as nat);
        }
        assert(n / 10 >= pow10_nat((k - 1) as nat)) by {
            vstd::arithmetic::div_mod::lemma_div_is_ordered((10 * pow10_nat((k - 1) as nat)) as int, n as int, 10);
            vstd::arithmetic::div_mod::lemma_div_multiples_vanish(pow10_nat((k - 1) as nat) as int, 10);
        }
        lemma_decimal_len(n / 10, (k - 1) as nat);
    }
}

/// `10^k`.
pub open spec fn pow10_nat(k: nat) -> nat
    decreases k,
{
    if k == 0 {
        1
    } else {
        10 * pow10_nat((k - 1) as nat)
    }
}

pub proof fn lemma_pow10_nat_positive(k: nat)
    ensures
        pow10_nat(k) >= 1,
    decreases k,
{
    if k > 0 {
        lemma_pow10_nat_positive((k - 1) as nat);
    }
}

} // verus!

verus! {

/// A leading zero does not change the value of a run of digits.
pub proof fn lemma_leading_zero_value(d: Seq<char>)
    ensures
        digits_value(seq!['0'] + d) == digits_value(d),
    decreases d.len(),
{
    let s = seq!['0'] + d;
    if d.len() == 0 {
        assert(s.drop_last() =~= Seq::<char>::empty());
        assert(s.last() == '0');
        assert(digits_value(s) == digits_value(s.drop_last()) * 10 + digit_value(s.last()));
    } else {
        lemma_leading_zero_value(d.drop_last());
        assert(s.drop_last() =~= seq!['0'] + d.drop_last());
        assert(s.last() == d.last());
        assert(digits_value(s) == digits_value(s.drop_last()) * 10 + digit_value(s.last()));
    }
}

/// The length of the run of decimal digits of `s` from `p` on.
pub open spec fn digit_run(s: Seq<char>, p: int) -> nat
    decreases s.len() - p,
{
    if p < 0 || p >= s.len() || !is_digit(s[p]) {
        0
    } else {
        1 + digit_run(s, p + 1)
    }
}

/// A run of digits followed by something else is as long as it is.
pub proof fn lemma_digit_run(s: Seq<char>, p: int, n: nat)
    requires
        0 <= p,
        p + n <= s.len(),
        forall|k: int| p <= k < p + n ==> is_digit(#[trigger] s[k]),
        p + n == s.len() || !is_digit(s[p + n]),
    ensures
        digit_run(s, p) == n,
    decreases n,
{
    if n > 0 {
        lemma_digit_run(s, p + 1, (n - 1) as nat);
    }
}

} // verus!

verus! {

/// What `i64::from_str` accepts according to its documentation: an optional
/// `+` or `-` sign followed by at least one ASCII digit, with a value that
/// fits.
pub open spec fn spec_parse_i64(s: Seq<char>) -> Option<i64> {
    if s.len() > 0 && s[0] == '-' {
        let body = s.drop_first();
        if body.len() > 0 && all_digits(body) && digits_value(body) <= 0x8000_0000_0000_0000 {
            Some((-digits_value(body)) as i64)
        } else {
            None
        }
    } else {
        match spec_parse_u64(s) {
            Some(v) => if v <= i64::MAX {
                Some(v as i64)
            } else {
                None
            },
            None => None,
        }
    }
}

/// Parses text the way `str::parse::<i64>` does.
pub fn parse_i64(s: &str) -> (r: Option<i64>)
    ensures
        r == spec_parse_i64(s@),
{
    let cs = chars_of(s);
    if cs.len() > 0 && cs[0] == '-' {
        let body = cs.as_slice().split_at(1).1;
        assert(body@ =~= cs@.drop_first());
        if body.len() == 0 || body[0] == '+' {
            proof {
                if body@.len() > 0 {
                    assert(!is_digit(body@[0]));
                }
            }
            return None;
        }
        let parsed = parse_u64(body);
        proof {
            assert(body@[0] != '+');
            if all_digits(body@) {
                lemma_digits_value_nonneg(body@);
            }
            assert(spec_parse_u64(body@) == (if body@.len() > 0 && all_digits(body@) && digits_value(body@)
                <= u64::MAX {
                Some(digits_value(body@) as u64)
            } else {
                None::<u64>
            }));
        }
        match parsed {
            Some(v) => {
                if v < 0x8000_0000_0000_0000 {
                    let n: i64 = v as i64;
                    Some(-n)
                } else if v == 0x8000_0000_0000_0000 {
                    Some(i64::MIN)
                } else {
                    None
                }
            },
            None => None,
        }
    } else {
        match parse_u64(cs.as_slice()) {
            Some(v) => {
                if v <= 0x7fff_ffff_ffff_ffff {
                    Some(v as i64)
                } else {
                    None
                }
            },
            None => None,
        }
    }
}

} // verus!
