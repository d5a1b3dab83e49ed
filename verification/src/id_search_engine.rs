//! A memory-efficient search engine that can fuzzy match Discord snowflake IDs.
use vstd::prelude::*;
use vstd::arithmetic::div_mod::*;
use vstd::arithmetic::mul::*;
use crate::text::{
    all_digits, chars_of, decimal, digit_char, digit_value, digits_value, is_digit, lemma_digits_value_nonneg,
    lemma_leading_zero_value, parse_u64, spec_parse_u64,
};
use vstd::std_specs::cmp::PartialEqSpec;



verus! {

/// The default load factor to use for the buckets in the search engine.
pub const DEFAULT_LOAD_FACTOR: usize = 20;

/// The size of the timestamp within the Discord ID.
pub const TIMESTAMP_SIZE: u32 = 42;

/// The lowest number of digits possible in a Discord ID.
pub const MIN_ID_DIGITS: u32 = 17;

/// The number of low bits of an ID below its timestamp.
pub const CHOPPED_LOWER_BIT_LIMIT: u32 = 22;

/// The minimum ID number (the smallest number with [`MIN_ID_DIGITS`] digits).
pub const MIN_ID_NUMBER: u64 = 10_000_000_000_000_000;

/// The number of decimal digits in the largest possible ID.
pub const MAX_ID_LEN: usize = 20;

pub open spec fn pow10(e: nat) -> nat
    decreases e,
{
    if e == 0 {
        1
    } else {
        10 * pow10((e - 1) as nat)
    }
}

/// The number of decimal digits of `n` (zero has none).
pub open spec fn num_digits(n: nat) -> nat
    decreases n,
{
    if n == 0 {
        0
    } else {
        1 + num_digits(n / 10)
    }
}

pub proof fn lemma_pow10_positive(e: nat)
    ensures
        pow10(e) >= 1,
    decreases e,
{
    if e > 0 {
        lemma_pow10_positive((e - 1) as nat);
    }
}

pub proof fn lemma_pow10_monotonic(a: nat, b: nat)
    requires
        a <= b,
    ensures
        pow10(a) <= pow10(b),
    decreases b,
{
    if a < b {
        lemma_pow10_monotonic(a, (b - 1) as nat);
        lemma_pow10_positive((b - 1) as nat);
    }
}

pub proof fn lemma_num_digits_bound(n: nat, k: nat)
    requires
        n < pow10(k),
    ensures
        num_digits(n) <= k,
    decreases k,
{
    if n > 0 {
        assert(k > 0);
        assert(n / 10 < pow10((k - 1) as nat)) by {
            lemma_div_is_strictly_smaller(n as int, 10);
            lemma_pow10_positive((k - 1) as nat);
            assert(n < 10 * pow10((k - 1) as nat));
            lemma_div_by_multiple_is_strongly_ordered(n as int, (10 * pow10((k - 1) as nat)) as int, pow10((k - 1) as nat) as int, 10);
            lemma_div_multiples_vanish(pow10((k - 1) as nat) as int, 10);
        }
        lemma_num_digits_bound(n / 10, (k - 1) as nat);
    }
}

pub proof fn lemma_num_digits_lower(n: nat, k: nat)
    requires
        n >= pow10(k),
    ensures
        num_digits(n) > k,
    decreases k,
{
    lemma_pow10_positive(k);
    if k > 0 {
        lemma_pow10_positive((k - 1) as nat);
        assert(n / 10 >= pow10((k - 1) as nat)) by {
            lemma_div_is_ordered((10 * pow10((k - 1) as nat)) as int, n as int, 10);
            lemma_div_multiples_vanish(pow10((k - 1) as nat) as int, 10);
        }
        lemma_num_digits_lower(n / 10, (k - 1) as nat);
    } else {
        assert(n > 0);
    }
}

/// Splitting off the lowest `k` digits of a number that has more than `k` digits.
pub proof fn lemma_num_digits_split(n: nat, k: nat)
    requires
        n >= pow10(k),
    ensures
        num_digits(n) == k + num_digits(n / pow10(k)),
    decreases k,
{
    lemma_pow10_positive(k);
    if k > 0 {
        lemma_pow10_positive((k - 1) as nat);
        assert(n / 10 >= pow10((k - 1) as nat)) by {
            lemma_div_is_ordered((10 * pow10((k - 1) as nat)) as int, n as int, 10);
            lemma_div_multiples_vanish(pow10((k - 1) as nat) as int, 10);
        }
        lemma_num_digits_split(n / 10, (k - 1) as nat);
        lemma_div_denominator(n as int, 10, pow10((k - 1) as nat) as int);
        assert(pow10(k) == 10 * pow10((k - 1) as nat));
        assert(n > 0);
        assert(num_digits(n) == 1 + num_digits(n / 10));
    } else {
        assert(n / 1 == n);
    }
}

/// The number of decimal digits of an ID.
pub fn snowflake_len(id: u64) -> (r: u32)
    ensures
        r == num_digits(id as nat),
        r <= 20,
{
    proof {
        reveal_with_fuel(pow10, 21);
        assert(pow10(20) == 100000000000000000000);
        lemma_num_digits_bound(id as nat, 20);
    }
    let mut id = id;
    let ghost orig = id;
    let mut result: u32 = 0;
    if id >= 10_000_000_000_000 {
        proof {
            reveal_with_fuel(pow10, 14);
            assert(pow10(13) == 10_000_000_000_000);
            lemma_num_digits_split(id as nat, 13);
        }
        result = 13;
        id = id / 10_000_000_000_000;
    }
    while id > 0
        invariant
            result + num_digits(id as nat) == num_digits(orig as nat),
            num_digits(orig as nat) <= 20,
        decreases id,
    {
        result = result + 1;
        id = id / 10;
    }
    result
}


/// `10^e`, saturating at `u64::MAX` (as `u64::saturating_pow` does).
pub open spec fn sat_pow10(e: nat) -> nat {
    if e <= 19 {
        pow10(e)
    } else {
        u64::MAX as nat
    }
}

pub proof fn lemma_pow10_19()
    ensures
        pow10(19) == 10_000_000_000_000_000_000,
        pow10(20) == 100_000_000_000_000_000_000,
{
    reveal_with_fuel(pow10, 21);
}

/// `10^e` for exponents whose power fits in a `u64`.
pub fn pow10_u64(e: u32) -> (r: u64)
    requires
        e <= 19,
    ensures
        r == pow10(e as nat),
        r > 0,
{
    proof {
        lemma_pow10_positive(e as nat);
    }
    let mut r: u64 = 1;
    let mut i: u32 = 0;
    while i < e
        invariant
            i <= e <= 19,
            r == pow10(i as nat),
        decreases e - i,
    {
        proof {
            lemma_pow10_monotonic((i + 1) as nat, 19);
            lemma_pow10_19();
        }
        r = r * 10;
        i = i + 1;
    }
    r
}

/// `10^e`, saturating at `u64::MAX`.
pub fn saturating_pow10(e: u32) -> (r: u64)
    ensures
        r == sat_pow10(e as nat),
        r > 0,
{
    if e <= 19 {
        pow10_u64(e)
    } else {
        u64::MAX
    }
}

/// An ID typed by a user, possibly with leading zeros that a plain number
/// cannot hold.
#[derive(Debug, Copy, Clone)]
pub struct FuzzyMatchedId {
    pub leading_zeros: u8,
    pub no_leading_zeros_id: u64,
}

/// The number of `'0'` characters that start `s`.
pub open spec fn leading_zero_count(s: Seq<char>) -> nat
    decreases s.len(),
{
    if s.len() == 0 || s[0] != '0' {
        0
    } else {
        1 + leading_zero_count(s.drop_first())
    }
}

proof fn lemma_leading_zero_count_skip(s: Seq<char>, i: int)
    requires
        0 <= i <= s.len(),
        forall|j: int| 0 <= j < i ==> s[j] == '0',
    ensures
        leading_zero_count(s) == i + leading_zero_count(s.skip(i)),
    decreases i,
{
    if i > 0 {
        lemma_leading_zero_count_skip(s.drop_first(), i - 1);
        assert(s.drop_first().skip(i - 1) =~= s.skip(i));
    } else {
        assert(s.skip(0) =~= s);
    }
}

proof fn lemma_leading_zero_count_bound(s: Seq<char>)
    ensures
        leading_zero_count(s) <= s.len(),
    decreases s.len(),
{
    if s.len() > 0 && s[0] == '0' {
        lemma_leading_zero_count_bound(s.drop_first());
    }
}

/// What a typed ID reads as: at most [`MAX_ID_LEN`] bytes; its leading zeros
/// are counted and the rest is read as a number; a run of zeros only is the
/// number zero with one zero fewer counted as leading.
pub open spec fn spec_fuzzy_id_from_str(s: Seq<char>, byte_len: nat) -> Option<FuzzyMatchedId> {
    if byte_len > MAX_ID_LEN {
        None
    } else {
        let k = leading_zero_count(s);
        if k < s.len() {
            match spec_parse_u64(s.skip(k as int)) {
                Some(v) => Some(FuzzyMatchedId { leading_zeros: k as u8, no_leading_zeros_id: v }),
                None => None,
            }
        } else {
            Some(FuzzyMatchedId { leading_zeros: (s.len() - 1) as u8, no_leading_zeros_id: 0 })
        }
    }
}

impl FuzzyMatchedId {
    /// Reads a typed ID. The text must not be empty.
    pub fn try_from_str(value: &str) -> (r: Option<FuzzyMatchedId>)
        requires
            value@.len() > 0,
        ensures
            r == spec_fuzzy_id_from_str(value@, vstd::utf8::encode_utf8(value@).len()),
    {
        let byte_len = value.as_bytes().len();
        assert(byte_len == vstd::utf8::encode_utf8(value@).len());
        if byte_len > MAX_ID_LEN {
            return None;
        }
        proof {
            crate::text::lemma_bytes_at_least_chars(value@);
        }
        let cs = chars_of(value);
        let mut k: usize = 0;
        while k < cs.len() && cs[k] == '0'
            invariant
                k <= cs@.len(),
                cs@ == value@,
                forall|j: int| 0 <= j < k ==> cs@[j] == '0',
            decreases cs.len() - k,
        {
            k = k + 1;
        }
        proof {
            lemma_leading_zero_count_skip(cs@, k as int);
            if k < cs@.len() {
                assert(cs@.skip(k as int)[0] == cs@[k as int]);
            }
            assert(leading_zero_count(cs@.skip(k as int)) == 0);
        }
        assert(cs@.len() <= 20);
        assert(leading_zero_count(value@) == k);
        if k < cs.len() {
            let rest = cs.as_slice().split_at(k).1;
            assert(rest@ =~= cs@.skip(k as int));
            match parse_u64(rest) {
                Some(v) => Some(FuzzyMatchedId { leading_zeros: k as u8, no_leading_zeros_id: v }),
                None => None,
            }
        } else {
            Some(FuzzyMatchedId { leading_zeros: (cs.len() - 1) as u8, no_leading_zeros_id: 0 })
        }
    }

    /// An ID given as a number has no leading zeros.
    pub fn from_id(value: u64) -> (r: FuzzyMatchedId)
        ensures
            r.leading_zeros == 0,
            r.no_leading_zeros_id == value,
    {
        FuzzyMatchedId { leading_zeros: 0, no_leading_zeros_id: value }
    }
}

/// A typed ID together with the number of digits assumed missing on its left
/// and on its right.
#[derive(Copy, Clone, Debug)]
pub struct SnowflakeFuzzyMatch {
    pub fuzzy_id: FuzzyMatchedId,
    pub left_wildcards: u32,
    pub right_wildcards: u32,
}

/// The number of digits a matching ID must have.
pub open spec fn fuzzy_width(m: SnowflakeFuzzyMatch) -> int {
    let d = num_digits(m.fuzzy_id.no_leading_zeros_id as nat);
    (if d == 0 { 1 } else { d }) + m.left_wildcards + m.right_wildcards + m.fuzzy_id.leading_zeros
}

/// Whether the counts of a fuzzy match are small enough to be compared
/// without overflowing a `u32`.
pub open spec fn fuzzy_match_in_range(m: SnowflakeFuzzyMatch) -> bool {
    m.left_wildcards + m.right_wildcards == 0 || fuzzy_width(m) <= u32::MAX
}

/// Whether `other` matches: without wildcards it must be the typed number
/// itself; otherwise it must have exactly as many digits as the typed text
/// plus the wildcards, and the typed number must be what is left of `other`
/// once the wildcard digits are cut off on both sides (the cut on the left
/// is done with a saturating power of ten).
pub open spec fn spec_fuzzy_eq(m: SnowflakeFuzzyMatch, other: u64) -> bool {
    if m.left_wildcards + m.right_wildcards == 0 {
        m.fuzzy_id.no_leading_zeros_id == other
    } else {
        let w = fuzzy_width(m);
        &&& w == num_digits(other as nat)
        &&& m.fuzzy_id.no_leading_zeros_id as nat == (other as nat % sat_pow10((w - m.left_wildcards) as nat)) / pow10(m.right_wildcards as nat)
    }
}

impl SnowflakeFuzzyMatch {
    pub fn new(id: FuzzyMatchedId, left_wildcards: u32, right_wildcards: u32) -> (r: Self)
        ensures
            r.fuzzy_id == id,
            r.left_wildcards == left_wildcards,
            r.right_wildcards == right_wildcards,
    {
        Self { fuzzy_id: id, left_wildcards, right_wildcards }
    }

    /// Whether this fuzzy match matches `other`.
    pub fn matches(&self, other: u64) -> (r: bool)
        requires
            fuzzy_match_in_range(*self),
        ensures
            r == spec_fuzzy_eq(*self, other),
    {
        let mut other = other;
        let ghost orig = other;
        let added_digits = self.left_wildcards + self.right_wildcards;
        let leading_zeros = self.fuzzy_id.leading_zeros;
        let no_leading_zeros_id = self.fuzzy_id.no_leading_zeros_id;

        if added_digits == 0 {
            return no_leading_zeros_id == other;
        }

        let len = snowflake_len(no_leading_zeros_id);
        let total_fuzzy_match_len = (if len > 1 { len } else { 1 }) + added_digits;
        let other_len = snowflake_len(other);

        if total_fuzzy_match_len + leading_zeros as u32 != other_len {
            return false;
        }

        // Cuts off the left wildcard digits from the original ID
        other = other % saturating_pow10(total_fuzzy_match_len + leading_zeros as u32 - self.left_wildcards);

        // Cuts off the right wildcard digits from the original ID
        other = other / pow10_u64(self.right_wildcards);

        no_leading_zeros_id == other
    }
}


/// `2^e`.
pub open spec fn two_pow(e: nat) -> nat
    decreases e,
{
    if e == 0 {
        1
    } else {
        2 * two_pow((e - 1) as nat)
    }
}

pub proof fn lemma_two_pow_grows(e: nat)
    ensures
        two_pow(e) > e,
        two_pow(e) >= 1,
    decreases e,
{
    if e > 0 {
        lemma_two_pow_grows((e - 1) as nat);
    }
}

pub proof fn lemma_two_pow_monotonic(a: nat, b: nat)
    requires
        a <= b,
    ensures
        two_pow(a) <= two_pow(b),
    decreases b,
{
    if a < b {
        lemma_two_pow_monotonic(a, (b - 1) as nat);
        lemma_two_pow_grows((b - 1) as nat);
    }
}

/// The smallest `e >= from` such that `2^e >= x`.
pub open spec fn ceil_log2_from(from: nat, x: nat) -> nat
    decreases x - from,
{
    if two_pow(from) >= x || from >= x {
        from
    } else {
        ceil_log2_from(from + 1, x)
    }
}

proof fn lemma_two_pow_64()
    ensures
        two_pow(64) == 0x1_0000_0000_0000_0000,
{
    reveal_with_fuel(two_pow, 65);
}

/// The exponent of the smallest power of two that is at least `x`.
pub open spec fn ceil_log2(x: nat) -> nat {
    ceil_log2_from(0, x)
}

proof fn lemma_ceil_log2_from(from: nat, x: nat)
    ensures
        two_pow(ceil_log2_from(from, x)) >= x,
        ceil_log2_from(from, x) >= from,
        ceil_log2_from(from, x) > from ==> two_pow((ceil_log2_from(from, x) - 1) as nat) < x,
        forall|e: nat| e >= from && #[trigger] two_pow(e) >= x ==> ceil_log2_from(from, x) <= e,
    decreases x - from,
{
    lemma_two_pow_grows(from);
    if two_pow(from) >= x || from >= x {
    } else {
        lemma_ceil_log2_from(from + 1, x);
        assert forall|e: nat| e >= from && #[trigger] two_pow(e) >= x implies ceil_log2_from(from, x) <= e by {
            if e == from {
            }
        }
    }
}

/// `ceil_log2(x)` is the least exponent whose power of two reaches `x`.
pub proof fn lemma_ceil_log2(x: nat)
    ensures
        two_pow(ceil_log2(x)) >= x,
        ceil_log2(x) > 0 ==> two_pow((ceil_log2(x) - 1) as nat) < x,
        forall|e: nat| #[trigger] two_pow(e) >= x ==> ceil_log2(x) <= e,
{
    lemma_ceil_log2_from(0, x);
}

pub proof fn lemma_ceil_log2_monotonic(a: nat, b: nat)
    requires
        a <= b,
    ensures
        ceil_log2(a) <= ceil_log2(b),
{
    lemma_ceil_log2(a);
    lemma_ceil_log2(b);
}

/// `lhs / rhs` rounded up.
pub open spec fn div_ceil_spec(lhs: nat, rhs: nat) -> nat {
    if lhs % rhs > 0 {
        lhs / rhs + 1
    } else {
        lhs / rhs
    }
}

/// The exponent of the number of buckets made for a capacity: the bucket
/// count is the smallest power of two that holds `capacity` IDs at
/// `load_factor` per bucket, and at least two.
pub open spec fn bucket_exponent(capacity: nat, load_factor: nat) -> nat {
    let e = ceil_log2(div_ceil_spec(capacity, load_factor));
    if e == 0 {
        1
    } else {
        e
    }
}

/// The number of buckets made for a capacity and a load factor.
pub open spec fn bucket_count_for(capacity: nat, load_factor: nat) -> nat {
    two_pow(bucket_exponent(capacity, load_factor))
}

/// The number of bits that chopping `t` digits off an ID can take away:
/// `log2(t) + 1`, and zero for zero.
pub open spec fn max_bits_chopped_off(t: nat) -> nat
    decreases t,
{
    if t == 0 {
        0
    } else {
        1 + max_bits_chopped_off(t / 2)
    }
}

/// Whether the buckets made for `capacity` leave enough timestamp bits
/// for `t` chopped digits.
pub open spec fn bucket_count_fits(capacity: nat, load_factor: nat, t: nat) -> bool {
    bucket_exponent(capacity, load_factor) + max_bits_chopped_off(t) <= TIMESTAMP_SIZE
}

pub proof fn lemma_div_ceil_monotonic(a: nat, b: nat, lf: nat)
    requires
        a <= b,
        lf > 0,
    ensures
        div_ceil_spec(a, lf) <= div_ceil_spec(b, lf),
{
    lemma_div_is_ordered(a as int, b as int, lf as int);
    if a / lf == b / lf && a % lf > 0 {
        lemma_fundamental_div_mod(a as int, lf as int);
        lemma_fundamental_div_mod(b as int, lf as int);
    }
}

pub proof fn lemma_bucket_count_monotonic(a: nat, b: nat, lf: nat)
    requires
        a <= b,
        lf > 0,
    ensures
        bucket_exponent(a, lf) <= bucket_exponent(b, lf),
        bucket_count_for(a, lf) <= bucket_count_for(b, lf),
{
    lemma_div_ceil_monotonic(a, b, lf);
    lemma_ceil_log2_monotonic(div_ceil_spec(a, lf), div_ceil_spec(b, lf));
    lemma_two_pow_monotonic(bucket_exponent(a, lf), bucket_exponent(b, lf));
}

/// A capacity that `n = 2^e` buckets already hold needs no more than `e`
/// as its bucket exponent.
pub proof fn lemma_bucket_exponent_at_most(capacity: nat, lf: nat, e: nat)
    requires
        lf > 0,
        e >= 1,
        capacity <= lf * two_pow(e),
    ensures
        bucket_exponent(capacity, lf) <= e,
{
    lemma_ceil_log2(div_ceil_spec(capacity, lf));
    lemma_two_pow_grows(e);
    assert(div_ceil_spec(capacity, lf) <= two_pow(e)) by {
        lemma_fundamental_div_mod(capacity as int, lf as int);
        lemma_div_is_ordered(capacity as int, (lf * two_pow(e)) as int, lf as int);
        lemma_div_multiples_vanish(two_pow(e) as int, lf as int);
        if capacity % lf > 0 && capacity / lf == two_pow(e) {
            lemma_mul_is_commutative(lf as int, two_pow(e) as int);
            assert(capacity == lf * two_pow(e) + capacity % lf);
        }
    }
}

/// A capacity never exceeds what its buckets hold at the load factor.
pub proof fn lemma_bucket_count_holds(capacity: nat, lf: nat)
    requires
        lf > 0,
    ensures
        capacity <= lf * bucket_count_for(capacity, lf),
{
    let d = div_ceil_spec(capacity, lf);
    lemma_ceil_log2(d);
    lemma_two_pow_monotonic(ceil_log2(d), bucket_exponent(capacity, lf));
    lemma_fundamental_div_mod(capacity as int, lf as int);
    assert(capacity <= lf * d) by {
        lemma_mul_is_distributive_add(lf as int, (capacity / lf) as int, 1);
    }
    lemma_mul_inequality(d as int, bucket_count_for(capacity, lf) as int, lf as int);
    lemma_mul_is_commutative(lf as int, d as int);
    lemma_mul_is_commutative(lf as int, bucket_count_for(capacity, lf) as int);
}

/// Division rounding up, as `usize::div_ceil` computes it.
fn div_ceil(lhs: usize, rhs: usize) -> (r: usize)
    requires
        rhs > 0,
    ensures
        r == div_ceil_spec(lhs as nat, rhs as nat),
{
    let d = lhs / rhs;
    let r = lhs % rhs;
    if r > 0 && rhs > 0 {
        proof {
            lemma_fundamental_div_mod(lhs as int, rhs as int);
            if rhs == 1 {
                assert(r == 0);
            }
            assert(d < lhs) by {
                lemma_div_is_strictly_smaller(lhs as int, rhs as int);
            }
        }
        d + 1
    } else {
        d
    }
}

/// The smallest power of two that is at least `x`, with its exponent.
fn next_power_of_two(x: usize) -> (r: (usize, u32))
    requires
        two_pow(ceil_log2(x as nat)) <= usize::MAX,
    ensures
        r.0 == two_pow(r.1 as nat),
        r.1 == ceil_log2(x as nat),
{
    proof {
        lemma_ceil_log2(x as nat);
        lemma_two_pow_grows(ceil_log2(x as nat));
        if ceil_log2(x as nat) >= 64 {
            lemma_two_pow_monotonic(64, ceil_log2(x as nat));
            lemma_two_pow_64();
        }
    }
    let ghost c = ceil_log2(x as nat);
    let mut p: usize = 1;
    let mut e: u32 = 0;
    while p < x
        invariant
            p == two_pow(e as nat),
            e <= c,
            c == ceil_log2(x as nat),
            two_pow(c) <= usize::MAX,
            c < 64,
            ceil_log2_from(e as nat, x as nat) == c,
        decreases c - e,
    {
        proof {
            lemma_ceil_log2_from(e as nat, x as nat);
            lemma_two_pow_monotonic((e + 1) as nat, c);
        }
        p = p * 2;
        e = e + 1;
    }
    proof {
        lemma_ceil_log2_from(e as nat, x as nat);
    }
    (p, e)
}

} // verus!

verus! {

/// The bucket an ID falls in among `n` buckets: its timestamp, taken
/// modulo the number of buckets.
pub open spec fn bucket_index(id: u64, n: nat) -> nat {
    (id as nat / 0x40_0000) % n
}

pub open spec fn strictly_sorted(s: Seq<u64>) -> bool {
    forall|i: int, j: int| 0 <= i < j < s.len() ==> s[i] < s[j]
}

/// Where `x` stands in a strictly sorted sequence: `Ok` with its position,
/// or `Err` with the position it would be inserted at.
fn binary_search(s: &Vec<u64>, x: u64) -> (r: Result<usize, usize>)
    requires
        strictly_sorted(s@),
    ensures
        match r {
            Ok(i) => i < s@.len() && s@[i as int] == x,
            Err(i) => i <= s@.len() && (forall|k: int| 0 <= k < i ==> s@[k] < x) && (forall|k: int|
                i <= k < s@.len() ==> s@[k] > x),
        },
        r is Ok <==> s@.contains(x),
{
    let mut lo: usize = 0;
    let mut hi: usize = s.len();
    while lo < hi
        invariant
            lo <= hi <= s@.len(),
            strictly_sorted(s@),
            forall|k: int| 0 <= k < lo ==> s@[k] < x,
            forall|k: int| hi <= k < s@.len() ==> s@[k] > x,
        decreases hi - lo,
    {
        let mid = lo + (hi - lo) / 2;
        if s[mid] == x {
            return Ok(mid);
        } else if s[mid] < x {
            lo = mid + 1;
        } else {
            hi = mid;
        }
    }
    proof {
        if s@.contains(x) {
            let k = choose|k: int| 0 <= k < s@.len() && s@[k] == x;
            assert(s@[k] == x);
        }
    }
    Err(lo)
}

/// Inserts `id` into a strictly sorted bucket, keeping it strictly sorted.
/// Returns whether it was not there yet.
fn insert_sorted(bucket: &mut Vec<u64>, id: u64) -> (r: bool)
    requires
        strictly_sorted(old(bucket)@),
    ensures
        strictly_sorted(final(bucket)@),
        forall|x: u64| #[trigger] final(bucket)@.contains(x) <==> (old(bucket)@.contains(x) || x == id),
        r == !old(bucket)@.contains(id),
        r ==> final(bucket)@.len() == old(bucket)@.len() + 1,
        !r ==> final(bucket)@ == old(bucket)@,
{
    match binary_search(bucket, id) {
        Ok(_) => false,
        Err(p) => {
            let ghost before = bucket@;
            bucket.insert(p, id);
            proof {
                assert(bucket@ =~= before.subrange(0, p as int).push(id) + before.subrange(p as int, before.len() as int));
                assert forall|x: u64| #[trigger] bucket@.contains(x) <==> (before.contains(x) || x == id) by {
                    if bucket@.contains(x) {
                        let k = choose|k: int| 0 <= k < bucket@.len() && bucket@[k] == x;
                        if k < p {
                            assert(before[k] == x);
                        } else if k > p {
                            assert(before[k - 1] == x);
                        }
                    }
                    if before.contains(x) {
                        let k = choose|k: int| 0 <= k < before.len() && before[k] == x;
                        if k < p {
                            assert(bucket@[k] == x);
                        } else {
                            assert(bucket@[k + 1] == x);
                        }
                    }
                    if x == id {
                        assert(bucket@[p as int] == x);
                    }
                }
            }
            true
        },
    }
}

/// Removes `id` from a strictly sorted bucket. Returns whether it was there.
fn remove_sorted(bucket: &mut Vec<u64>, id: u64) -> (r: bool)
    requires
        strictly_sorted(old(bucket)@),
    ensures
        strictly_sorted(final(bucket)@),
        forall|x: u64| #[trigger] final(bucket)@.contains(x) <==> (old(bucket)@.contains(x) && x != id),
        r == old(bucket)@.contains(id),
        r ==> final(bucket)@.len() == old(bucket)@.len() - 1,
        !r ==> final(bucket)@ == old(bucket)@,
{
    match binary_search(bucket, id) {
        Ok(p) => {
            let ghost before = bucket@;
            bucket.remove(p);
            proof {
                assert(bucket@ =~= before.subrange(0, p as int) + before.subrange(p + 1, before.len() as int));
                assert forall|x: u64| #[trigger] bucket@.contains(x) <==> (before.contains(x) && x != id) by {
                    if bucket@.contains(x) {
                        let k = choose|k: int| 0 <= k < bucket@.len() && bucket@[k] == x;
                        if k < p {
                            assert(before[k] == x);
                        } else {
                            assert(before[k + 1] == x);
                        }
                    }
                    if before.contains(x) && x != id {
                        let k = choose|k: int| 0 <= k < before.len() && before[k] == x;
                        if k < p {
                            assert(bucket@[k] == x);
                        } else {
                            assert(bucket@[k - 1] == x);
                        }
                    }
                }
            }
            true
        },
        Err(_) => false,
    }
}

} // verus!

verus! {

/// The wildcard pairs `(left, right)` that add `d` digits in all, with at
/// most `t` on either side, by increasing `left`.
pub open spec fn wildcard_row(t: nat, d: nat) -> Seq<(u32, u32)> {
    let lo: int = if d >= t { d - t } else { 0 };
    let hi: int = if d <= t { d as int } else { t as int };
    Seq::new((hi + 1 - lo) as nat, |k: int| ((lo + k) as u32, (d - lo - k) as u32))
}

/// The wildcard rows for one added digit up to `d` added digits.
pub open spec fn wildcard_rows(t: nat, d: nat) -> Seq<(u32, u32)>
    decreases d,
{
    if d == 0 {
        seq![]
    } else {
        wildcard_rows(t, (d - 1) as nat) + wildcard_row(t, d)
    }
}

/// Every way of adding between one and `2 * t` digits to an ID with at most
/// `t` digits on either side, fewest added digits first.
pub open spec fn spec_wildcards(t: nat) -> Seq<(u32, u32)> {
    wildcard_rows(t, 2 * t)
}

proof fn lemma_wildcard_rows_bounds(t: nat, d: nat)
    requires
        d <= 2 * t,
        2 * t <= u32::MAX,
    ensures
        forall|k: int|
            0 <= k < wildcard_rows(t, d).len() ==> {
                let w = #[trigger] wildcard_rows(t, d)[k];
                &&& w.0 <= t
                &&& w.1 <= t
                &&& 1 <= w.0 + w.1 <= d
            },
    decreases d,
{
    if d > 0 {
        lemma_wildcard_rows_bounds(t, (d - 1) as nat);
        let prev = wildcard_rows(t, (d - 1) as nat);
        let row = wildcard_row(t, d);
        assert forall|k: int| 0 <= k < wildcard_rows(t, d).len() implies {
            let w = #[trigger] wildcard_rows(t, d)[k];
            &&& w.0 <= t
            &&& w.1 <= t
            &&& 1 <= w.0 + w.1 <= d
        } by {
            if k < prev.len() {
                assert(wildcard_rows(t, d)[k] == prev[k]);
            } else {
                assert(wildcard_rows(t, d)[k] == row[k - prev.len()]);
            }
        }
    }
}

/// Every wildcard pair adds at least one digit and at most `t` on each side.
pub proof fn lemma_wildcards_bounds(t: nat)
    requires
        2 * t <= u32::MAX,
    ensures
        forall|k: int|
            0 <= k < spec_wildcards(t).len() ==> {
                let w = #[trigger] spec_wildcards(t)[k];
                &&& w.0 <= t
                &&& w.1 <= t
                &&& 1 <= w.0 + w.1
            },
{
    lemma_wildcard_rows_bounds(t, 2 * t);
}

} // verus!

verus! {

/// Whether `b` holds exactly the IDs of `ids`: each bucket strictly sorted,
/// each ID in the bucket of its index, and each ID of `ids` in its bucket.
pub open spec fn buckets_hold(b: Seq<Vec<u64>>, ids: Set<u64>) -> bool {
    let n = b.len();
    &&& forall|i: int| 0 <= i < n ==> strictly_sorted(#[trigger] b[i]@)
    &&& forall|i: int, j: int|
        0 <= i < n && 0 <= j < b[i]@.len() ==> bucket_index(#[trigger] b[i]@[j], n) == i && ids.contains(
            b[i]@[j],
        )
    &&& forall|id: u64| #[trigger] ids.contains(id) ==> n > 0 && b[bucket_index(id, n) as int]@.contains(id)
}

/// Putting `id` into its bucket keeps the buckets holding their IDs.
proof fn lemma_hold_insert(b: Seq<Vec<u64>>, ids: Set<u64>, id: u64, nb: Vec<u64>)
    requires
        buckets_hold(b, ids),
        b.len() > 0,
        strictly_sorted(nb@),
        forall|x: u64| #[trigger] nb@.contains(x) <==> (b[bucket_index(id, b.len()) as int]@.contains(x) || x == id),
    ensures
        buckets_hold(b.update(bucket_index(id, b.len()) as int, nb), ids.insert(id)),
{
    let n = b.len();
    let idx = bucket_index(id, n) as int;
    let c = b.update(idx, nb);
    assert forall|i: int, j: int| 0 <= i < n && 0 <= j < c[i]@.len() implies bucket_index(#[trigger] c[i]@[j], n) == i
        && ids.insert(id).contains(c[i]@[j]) by {
        if i == idx {
            let x = c[i]@[j];
            assert(nb@.contains(x));
            if x != id {
                let k = choose|k: int| 0 <= k < b[idx]@.len() && b[idx]@[k] == x;
                assert(bucket_index(b[idx]@[k], n) == idx);
            }
        } else {
            assert(c[i] == b[i]);
        }
    }
    assert forall|x: u64| #[trigger] ids.insert(id).contains(x) implies n > 0 && c[bucket_index(x, n) as int]@.contains(x) by {
        if x != id {
            assert(b[bucket_index(x, n) as int]@.contains(x));
        }
    }
}

/// Taking `id` out of its bucket keeps the buckets holding the other IDs.
proof fn lemma_hold_remove(b: Seq<Vec<u64>>, ids: Set<u64>, id: u64, nb: Vec<u64>)
    requires
        buckets_hold(b, ids),
        b.len() > 0,
        strictly_sorted(nb@),
        forall|x: u64| #[trigger] nb@.contains(x) <==> (b[bucket_index(id, b.len()) as int]@.contains(x) && x != id),
    ensures
        buckets_hold(b.update(bucket_index(id, b.len()) as int, nb), ids.remove(id)),
{
    let n = b.len();
    let idx = bucket_index(id, n) as int;
    let c = b.update(idx, nb);
    assert forall|i: int, j: int| 0 <= i < n && 0 <= j < c[i]@.len() implies bucket_index(#[trigger] c[i]@[j], n) == i
        && ids.remove(id).contains(c[i]@[j]) by {
        if i == idx {
            let x = c[i]@[j];
            assert(nb@.contains(x));
            let k = choose|k: int| 0 <= k < b[idx]@.len() && b[idx]@[k] == x;
            assert(bucket_index(b[idx]@[k], n) == idx);
        } else {
            assert(c[i] == b[i]);
        }
    }
    assert forall|x: u64| #[trigger] ids.remove(id).contains(x) implies n > 0 && c[bucket_index(x, n) as int]@.contains(x) by {
        assert(b[bucket_index(x, n) as int]@.contains(x));
    }
}

/// A bucket count the engine can have: none yet, or a power of two from two
/// up that leaves the timestamp bits for `t` chopped digits.
pub open spec fn valid_bucket_count(n: nat, t: nat) -> bool {
    n == 0 || exists|e: nat|
        1 <= e && e + max_bits_chopped_off(t) <= TIMESTAMP_SIZE && n == #[trigger] two_pow(e)
}

/// A memory-efficient search engine that can fuzzy match Discord snowflake
/// IDs: it finds IDs from which at most `MAX_DIGITS_CHOPPED` digits were
/// chopped off either end.
#[derive(Clone)]
pub struct SnowflakeIdSearchEngine<const MAX_DIGITS_CHOPPED: u32> {
    buckets: Vec<Vec<u64>>,
    len: usize,
    load_factor: usize,
    wildcards: Vec<(u32, u32)>,
    ids: Ghost<Set<u64>>,
}

impl<const T: u32> View for SnowflakeIdSearchEngine<T> {
    type V = Set<u64>;

    /// The IDs in the search engine.
    closed spec fn view(&self) -> Set<u64> {
        self.ids@
    }
}

impl<const T: u32> SnowflakeIdSearchEngine<T> {
    pub closed spec fn wf(&self) -> bool {
        let n = self.buckets@.len();
        &&& max_bits_chopped_off(T as nat) <= CHOPPED_LOWER_BIT_LIMIT
        &&& self.wildcards@ == spec_wildcards(T as nat)
        &&& valid_bucket_count(n, T as nat)
        &&& self.load_factor * n <= usize::MAX
        &&& self.ids@.finite()
        &&& self.len == self.ids@.len()
        &&& buckets_hold(self.buckets@, self.ids@)
        &&& forall|id: u64| #[trigger] self.ids@.contains(id) ==> id >= MIN_ID_NUMBER
    }

    pub closed spec fn spec_load_factor(&self) -> nat {
        self.load_factor as nat
    }

    pub closed spec fn spec_buckets(&self) -> Seq<Vec<u64>> {
        self.buckets@
    }

    pub closed spec fn wildcard_list(&self) -> Seq<(u32, u32)> {
        self.wildcards@
    }


    /// What the wildcard pairs are, by the number of chopped digits.
    pub fn initialize_wildcard_vector() -> (r: Vec<(u32, u32)>)
        requires
            2 * T < u32::MAX,
        ensures
            r@ == spec_wildcards(T as nat),
    {
        let mut wildcards: Vec<(u32, u32)> = Vec::new();
        let mut digits_added: u32 = 1;
        while digits_added <= T * 2
            invariant
                1 <= digits_added <= 2 * T + 1,
                2 * T < u32::MAX,
                wildcards@ == wildcard_rows(T as nat, (digits_added - 1) as nat),
            decreases 2 * T + 1 - digits_added,
        {
            let lo: u32 = if digits_added >= T { digits_added - T } else { 0 };
            let hi: u32 = if digits_added <= T { digits_added } else { T };
            let ghost prev = wildcards@;
            let ghost row = wildcard_row(T as nat, digits_added as nat);
            let mut left_wildcards: u32 = lo;
            while left_wildcards <= hi
                invariant
                    lo <= left_wildcards <= hi + 1,
                    hi <= T,
                    lo <= hi,
                    lo == (if digits_added >= T { digits_added - T } else { 0 }),
                    hi == (if digits_added <= T { digits_added as int } else { T as int }),
                    1 <= digits_added <= 2 * T,
                    2 * T < u32::MAX,
                    row == wildcard_row(T as nat, digits_added as nat),
                    wildcards@ == prev + row.take(left_wildcards - lo),
                decreases hi + 1 - left_wildcards,
            {
                wildcards.push((left_wildcards, digits_added - left_wildcards));
                proof {
                    assert(row.take(left_wildcards + 1 - lo) =~= row.take(left_wildcards - lo).push(
                        row[left_wildcards - lo],
                    ));
                }
                left_wildcards = left_wildcards + 1;
            }
            proof {
                assert(row.take(hi + 1 - lo) =~= row);
            }
            digits_added = digits_added + 1;
        }
        wildcards
    }

    /// Makes the empty buckets for `capacity` IDs at `load_factor` IDs per
    /// bucket: the smallest power of two from two up that holds them. Each
    /// bucket is made with room for a fifth more than the load factor.
    pub fn create_buckets(capacity: usize, load_factor: usize) -> (r: Vec<Vec<u64>>)
        requires
            load_factor > 0,
            bucket_count_fits(capacity as nat, load_factor as nat, T as nat),
            bucket_count_for(capacity as nat, load_factor as nat) <= usize::MAX,
        ensures
            r@.len() == bucket_count_for(capacity as nat, load_factor as nat),
            forall|i: int| 0 <= i < r@.len() ==> (#[trigger] r@[i])@.len() == 0,
    {
        let min_bucket_count = div_ceil(capacity, load_factor);
        proof {
            let c = ceil_log2(min_bucket_count as nat);
            lemma_two_pow_monotonic(c, bucket_exponent(capacity as nat, load_factor as nat));
        }
        let (mut bucket_count, mut exponent) = next_power_of_two(min_bucket_count);
        if bucket_count < 2 {
            proof {
                reveal_with_fuel(two_pow, 2);
                if exponent > 0 {
                    lemma_two_pow_monotonic(1, exponent as nat);
                }
            }
            bucket_count = 2;
            exponent = 1;
        } else {
            proof {
                if exponent == 0 {
                    reveal_with_fuel(two_pow, 1);
                }
            }
        }
        assert(bucket_count == bucket_count_for(capacity as nat, load_factor as nat)) by {
            reveal_with_fuel(two_pow, 2);
        }
        let bucket_capacity = load_factor.saturating_add(load_factor / 5);
        let mut buckets: Vec<Vec<u64>> = Vec::with_capacity(bucket_count);
        while buckets.len() < bucket_count
            invariant
                buckets@.len() <= bucket_count,
                forall|i: int| 0 <= i < buckets@.len() ==> (#[trigger] buckets@[i])@.len() == 0,
            decreases bucket_count - buckets@.len(),
        {
            buckets.push(Vec::with_capacity(bucket_capacity));
        }
        buckets
    }

} // impl

} // verus!

verus! {

/// The index of the bucket that `id` goes in among `bucket_len` buckets.
fn get_id_index(bucket_len: usize, id: u64) -> (r: usize)
    requires
        bucket_len > 0,
    ensures
        r == bucket_index(id, bucket_len as nat),
        r < bucket_len,
{
    let timestamp = id >> CHOPPED_LOWER_BIT_LIMIT;
    assert(timestamp == id / 0x40_0000) by (bit_vector)
        requires
            timestamp == id >> 22u32,
    ;
    (timestamp % (bucket_len as u64)) as usize
}

/// Puts every ID of `source` into the empty buckets of `new`.
fn redistribute(source: &Vec<Vec<u64>>, new: &mut Vec<Vec<u64>>, Ghost(ids): Ghost<Set<u64>>)
    requires
        buckets_hold(source@, ids),
        old(new)@.len() > 0,
        forall|i: int| 0 <= i < old(new)@.len() ==> (#[trigger] old(new)@[i])@.len() == 0,
    ensures
        buckets_hold(final(new)@, ids),
        final(new)@.len() == old(new)@.len(),
{
    let ghost m = new@.len();
    let ghost mut done: Set<u64> = Set::empty();
    assert(buckets_hold(new@, done)) by {
        assert forall|i: int, j: int| 0 <= i < m && 0 <= j < new@[i]@.len() implies bucket_index(
            #[trigger] new@[i]@[j],
            m,
        ) == i && done.contains(new@[i]@[j]) by {
            assert(new@[i]@.len() == 0);
        }
    }
    let mut i: usize = 0;
    while i < source.len()
        invariant
            buckets_hold(source@, ids),
            new@.len() == m,
            m > 0,
            i <= source@.len(),
            buckets_hold(new@, done),
            done.subset_of(ids),
            forall|k: int, p: int| 0 <= k < i && 0 <= p < source@[k]@.len() ==> done.contains(#[trigger] source@[k]@[p]),
        decreases source@.len() - i,
    {
        let mut j: usize = 0;
        while j < source[i].len()
            invariant
                buckets_hold(source@, ids),
                new@.len() == m,
                m > 0,
                i < source@.len(),
                j <= source@[i as int]@.len(),
                buckets_hold(new@, done),
                done.subset_of(ids),
                forall|k: int, p: int| 0 <= k < i && 0 <= p < source@[k]@.len() ==> done.contains(#[trigger] source@[k]@[p]),
                forall|p: int| 0 <= p < j ==> done.contains(#[trigger] source@[i as int]@[p]),
            decreases source@[i as int]@.len() - j,
        {
            let id = source[i][j];
            assert(ids.contains(source@[i as int]@[j as int]));
            let idx = get_id_index(new.len(), id);
            let ghost before = new@;
            insert_sorted(&mut new[idx], id);
            proof {
                lemma_hold_insert(before, done, id, new@[idx as int]);
                assert(new@ =~= before.update(idx as int, new@[idx as int]));
                done = done.insert(id);
            }
            j = j + 1;
        }
        i = i + 1;
    }
    proof {
        assert forall|id: u64| ids.contains(id) implies #[trigger] done.contains(id) by {
            let k = bucket_index(id, source@.len()) as int;
            assert(source@[k]@.contains(id));
            let p = choose|p: int| 0 <= p < source@[k]@.len() && source@[k]@[p] == id;
            assert(done.contains(source@[k]@[p]));
        }
        assert(done =~= ids);
    }
}

} // verus!

verus! {

/// A number whose bit length is at most `k` is below `2^k`.
pub proof fn lemma_max_bits_bound(t: nat, k: nat)
    requires
        max_bits_chopped_off(t) <= k,
    ensures
        t < two_pow(k),
    decreases t,
{
    lemma_two_pow_grows(k);
    if t > 0 {
        lemma_max_bits_bound(t / 2, (k - 1) as nat);
    }
}

proof fn lemma_two_pow_22()
    ensures
        two_pow(22) == 0x40_0000,
{
    reveal_with_fuel(two_pow, 23);
}

/// The chopped-digit bound of an engine leaves room to count its wildcards.
proof fn lemma_chopped_digits_small(t: u32)
    requires
        max_bits_chopped_off(t as nat) <= CHOPPED_LOWER_BIT_LIMIT,
    ensures
        t < 0x40_0000,
        2 * t < u32::MAX,
{
    lemma_max_bits_bound(t as nat, 22);
    lemma_two_pow_22();
}

/// Empty buckets hold no IDs.
proof fn lemma_empty_buckets_hold(b: Seq<Vec<u64>>)
    requires
        forall|i: int| 0 <= i < b.len() ==> (#[trigger] b[i])@.len() == 0,
    ensures
        buckets_hold(b, Set::empty()),
{
    assert forall|i: int, j: int| 0 <= i < b.len() && 0 <= j < b[i]@.len() implies bucket_index(
        #[trigger] b[i]@[j],
        b.len(),
    ) == i && Set::<u64>::empty().contains(b[i]@[j]) by {
        assert(b[i]@.len() == 0);
    }
}

impl<const T: u32> SnowflakeIdSearchEngine<T> {
    /// The number of buckets.
    pub open spec fn spec_bucket_count(&self) -> nat {
        self.spec_buckets().len()
    }

    /// Whether `extra` more IDs can be taken in: their count fits in a
    /// `usize`, and where the buckets have to grow for them, the load factor
    /// is not zero, the grown buckets leave enough timestamp bits and their
    /// capacity fits in a `usize`.
    pub open spec fn grows_ok(&self, extra: nat) -> bool {
        let cap = self@.len() + extra;
        let lf = self.spec_load_factor();
        &&& cap <= usize::MAX
        &&& cap > lf * self.spec_bucket_count() ==> {
            &&& lf > 0
            &&& bucket_count_fits(cap, lf, T as nat)
            &&& lf * bucket_count_for(cap, lf) <= usize::MAX
        }
    }

    /// What an engine always keeps: its buckets hold exactly its IDs, its
    /// bucket count is valid, and it holds finitely many IDs, each with at
    /// least [`MIN_ID_DIGITS`] digits.
    pub proof fn lemma_wf(&self)
        requires
            self.wf(),
        ensures
            buckets_hold(self.spec_buckets(), self@),
            valid_bucket_count(self.spec_bucket_count(), T as nat),
            self@.finite(),
            forall|id: u64| #[trigger] self@.contains(id) ==> id >= MIN_ID_NUMBER,
            self.wildcard_list() == spec_wildcards(T as nat),
    {
    }

    /// An empty search engine with no buckets and the default load factor.
    pub fn new() -> (r: Self)
        requires
            max_bits_chopped_off(T as nat) <= CHOPPED_LOWER_BIT_LIMIT,
        ensures
            r.wf(),
            r@ == Set::<u64>::empty(),
            r.spec_bucket_count() == 0,
            r.spec_load_factor() == DEFAULT_LOAD_FACTOR,
    {
        proof {
            lemma_chopped_digits_small(T);
        }
        let r = SnowflakeIdSearchEngine::<T> {
            buckets: Vec::new(),
            len: 0,
            load_factor: DEFAULT_LOAD_FACTOR,
            wildcards: Self::initialize_wildcard_vector(),
            ids: Ghost(Set::empty()),
        };
        proof {
            lemma_empty_buckets_hold(r.buckets@);
        }
        r
    }

    /// An empty search engine with no buckets and the given load factor.
    pub fn with_load_factor(load_factor: usize) -> (r: Self)
        requires
            max_bits_chopped_off(T as nat) <= CHOPPED_LOWER_BIT_LIMIT,
        ensures
            r.wf(),
            r@ == Set::<u64>::empty(),
            r.spec_bucket_count() == 0,
            r.spec_load_factor() == load_factor,
    {
        proof {
            lemma_chopped_digits_small(T);
        }
        let r = SnowflakeIdSearchEngine::<T> {
            buckets: Vec::new(),
            len: 0,
            load_factor,
            wildcards: Self::initialize_wildcard_vector(),
            ids: Ghost(Set::empty()),
        };
        proof {
            lemma_empty_buckets_hold(r.buckets@);
        }
        r
    }

    /// An empty search engine with buckets for `capacity` IDs at the default
    /// load factor.
    pub fn with_capacity(capacity: usize) -> (r: Self)
        requires
            max_bits_chopped_off(T as nat) <= CHOPPED_LOWER_BIT_LIMIT,
            bucket_count_fits(capacity as nat, DEFAULT_LOAD_FACTOR as nat, T as nat),
            DEFAULT_LOAD_FACTOR * bucket_count_for(capacity as nat, DEFAULT_LOAD_FACTOR as nat) <= usize::MAX,
        ensures
            r.wf(),
            r@ == Set::<u64>::empty(),
            r.spec_bucket_count() == bucket_count_for(capacity as nat, DEFAULT_LOAD_FACTOR as nat),
            r.spec_load_factor() == DEFAULT_LOAD_FACTOR,
    {
        proof {
            lemma_chopped_digits_small(T);
        }
        let r = SnowflakeIdSearchEngine::<T> {
            buckets: Self::create_buckets(capacity, DEFAULT_LOAD_FACTOR),
            len: 0,
            load_factor: DEFAULT_LOAD_FACTOR,
            wildcards: Self::initialize_wildcard_vector(),
            ids: Ghost(Set::empty()),
        };
        proof {
            lemma_empty_buckets_hold(r.buckets@);
            let e = bucket_exponent(capacity as nat, DEFAULT_LOAD_FACTOR as nat);
            assert(r.buckets@.len() == two_pow(e));
        }
        r
    }

    /// An empty search engine with buckets for `capacity` IDs at the given
    /// load factor.
    pub fn with_capacity_and_load_factor(capacity: usize, load_factor: usize) -> (r: Self)
        requires
            max_bits_chopped_off(T as nat) <= CHOPPED_LOWER_BIT_LIMIT,
            load_factor > 0,
            bucket_count_fits(capacity as nat, load_factor as nat, T as nat),
            load_factor * bucket_count_for(capacity as nat, load_factor as nat) <= usize::MAX,
        ensures
            r.wf(),
            r@ == Set::<u64>::empty(),
            r.spec_bucket_count() == bucket_count_for(capacity as nat, load_factor as nat),
            r.spec_load_factor() == load_factor,
    {
        proof {
            lemma_chopped_digits_small(T);
            lemma_mul_inequality(1, load_factor as int, bucket_count_for(capacity as nat, load_factor as nat) as int);
        }
        let r = SnowflakeIdSearchEngine::<T> {
            buckets: Self::create_buckets(capacity, load_factor),
            len: 0,
            load_factor,
            wildcards: Self::initialize_wildcard_vector(),
            ids: Ghost(Set::empty()),
        };
        proof {
            lemma_empty_buckets_hold(r.buckets@);
            let e = bucket_exponent(capacity as nat, load_factor as nat);
            assert(r.buckets@.len() == two_pow(e));
        }
        r
    }

    /// The number of IDs in the search engine.
    pub fn len(&self) -> (r: usize)
        requires
            self.wf(),
        ensures
            r == self@.len(),
    {
        self.len
    }

    pub fn load_factor(&self) -> (r: usize)
        ensures
            r == self.spec_load_factor(),
    {
        self.load_factor
    }

    pub fn bucket_count(&self) -> (r: usize)
        ensures
            r == self.spec_bucket_count(),
    {
        self.buckets.len()
    }

    /// The buckets, each a strictly sorted list of the IDs of its index.
    pub fn buckets(&self) -> (r: &Vec<Vec<u64>>)
        ensures
            r@ == self.spec_buckets(),
    {
        &self.buckets
    }

    /// The wildcard pairs that fuzzy searches try, in order.
    pub fn wildcards(&self) -> (r: &Vec<(u32, u32)>)
        ensures
            r@ == self.wildcard_list(),
    {
        &self.wildcards
    }
}

} // verus!

verus! {

impl<const T: u32> SnowflakeIdSearchEngine<T> {
    /// Moves every ID into new buckets made for `new_capacity` IDs.
    fn reallocate_buckets(&mut self, new_capacity: usize)
        requires
            old(self).wf(),
            old(self).load_factor > 0,
            bucket_count_fits(new_capacity as nat, old(self).load_factor as nat, T as nat),
            old(self).load_factor * bucket_count_for(new_capacity as nat, old(self).load_factor as nat)
                <= usize::MAX,
        ensures
            final(self).wf(),
            final(self)@ == old(self)@,
            final(self).load_factor == old(self).load_factor,
            final(self).spec_bucket_count() == bucket_count_for(
                new_capacity as nat,
                old(self).load_factor as nat,
            ),
    {
        proof {
            lemma_mul_inequality(
                1,
                self.load_factor as int,
                bucket_count_for(new_capacity as nat, self.load_factor as nat) as int,
            );
        }
        proof {
            lemma_two_pow_grows(bucket_exponent(new_capacity as nat, self.load_factor as nat));
        }
        let mut old_buckets = Self::create_buckets(new_capacity, self.load_factor);
        std::mem::swap(&mut self.buckets, &mut old_buckets);
        redistribute(&old_buckets, &mut self.buckets, Ghost(self.ids@));
        proof {
            let e = bucket_exponent(new_capacity as nat, self.load_factor as nat);
            assert(self.buckets@.len() == two_pow(e));
        }
    }

    /// Grows the buckets where `elements_to_be_added` more IDs would exceed
    /// the load factor.
    fn reallocate_on_add(&mut self, elements_to_be_added: usize)
        requires
            old(self).wf(),
            old(self).grows_ok(elements_to_be_added as nat),
        ensures
            final(self).wf(),
            final(self)@ == old(self)@,
            final(self).load_factor == old(self).load_factor,
            final(self).spec_bucket_count() == (if old(self)@.len() + elements_to_be_added
                > old(self).spec_load_factor() * old(self).spec_bucket_count() {
                bucket_count_for(
                    (old(self)@.len() + elements_to_be_added) as nat,
                    old(self).spec_load_factor(),
                )
            } else {
                old(self).spec_bucket_count()
            }),
            old(self)@.len() + elements_to_be_added <= final(self).spec_load_factor()
                * final(self).spec_bucket_count(),
    {
        let new_capacity = self.len + elements_to_be_added;
        if new_capacity > self.load_factor * self.buckets.len() {
            self.reallocate_buckets(new_capacity);
            proof {
                lemma_bucket_count_holds(new_capacity as nat, self.load_factor as nat);
            }
        }
    }

    /// Shrinks the buckets where the IDs left after removing
    /// `elements_to_be_removed` would fill less than three eighths of them.
    fn reallocate_on_remove(&mut self, elements_to_be_removed: usize)
        requires
            old(self).wf(),
            elements_to_be_removed <= old(self)@.len(),
        ensures
            final(self).wf(),
            final(self)@ == old(self)@,
            final(self).load_factor == old(self).load_factor,
            final(self).spec_bucket_count() == (if (old(self)@.len() - elements_to_be_removed) * 8 < 3
                * (old(self).spec_load_factor() * old(self).spec_bucket_count()) {
                bucket_count_for(
                    (old(self)@.len() - elements_to_be_removed) as nat,
                    old(self).spec_load_factor(),
                )
            } else {
                old(self).spec_bucket_count()
            }),
    {
        let new_capacity = self.len - elements_to_be_removed;
        let total = self.load_factor * self.buckets.len();
        if (new_capacity as u128) * 8 < (total as u128) * 3 {
            proof {
                let lf = self.load_factor as nat;
                let n = self.buckets@.len();
                assert(lf * n > 0);
                assert(lf > 0 && n > 0) by {
                    if lf == 0 {
                        assert(lf * n == 0) by (nonlinear_arith)
                            requires
                                lf == 0,
                        ;
                    }
                    if n == 0 {
                        assert(lf * n == 0) by (nonlinear_arith)
                            requires
                                n == 0,
                        ;
                    }
                }
                let e = choose|e: nat|
                    1 <= e && e + max_bits_chopped_off(T as nat) <= TIMESTAMP_SIZE && n == #[trigger] two_pow(e);
                lemma_bucket_exponent_at_most(new_capacity as nat, lf, e);
                lemma_two_pow_monotonic(bucket_exponent(new_capacity as nat, lf), e);
                lemma_mul_inequality(bucket_count_for(new_capacity as nat, lf) as int, n as int, lf as int);
                lemma_mul_is_commutative(lf as int, n as int);
                lemma_mul_is_commutative(lf as int, bucket_count_for(new_capacity as nat, lf) as int);
            }
            self.reallocate_buckets(new_capacity);
        }
    }
}

} // verus!

verus! {

impl<const T: u32> SnowflakeIdSearchEngine<T> {
    /// The bucket count after taking in `extra` IDs: grown to the buckets for
    /// all of them where they would exceed the load factor.
    pub open spec fn bucket_count_after_add(&self, extra: nat) -> nat {
        let cap = self@.len() + extra;
        if cap > self.spec_load_factor() * self.spec_bucket_count() {
            bucket_count_for(cap, self.spec_load_factor())
        } else {
            self.spec_bucket_count()
        }
    }

    /// The bucket count after a removal from a non-empty engine: shrunk to
    /// the buckets for one ID fewer where those would fill less than three
    /// eighths of the buckets.
    pub open spec fn bucket_count_after_remove(&self) -> nat {
        let cap = (self@.len() - 1) as nat;
        if self@.len() > 0 && cap * 8 < 3 * (self.spec_load_factor() * self.spec_bucket_count()) {
            bucket_count_for(cap, self.spec_load_factor())
        } else {
            self.spec_bucket_count()
        }
    }

    /// Adds an ID. The buckets grow first where one more ID would exceed the
    /// load factor, whether or not the ID is new, so that afterwards the
    /// engine holds at most the load factor times the bucket count. Returns
    /// whether the ID was not in the search engine yet.
    pub fn add_id(&mut self, id: u64) -> (r: bool)
        requires
            old(self).wf(),
            id >= MIN_ID_NUMBER,
            old(self).grows_ok(1),
        ensures
            final(self).wf(),
            final(self)@ == old(self)@.insert(id),
            r == !old(self)@.contains(id),
            final(self).spec_load_factor() == old(self).spec_load_factor(),
            final(self).spec_bucket_count() == old(self).bucket_count_after_add(1),
            final(self)@.len() <= final(self).spec_load_factor() * final(self).spec_bucket_count(),
    {
        self.reallocate_on_add(1);
        let n = self.buckets.len();
        proof {
            if n == 0 {
                assert(self.load_factor * n == 0) by (nonlinear_arith)
                    requires
                        n == 0,
                ;
            }
        }
        let idx = get_id_index(n, id);
        let ghost before = self.buckets@;
        let inserted = insert_sorted(&mut self.buckets[idx], id);
        proof {
            assert(self.buckets@ =~= before.update(idx as int, self.buckets@[idx as int]));
            if before[idx as int]@.contains(id) {
                let k = choose|k: int| 0 <= k < before[idx as int]@.len() && before[idx as int]@[k] == id;
                assert(self.ids@.contains(before[idx as int]@[k]));
            }
        }
        if !inserted {
            return false;
        }
        proof {
            lemma_hold_insert(before, self.ids@, id, self.buckets@[idx as int]);
        }
        self.len = self.len + 1;
        self.ids = Ghost(self.ids@.insert(id));
        true
    }

    /// Removes an ID. The buckets may shrink first, whether or not the ID is
    /// there, unless the engine is empty. Returns whether the ID was there.
    pub fn remove_id(&mut self, id: u64) -> (r: bool)
        requires
            old(self).wf(),
        ensures
            final(self).wf(),
            final(self)@ == old(self)@.remove(id),
            r == old(self)@.contains(id),
            final(self).spec_load_factor() == old(self).spec_load_factor(),
            final(self).spec_bucket_count() == old(self).bucket_count_after_remove(),
    {
        if self.len == 0 {
            proof {
                assert(self.ids@ =~= Set::<u64>::empty()) by {
                    if self.ids@.len() == 0 {
                        vstd::set_lib::lemma_set_empty_equivalency_len(self.ids@);
                    }
                }
            }
            return false;
        }
        self.reallocate_on_remove(1);
        let n = self.buckets.len();
        proof {
            let some = self.ids@.choose();
            assert(self.ids@.contains(some));
        }
        let idx = get_id_index(n, id);
        let ghost before = self.buckets@;
        let removed = remove_sorted(&mut self.buckets[idx], id);
        proof {
            assert(self.buckets@ =~= before.update(idx as int, self.buckets@[idx as int]));
            if before[idx as int]@.contains(id) {
                let k = choose|k: int| 0 <= k < before[idx as int]@.len() && before[idx as int]@[k] == id;
                assert(self.ids@.contains(before[idx as int]@[k]));
            }
        }
        if !removed {
            proof {
                assert(self.ids@.remove(id) =~= self.ids@);
            }
            return false;
        }
        proof {
            lemma_hold_remove(before, self.ids@, id, self.buckets@[idx as int]);
        }
        self.len = self.len - 1;
        self.ids = Ghost(self.ids@.remove(id));
        true
    }

    /// Whether `id` is in the search engine. IDs with fewer than
    /// [`MIN_ID_DIGITS`] digits never are.
    pub fn contains(&self, id: u64) -> (r: bool)
        requires
            self.wf(),
            id < MIN_ID_NUMBER || self.spec_bucket_count() > 0,
        ensures
            r == self@.contains(id),
    {
        if id < MIN_ID_NUMBER {
            return false;
        }
        self.no_len_check_contains(id)
    }

    /// Whether `id` is in the search engine, looking in its bucket whatever
    /// its number of digits.
    pub fn no_len_check_contains(&self, id: u64) -> (r: bool)
        requires
            self.wf(),
            self.spec_bucket_count() > 0,
        ensures
            r == self@.contains(id),
    {
        let idx = get_id_index(self.buckets.len(), id);
        let found = binary_search(&self.buckets[idx], id);
        proof {
            let b = self.buckets@[idx as int]@;
            if b.contains(id) {
                let k = choose|k: int| 0 <= k < b.len() && b[k] == id;
                assert(self.ids@.contains(b[k]));
            }
        }
        match found {
            Ok(_) => true,
            Err(_) => false,
        }
    }
}

} // verus!

verus! {

/// The fuzzy match of `f` with the wildcard pair `w`.
pub open spec fn wildcard_match(f: FuzzyMatchedId, w: (u32, u32)) -> SnowflakeFuzzyMatch {
    SnowflakeFuzzyMatch { fuzzy_id: f, left_wildcards: w.0, right_wildcards: w.1 }
}

/// The first ID of `b`, from position `j` on, that `m` matches.
pub open spec fn first_match_from(b: Seq<u64>, m: SnowflakeFuzzyMatch, j: int) -> Option<u64>
    decreases b.len() - j,
{
    if j < 0 || j >= b.len() {
        None
    } else if spec_fuzzy_eq(m, b[j]) {
        Some(b[j])
    } else {
        first_match_from(b, m, j + 1)
    }
}

/// The first ID of `b` that `f` matches with a wildcard pair of `ws`, from
/// the pair at `k` on: all of `b` is tried with one pair before the next.
pub open spec fn first_wildcard_match_from(b: Seq<u64>, f: FuzzyMatchedId, ws: Seq<(u32, u32)>, k: int) -> Option<
    u64,
>
    decreases ws.len() - k,
{
    if k < 0 || k >= ws.len() {
        None
    } else {
        match first_match_from(b, wildcard_match(f, ws[k]), 0) {
            Some(x) => Some(x),
            None => first_wildcard_match_from(b, f, ws, k + 1),
        }
    }
}

/// The IDs of `b` that `m` matches, in order.
pub open spec fn matches_in(b: Seq<u64>, m: SnowflakeFuzzyMatch) -> Seq<u64>
    decreases b.len(),
{
    if b.len() == 0 {
        seq![]
    } else {
        let rest = matches_in(b.drop_last(), m);
        if spec_fuzzy_eq(m, b.last()) {
            rest.push(b.last())
        } else {
            rest
        }
    }
}

/// The IDs of `b` that `f` matches with each wildcard pair of `ws` in turn,
/// one list after the other.
pub open spec fn wildcard_matches(b: Seq<u64>, f: FuzzyMatchedId, ws: Seq<(u32, u32)>) -> Seq<u64>
    decreases ws.len(),
{
    if ws.len() == 0 {
        seq![]
    } else {
        wildcard_matches(b, f, ws.drop_last()) + matches_in(b, wildcard_match(f, ws.last()))
    }
}

/// Every fuzzy match that a search engine tries can be compared without
/// overflow.
proof fn lemma_wildcard_match_in_range(f: FuzzyMatchedId, w: (u32, u32), t: u32)
    requires
        w.0 <= t,
        w.1 <= t,
        t < 0x40_0000,
    ensures
        fuzzy_match_in_range(wildcard_match(f, w)),
{
    lemma_pow10_19();
    lemma_num_digits_bound(f.no_leading_zeros_id as nat, 20);
}

/// The first ID of `bucket` that `m` matches.
fn first_match_in(bucket: &Vec<u64>, m: SnowflakeFuzzyMatch) -> (r: Option<u64>)
    requires
        fuzzy_match_in_range(m),
    ensures
        r == first_match_from(bucket@, m, 0),
{
    let mut j: usize = 0;
    while j < bucket.len()
        invariant
            j <= bucket@.len(),
            fuzzy_match_in_range(m),
            first_match_from(bucket@, m, 0) == first_match_from(bucket@, m, j as int),
        decreases bucket@.len() - j,
    {
        if m.matches(bucket[j]) {
            return Some(bucket[j]);
        }
        j = j + 1;
    }
    None
}

/// Appends the IDs of `bucket` that `m` matches to `out`.
fn push_matches(bucket: &Vec<u64>, m: SnowflakeFuzzyMatch, out: &mut Vec<u64>)
    requires
        fuzzy_match_in_range(m),
    ensures
        final(out)@ == old(out)@ + matches_in(bucket@, m),
{
    let ghost start = out@;
    let mut j: usize = 0;
    while j < bucket.len()
        invariant
            j <= bucket@.len(),
            fuzzy_match_in_range(m),
            out@ == start + matches_in(bucket@.take(j as int), m),
        decreases bucket@.len() - j,
    {
        let id = bucket[j];
        proof {
            assert(bucket@.take(j + 1).drop_last() =~= bucket@.take(j as int));
        }
        if m.matches(id) {
            out.push(id);
        }
        proof {
            assert(out@ =~= start + matches_in(bucket@.take(j + 1), m));
        }
        j = j + 1;
    }
    proof {
        assert(bucket@.take(j as int) =~= bucket@);
    }
}

/// The IDs of `buckets`, bucket after bucket, each in its own order.
pub open spec fn all_ids(buckets: Seq<Vec<u64>>) -> Seq<u64>
    decreases buckets.len(),
{
    if buckets.len() == 0 {
        seq![]
    } else {
        all_ids(buckets.drop_last()) + buckets.last()@
    }
}

/// The IDs of `s` followed by those of `t` are those of both, one after
/// the other.
proof fn lemma_all_ids_concat(s: Seq<Vec<u64>>, t: Seq<Vec<u64>>)
    ensures
        all_ids(s + t) == all_ids(s) + all_ids(t),
    decreases t.len(),
{
    if t.len() == 0 {
        assert(s + t =~= s);
        assert(all_ids(s) + all_ids(t) =~= all_ids(s));
    } else {
        lemma_all_ids_concat(s, t.drop_last());
        assert((s + t).drop_last() =~= s + t.drop_last());
        assert((s + t).last() == t.last());
        assert(all_ids(s) + (all_ids(t.drop_last()) + t.last()@) =~= (all_ids(s) + all_ids(t.drop_last()))
            + t.last()@);
    }
}

proof fn lemma_concat_contains(s: Seq<u64>, t: Seq<u64>)
    ensures
        forall|x: u64| #[trigger] (s + t).contains(x) <==> s.contains(x) || t.contains(x),
{
    assert forall|x: u64| #[trigger] (s + t).contains(x) <==> s.contains(x) || t.contains(x) by {
        if (s + t).contains(x) {
            let p = choose|p: int| 0 <= p < (s + t).len() && (s + t)[p] == x;
            if p < s.len() {
                assert(s[p] == x);
            } else {
                assert(t[p - s.len()] == x);
            }
        }
        if s.contains(x) {
            let p = choose|p: int| 0 <= p < s.len() && s[p] == x;
            assert((s + t)[p] == x);
        }
        if t.contains(x) {
            let p = choose|p: int| 0 <= p < t.len() && t[p] == x;
            assert((s + t)[s.len() + p] == x);
        }
    }
}

/// An ID is among those of `b` exactly where some bucket of `b` holds it.
proof fn lemma_all_ids_contains(b: Seq<Vec<u64>>)
    ensures
        forall|x: u64| #[trigger]
            all_ids(b).contains(x) <==> exists|i: int| 0 <= i < b.len() && #[trigger] b[i]@.contains(x),
    decreases b.len(),
{
    if b.len() > 0 {
        let init = b.drop_last();
        lemma_all_ids_contains(init);
        lemma_concat_contains(all_ids(init), b.last()@);
        assert forall|x: u64| #[trigger]
            all_ids(b).contains(x) <==> exists|i: int| 0 <= i < b.len() && #[trigger] b[i]@.contains(x) by {
            if all_ids(init).contains(x) {
                let i = choose|i: int| 0 <= i < init.len() && #[trigger] init[i]@.contains(x);
                assert(b[i] == init[i]);
            }
            if b.last()@.contains(x) {
                assert(b[b.len() - 1]@.contains(x));
            }
            if exists|i: int| 0 <= i < b.len() && #[trigger] b[i]@.contains(x) {
                let i = choose|i: int| 0 <= i < b.len() && #[trigger] b[i]@.contains(x);
                if i < b.len() - 1 {
                    assert(init[i] == b[i]);
                    assert(init[i]@.contains(x));
                }
            }
        }
    }
}

/// The matches in `s` followed by `t` are those of `s`, then those of `t`.
proof fn lemma_matches_in_concat(s: Seq<u64>, t: Seq<u64>, m: SnowflakeFuzzyMatch)
    ensures
        matches_in(s + t, m) == matches_in(s, m) + matches_in(t, m),
    decreases t.len(),
{
    if t.len() == 0 {
        assert(s + t =~= s);
        assert(matches_in(s, m) + matches_in(t, m) =~= matches_in(s, m));
    } else {
        lemma_matches_in_concat(s, t.drop_last(), m);
        assert((s + t).drop_last() =~= s + t.drop_last());
        assert((s + t).last() == t.last());
        assert(matches_in(s, m) + matches_in(t.drop_last(), m).push(t.last()) =~= (matches_in(s, m)
            + matches_in(t.drop_last(), m)).push(t.last()));
    }
}

proof fn lemma_first_match_shift(s: Seq<u64>, t: Seq<u64>, m: SnowflakeFuzzyMatch, k: int)
    requires
        0 <= k <= t.len(),
    ensures
        first_match_from(s + t, m, s.len() + k) == first_match_from(t, m, k),
    decreases t.len() - k,
{
    if k < t.len() {
        lemma_first_match_shift(s, t, m, k + 1);
        assert((s + t)[s.len() + k] == t[k]);
    }
}

/// The first match in `s` followed by `t` is the first in `s`, or where
/// there is none, the first in `t`.
proof fn lemma_first_match_concat(s: Seq<u64>, t: Seq<u64>, m: SnowflakeFuzzyMatch, j: int)
    requires
        0 <= j <= s.len(),
    ensures
        first_match_from(s + t, m, j) == (match first_match_from(s, m, j) {
            Some(x) => Some(x),
            None => first_match_from(t, m, 0),
        }),
    decreases s.len() - j,
{
    if j < s.len() {
        lemma_first_match_concat(s, t, m, j + 1);
        assert((s + t)[j] == s[j]);
    } else {
        lemma_first_match_shift(s, t, m, 0);
    }
}

/// The first ID of `buckets`, bucket after bucket, that `m` matches.
fn first_match_in_buckets(buckets: &Vec<Vec<u64>>, m: SnowflakeFuzzyMatch) -> (r: Option<u64>)
    requires
        fuzzy_match_in_range(m),
    ensures
        r == first_match_from(all_ids(buckets@), m, 0),
{
    let mut i: usize = 0;
    while i < buckets.len()
        invariant
            i <= buckets@.len(),
            fuzzy_match_in_range(m),
            first_match_from(all_ids(buckets@.take(i as int)), m, 0) is None,
        decreases buckets@.len() - i,
    {
        let found = first_match_in(&buckets[i], m);
        proof {
            let before = buckets@.take(i as int);
            let upto = buckets@.take(i + 1);
            assert(upto.drop_last() =~= before);
            assert(upto.last() == buckets@[i as int]);
            lemma_first_match_concat(all_ids(before), buckets@[i as int]@, m, 0);
            assert(first_match_from(all_ids(upto), m, 0) == found);
            lemma_all_ids_concat(upto, buckets@.skip(i + 1));
            assert(upto + buckets@.skip(i + 1) =~= buckets@);
            lemma_first_match_concat(all_ids(upto), all_ids(buckets@.skip(i + 1)), m, 0);
        }
        if let Some(x) = found {
            return Some(x);
        }
        i = i + 1;
    }
    proof {
        assert(buckets@.take(i as int) =~= buckets@);
    }
    None
}

/// Appends the IDs of `buckets`, bucket after bucket, that `m` matches to
/// `out`.
fn push_matches_in_buckets(buckets: &Vec<Vec<u64>>, m: SnowflakeFuzzyMatch, out: &mut Vec<u64>)
    requires
        fuzzy_match_in_range(m),
    ensures
        final(out)@ == old(out)@ + matches_in(all_ids(buckets@), m),
{
    let ghost start = out@;
    let mut i: usize = 0;
    while i < buckets.len()
        invariant
            i <= buckets@.len(),
            fuzzy_match_in_range(m),
            out@ == start + matches_in(all_ids(buckets@.take(i as int)), m),
        decreases buckets@.len() - i,
    {
        proof {
            let before = buckets@.take(i as int);
            let upto = buckets@.take(i + 1);
            assert(upto.drop_last() =~= before);
            assert(upto.last() == buckets@[i as int]);
            lemma_matches_in_concat(all_ids(before), buckets@[i as int]@, m);
        }
        push_matches(&buckets[i], m, out);
        proof {
            assert(out@ =~= start + matches_in(all_ids(buckets@.take(i + 1)), m));
        }
        i = i + 1;
    }
    proof {
        assert(buckets@.take(i as int) =~= buckets@);
    }
}

impl<const T: u32> SnowflakeIdSearchEngine<T> {
    /// The IDs a fuzzy search goes through: those of every bucket, bucket
    /// after bucket.
    pub open spec fn stored_ids(&self) -> Seq<u64> {
        all_ids(self.spec_buckets())
    }

    /// The IDs a fuzzy search goes through are exactly those of the engine.
    pub proof fn lemma_stored_ids(&self)
        requires
            self.wf(),
        ensures
            forall|x: u64| #[trigger] self.stored_ids().contains(x) <==> self@.contains(x),
    {
        let b = self.buckets@;
        let n = b.len();
        lemma_all_ids_contains(b);
        assert forall|x: u64| #[trigger] self.stored_ids().contains(x) <==> self@.contains(x) by {
            if self.stored_ids().contains(x) {
                let i = choose|i: int| 0 <= i < b.len() && #[trigger] b[i]@.contains(x);
                let j = choose|j: int| 0 <= j < b[i]@.len() && b[i]@[j] == x;
                assert(self.ids@.contains(b[i]@[j]));
            }
            if self@.contains(x) {
                assert(self.ids@.contains(x));
                let i = bucket_index(x, n) as int;
                assert(0 <= i < n);
                assert(b[i]@.contains(x));
            }
        }
    }

    /// What a fuzzy search for `f` finds: `f` itself where the engine holds
    /// it, else the first ID of the engine that it matches, with the
    /// wildcard pairs tried in order and every bucket searched with each.
    pub open spec fn spec_find_fuzzy_match(&self, f: FuzzyMatchedId) -> Option<u64> {
        let id = f.no_leading_zeros_id;
        if self@.contains(id) {
            Some(id)
        } else {
            first_wildcard_match_from(self.stored_ids(), f, spec_wildcards(T as nat), 0)
        }
    }

    /// All that a fuzzy search for `f` finds: `f` itself where the engine
    /// holds it, else the IDs of the engine that it matches with each
    /// wildcard pair in turn.
    pub open spec fn spec_find_fuzzy_matches(&self, f: FuzzyMatchedId) -> Seq<u64> {
        let id = f.no_leading_zeros_id;
        if self@.contains(id) {
            seq![id]
        } else {
            wildcard_matches(self.stored_ids(), f, spec_wildcards(T as nat))
        }
    }

    /// Finds an ID that `fuzzy_id` matches: the ID itself, or one with at
    /// most `T` digits chopped off either end, whatever bucket it is in.
    pub fn find_fuzzy_match_id(&self, fuzzy_id: FuzzyMatchedId) -> (r: Option<u64>)
        requires
            self.wf(),
        ensures
            r == self.spec_find_fuzzy_match(fuzzy_id),
    {
        let id = fuzzy_id.no_leading_zeros_id;
        if self.buckets.len() > 0 && self.no_len_check_contains(id) {
            return Some(id);
        }
        proof {
            assert(!self.ids@.contains(id));
            lemma_chopped_digits_small(T);
            lemma_wildcards_bounds(T as nat);
        }
        let mut k: usize = 0;
        while k < self.wildcards.len()
            invariant
                self.wf(),
                T < 0x40_0000,
                k <= self.wildcards@.len(),
                !self@.contains(id),
                forall|i: int|
                    0 <= i < spec_wildcards(T as nat).len() ==> {
                        let w = #[trigger] spec_wildcards(T as nat)[i];
                        &&& w.0 <= T
                        &&& w.1 <= T
                    },
                self.spec_find_fuzzy_match(fuzzy_id) == first_wildcard_match_from(
                    all_ids(self.buckets@),
                    fuzzy_id,
                    spec_wildcards(T as nat),
                    k as int,
                ),
            decreases self.wildcards@.len() - k,
        {
            let (left_wildcards, right_wildcards) = self.wildcards[k];
            let fuzzy_match = SnowflakeFuzzyMatch::new(fuzzy_id, left_wildcards, right_wildcards);
            proof {
                assert(spec_wildcards(T as nat)[k as int] == (left_wildcards, right_wildcards));
                lemma_wildcard_match_in_range(fuzzy_id, (left_wildcards, right_wildcards), T);
                assert(fuzzy_match == wildcard_match(fuzzy_id, spec_wildcards(T as nat)[k as int]));
            }
            if let Some(found) = first_match_in_buckets(&self.buckets, fuzzy_match) {
                return Some(found);
            }
            k = k + 1;
        }
        None
    }

    /// Finds every ID that `fuzzy_id` matches: the ID itself where it is
    /// there, else those with at most `T` digits chopped off either end,
    /// whatever bucket they are in, listed by wildcard pair.
    pub fn find_fuzzy_matches_id(&self, fuzzy_id: FuzzyMatchedId) -> (r: Vec<u64>)
        requires
            self.wf(),
        ensures
            r@ == self.spec_find_fuzzy_matches(fuzzy_id),
    {
        let id = fuzzy_id.no_leading_zeros_id;
        if self.buckets.len() > 0 && self.no_len_check_contains(id) {
            let mut single: Vec<u64> = Vec::new();
            single.push(id);
            return single;
        }
        proof {
            assert(!self.ids@.contains(id));
            lemma_chopped_digits_small(T);
            lemma_wildcards_bounds(T as nat);
        }
        let mut fuzzy_matches: Vec<u64> = Vec::new();
        let mut k: usize = 0;
        while k < self.wildcards.len()
            invariant
                self.wf(),
                T < 0x40_0000,
                k <= self.wildcards@.len(),
                !self@.contains(id),
                forall|i: int|
                    0 <= i < spec_wildcards(T as nat).len() ==> {
                        let w = #[trigger] spec_wildcards(T as nat)[i];
                        &&& w.0 <= T
                        &&& w.1 <= T
                    },
                fuzzy_matches@ == wildcard_matches(
                    all_ids(self.buckets@),
                    fuzzy_id,
                    spec_wildcards(T as nat).take(k as int),
                ),
            decreases self.wildcards@.len() - k,
        {
            let (left_wildcards, right_wildcards) = self.wildcards[k];
            let fuzzy_match = SnowflakeFuzzyMatch::new(fuzzy_id, left_wildcards, right_wildcards);
            proof {
                assert(spec_wildcards(T as nat)[k as int] == (left_wildcards, right_wildcards));
                lemma_wildcard_match_in_range(fuzzy_id, (left_wildcards, right_wildcards), T);
                assert(spec_wildcards(T as nat).take(k + 1).drop_last() =~= spec_wildcards(T as nat).take(
                    k as int,
                ));
            }
            push_matches_in_buckets(&self.buckets, fuzzy_match, &mut fuzzy_matches);
            k = k + 1;
        }
        proof {
            assert(spec_wildcards(T as nat).take(k as int) =~= spec_wildcards(T as nat));
        }
        fuzzy_matches
    }
}

} // verus!

verus! {

/// The bucket count after adding the IDs of `s` one at a time to an engine
/// holding `ids` in `n` buckets at load factor `lf`: before each, the buckets
/// grow where one more ID would exceed the load factor.
pub open spec fn bucket_count_after_adds(ids: Set<u64>, n: nat, lf: nat, s: Seq<u64>) -> nat
    decreases s.len(),
{
    if s.len() == 0 {
        n
    } else {
        let next = if ids.len() + 1 > lf * n {
            bucket_count_for(ids.len() + 1, lf)
        } else {
            n
        };
        bucket_count_after_adds(ids.insert(s[0]), next, lf, s.drop_first())
    }
}

/// Growing for more IDs than the buckets hold gives more buckets.
proof fn lemma_growth_adds_buckets(cap: nat, lf: nat, n: nat)
    requires
        cap > lf * n,
        lf > 0,
    ensures
        bucket_count_for(cap, lf) > n,
{
    lemma_bucket_count_holds(cap, lf);
    lemma_mul_is_commutative(lf as int, n as int);
    lemma_mul_is_commutative(lf as int, bucket_count_for(cap, lf) as int);
    lemma_mul_strict_inequality_converse(n as int, bucket_count_for(cap, lf) as int, lf as int);
}

/// What can be grown for `cap` IDs can be grown for fewer.
proof fn lemma_growth_fewer(small: nat, cap: nat, lf: nat, t: nat)
    requires
        small <= cap,
        lf > 0,
        bucket_count_fits(cap, lf, t),
        lf * bucket_count_for(cap, lf) <= usize::MAX,
    ensures
        bucket_count_fits(small, lf, t),
        lf * bucket_count_for(small, lf) <= usize::MAX,
{
    lemma_bucket_count_monotonic(small, cap, lf);
    lemma_mul_inequality(bucket_count_for(small, lf) as int, bucket_count_for(cap, lf) as int, lf as int);
    lemma_mul_is_commutative(lf as int, bucket_count_for(small, lf) as int);
    lemma_mul_is_commutative(lf as int, bucket_count_for(cap, lf) as int);
}

impl<const T: u32> SnowflakeIdSearchEngine<T> {
    /// Finds an ID that the typed `fuzzy_id` matches (see
    /// [`Self::find_fuzzy_match_id`]); `None` where the text is no ID.
    pub fn find_fuzzy_match(&self, fuzzy_id: &str) -> (r: Option<u64>)
        requires
            self.wf(),
            fuzzy_id@.len() > 0,
        ensures
            r == (match spec_fuzzy_id_from_str(fuzzy_id@, vstd::utf8::encode_utf8(fuzzy_id@).len()) {
                Some(f) => self.spec_find_fuzzy_match(f),
                None => None,
            }),
    {
        match FuzzyMatchedId::try_from_str(fuzzy_id) {
            Some(f) => self.find_fuzzy_match_id(f),
            None => None,
        }
    }

    /// Finds every ID that the typed `fuzzy_id` matches (see
    /// [`Self::find_fuzzy_matches_id`]); none where the text is no ID.
    pub fn find_fuzzy_matches(&self, fuzzy_id: &str) -> (r: Vec<u64>)
        requires
            self.wf(),
            fuzzy_id@.len() > 0,
        ensures
            r@ == (match spec_fuzzy_id_from_str(fuzzy_id@, vstd::utf8::encode_utf8(fuzzy_id@).len()) {
                Some(f) => self.spec_find_fuzzy_matches(f),
                None => seq![],
            }),
    {
        match FuzzyMatchedId::try_from_str(fuzzy_id) {
            Some(f) => self.find_fuzzy_matches_id(f),
            None => Vec::new(),
        }
    }

    /// Whether the typed `fuzzy_id` matches some ID: the engine holds the
    /// typed ID itself, or some ID it matches with a wildcard pair.
    pub fn fuzzy_contains(&self, fuzzy_id: &str) -> (r: bool)
        requires
            self.wf(),
            fuzzy_id@.len() > 0,
        ensures
            r == (match spec_fuzzy_id_from_str(fuzzy_id@, vstd::utf8::encode_utf8(fuzzy_id@).len()) {
                Some(f) => self.spec_find_fuzzy_match(f) is Some,
                None => false,
            }),
            r == (match spec_fuzzy_id_from_str(fuzzy_id@, vstd::utf8::encode_utf8(fuzzy_id@).len()) {
                Some(f) => self@.contains(f.no_leading_zeros_id) || exists|q: int, x: u64|
                    0 <= q < spec_wildcards(T as nat).len() && self@.contains(x) && #[trigger] spec_fuzzy_eq(
                        wildcard_match(f, spec_wildcards(T as nat)[q]),
                        x,
                    ),
                None => false,
            }),
    {
        proof {
            if let Some(f) = spec_fuzzy_id_from_str(fuzzy_id@, vstd::utf8::encode_utf8(fuzzy_id@).len()) {
                self.lemma_fuzzy_match_found(f);
            }
        }
        self.find_fuzzy_match(fuzzy_id).is_some()
    }

    /// The bucket count after extending with `ids`: where there are more of
    /// them than half the load factor times the bucket count, the buckets
    /// first grow as for adding them all at once; then each is added in turn.
    pub open spec fn bucket_count_after_extend(&self, ids: Seq<u64>) -> nat {
        let lf = self.spec_load_factor();
        let n = self.spec_bucket_count();
        let start = if ids.len() > (lf / 2) * n {
            self.bucket_count_after_add(ids.len())
        } else {
            n
        };
        bucket_count_after_adds(self@, start, lf, ids)
    }

    /// Adds all of `ids`; those already there, or given twice, are added
    /// once. Where any ID is given, the engine afterwards holds at most the
    /// load factor times the bucket count.
    pub fn extend(&mut self, ids: Vec<u64>)
        requires
            old(self).wf(),
            forall|i: int| 0 <= i < ids@.len() ==> ids@[i] >= MIN_ID_NUMBER,
            old(self).grows_ok(ids@.len()),
        ensures
            final(self).wf(),
            final(self)@ == old(self)@ + ids@.to_set(),
            final(self).spec_load_factor() == old(self).spec_load_factor(),
            final(self).spec_bucket_count() == old(self).bucket_count_after_extend(ids@),
            ids@.len() > 0 || old(self)@.len() <= old(self).spec_load_factor() * old(self).spec_bucket_count()
                ==> final(self)@.len() <= final(self).spec_load_factor() * final(self).spec_bucket_count(),
    {
        let ghost start = *self;
        let ghost lf = self.spec_load_factor();
        let ghost n0 = self.spec_bucket_count();
        let ghost cap = self@.len() + ids@.len();
        let upper_bound = ids.len();
        proof {
            lemma_mul_inequality((self.load_factor / 2) as int, self.load_factor as int, self.buckets@.len() as int);
        }
        if upper_bound > self.load_factor / 2 * self.buckets.len() {
            self.reallocate_on_add(upper_bound);
            proof {
                if cap > lf * n0 {
                    lemma_growth_adds_buckets(cap, lf, n0);
                }
            }
        }
        proof {
            lemma_mul_inequality(n0 as int, self.spec_bucket_count() as int, lf as int);
            lemma_mul_is_commutative(lf as int, n0 as int);
            lemma_mul_is_commutative(lf as int, self.spec_bucket_count() as int);
        }
        let ghost target = start.bucket_count_after_extend(ids@);
        assert(ids@.skip(0) =~= ids@);
        assert(ids@.take(0).to_set() =~= Set::<u64>::empty());
        assert(start@ + Set::<u64>::empty() =~= start@);
        let mut i: usize = 0;
        while i < ids.len()
            invariant
                self.wf(),
                i <= ids@.len(),
                forall|j: int| 0 <= j < ids@.len() ==> ids@[j] >= MIN_ID_NUMBER,
                self.spec_load_factor() == lf,
                self.spec_bucket_count() >= n0,
                self@.len() <= start@.len() + i,
                cap == start@.len() + ids@.len(),
                cap <= usize::MAX,
                cap > lf * n0 ==> {
                    &&& lf > 0
                    &&& bucket_count_fits(cap, lf, T as nat)
                    &&& lf * bucket_count_for(cap, lf) <= usize::MAX
                },
                self@ == start@ + ids@.take(i as int).to_set(),
                bucket_count_after_adds(self@, self.spec_bucket_count(), lf, ids@.skip(i as int)) == target,
                i > 0 || start@.len() <= lf * n0 ==> self@.len() <= lf * self.spec_bucket_count(),
            decreases ids@.len() - i,
        {
            let id = ids[i];
            proof {
                let n = self.spec_bucket_count();
                if self@.len() + 1 > lf * n {
                    lemma_mul_inequality(n0 as int, n as int, lf as int);
                    lemma_mul_is_commutative(lf as int, n0 as int);
                    lemma_mul_is_commutative(lf as int, n as int);
                    lemma_growth_fewer(self@.len() + 1, cap, lf, T as nat);
                }
                assert(ids@.skip(i as int).drop_first() =~= ids@.skip(i + 1));
                assert(ids@.skip(i as int)[0] == id);
            }
            let ghost before = *self;
            self.add_id(id);
            proof {
                if before@.len() + 1 > lf * before.spec_bucket_count() {
                    lemma_growth_adds_buckets(before@.len() + 1, lf, before.spec_bucket_count());
                }
                assert(ids@.take(i + 1) =~= ids@.take(i as int).push(id));
                let s0 = ids@.take(i as int);
                let s1 = ids@.take(i + 1);
                assert(s1.to_set() =~= s0.to_set().insert(id)) by {
                    assert forall|x: u64| s1.to_set().contains(x) implies s0.to_set().insert(id).contains(x) by {
                        let k = choose|k: int| 0 <= k < s1.len() && #[trigger] s1[k] == x;
                        if k < i {
                            assert(s0[k] == x);
                        }
                    }
                    assert forall|x: u64| s0.to_set().insert(id).contains(x) implies s1.to_set().contains(x) by {
                        if x == id {
                            assert(s1[i as int] == x);
                        } else {
                            let k = choose|k: int| 0 <= k < s0.len() && #[trigger] s0[k] == x;
                            assert(s1[k] == x);
                        }
                    }
                }
                assert(self@ =~= start@ + ids@.take(i + 1).to_set());
            }
            i = i + 1;
        }
        proof {
            assert(ids@.take(i as int) =~= ids@);
            assert(ids@.skip(i as int) =~= Seq::<u64>::empty());
        }
    }

    /// Whether both search engines hold the same IDs.
    pub fn eq(&self, other: &Self) -> (r: bool)
        requires
            self.wf(),
            other.wf(),
        ensures
            r == (self@ == other@),
    {
        if self.len != other.len {
            return false;
        }
        let mut i: usize = 0;
        while i < self.buckets.len()
            invariant
                self.wf(),
                other.wf(),
                self@.len() == other@.len(),
                i <= self.buckets@.len(),
                forall|k: int, p: int|
                    0 <= k < i && 0 <= p < self.buckets@[k]@.len() ==> other@.contains(#[trigger] self.buckets@[k]@[p]),
            decreases self.buckets@.len() - i,
        {
            let bucket = &self.buckets[i];
            let mut j: usize = 0;
            while j < bucket.len()
                invariant
                    self.wf(),
                    other.wf(),
                    self@.len() == other@.len(),
                    i < self.buckets@.len(),
                    bucket@ == self.buckets@[i as int]@,
                    j <= bucket@.len(),
                    forall|k: int, p: int|
                        0 <= k < i && 0 <= p < self.buckets@[k]@.len() ==> other@.contains(#[trigger] self.buckets@[k]@[p]),
                    forall|p: int| 0 <= p < j ==> other@.contains(#[trigger] self.buckets@[i as int]@[p]),
                decreases bucket@.len() - j,
            {
                let id = bucket[j];
                proof {
                    assert(self@.contains(self.buckets@[i as int]@[j as int]));
                    assert(other@.len() > 0) by {
                        vstd::set_lib::lemma_set_empty_equivalency_len(self@);
                    }
                    let some = other@.choose();
                    vstd::set_lib::lemma_set_empty_equivalency_len(other@);
                    assert(other@.contains(some));
                }
                if !other.contains(id) {
                    return false;
                }
                j = j + 1;
            }
            i = i + 1;
        }
        proof {
            assert forall|id: u64| self@.contains(id) implies #[trigger] other@.contains(id) by {
                let k = bucket_index(id, self.buckets@.len()) as int;
                assert(self.buckets@[k]@.contains(id));
                let p = choose|p: int| 0 <= p < self.buckets@[k]@.len() && self.buckets@[k]@[p] == id;
                assert(other@.contains(self.buckets@[k]@[p]));
            }
            vstd::set_lib::lemma_subset_equality(self@, other@);
        }
        true
    }
}

impl SnowflakeIdSearchEngine<2> {
    /// A search engine holding the given IDs, with buckets made for as many
    /// IDs as given.
    pub fn from_iter(ids: Vec<u64>) -> (r: Self)
        requires
            forall|i: int| 0 <= i < ids@.len() ==> ids@[i] >= MIN_ID_NUMBER,
            bucket_count_fits(ids@.len(), DEFAULT_LOAD_FACTOR as nat, 2),
            DEFAULT_LOAD_FACTOR * bucket_count_for(ids@.len(), DEFAULT_LOAD_FACTOR as nat) <= usize::MAX,
        ensures
            r.wf(),
            r@ == ids@.to_set(),
            r.spec_load_factor() == DEFAULT_LOAD_FACTOR,
    {
        proof {
            reveal_with_fuel(max_bits_chopped_off, 3);
        }
        let mut engine = Self::with_capacity(ids.len());
        proof {
            lemma_bucket_count_holds(ids@.len(), DEFAULT_LOAD_FACTOR as nat);
        }
        engine.extend(ids);
        proof {
            assert(engine@ =~= ids@.to_set());
        }
        engine
    }
}

impl Default for SnowflakeIdSearchEngine<2> {
    fn default() -> (r: Self)
        ensures
            r.wf(),
            r@ == Set::<u64>::empty(),
            r.spec_bucket_count() == 0,
            r.spec_load_factor() == DEFAULT_LOAD_FACTOR,
    {
        proof {
            reveal_with_fuel(max_bits_chopped_off, 3);
        }
        Self::new()
    }
}

} // verus!

verus! {

proof fn lemma_first_match_from(b: Seq<u64>, m: SnowflakeFuzzyMatch, j: int)
    requires
        0 <= j,
    ensures
        first_match_from(b, m, j) matches Some(x) ==> b.contains(x) && spec_fuzzy_eq(m, x),
        (exists|p: int| j <= p < b.len() && spec_fuzzy_eq(m, #[trigger] b[p])) ==> first_match_from(b, m, j) is Some,
    decreases b.len() - j,
{
    if j < b.len() {
        lemma_first_match_from(b, m, j + 1);
        if spec_fuzzy_eq(m, b[j]) {
            assert(b.contains(b[j]));
        } else {
            if exists|p: int| j <= p < b.len() && spec_fuzzy_eq(m, #[trigger] b[p]) {
                let p = choose|p: int| j <= p < b.len() && spec_fuzzy_eq(m, #[trigger] b[p]);
                assert(p != j);
                assert(j + 1 <= p < b.len() && spec_fuzzy_eq(m, b[p]));
            }
        }
    }
}

proof fn lemma_first_wildcard_match_from(b: Seq<u64>, f: FuzzyMatchedId, ws: Seq<(u32, u32)>, k: int)
    requires
        0 <= k,
    ensures
        first_wildcard_match_from(b, f, ws, k) matches Some(x) ==> b.contains(x) && exists|q: int|
            k <= q < ws.len() && spec_fuzzy_eq(wildcard_match(f, #[trigger] ws[q]), x),
        (exists|q: int, x: u64|
            k <= q < ws.len() && b.contains(x) && #[trigger] spec_fuzzy_eq(wildcard_match(f, ws[q]), x))
            ==> first_wildcard_match_from(b, f, ws, k) is Some,
    decreases ws.len() - k,
{
    if k < ws.len() {
        lemma_first_wildcard_match_from(b, f, ws, k + 1);
        lemma_first_match_from(b, wildcard_match(f, ws[k]), 0);
        if exists|q: int, x: u64|
            k <= q < ws.len() && b.contains(x) && #[trigger] spec_fuzzy_eq(wildcard_match(f, ws[q]), x) {
            let (q, x) = choose|q: int, x: u64|
                k <= q < ws.len() && b.contains(x) && #[trigger] spec_fuzzy_eq(wildcard_match(f, ws[q]), x);
            if q == k {
                let p = choose|p: int| 0 <= p < b.len() && b[p] == x;
                assert(spec_fuzzy_eq(wildcard_match(f, ws[k]), b[p]));
            } else {
                assert(k + 1 <= q < ws.len() && b.contains(x) && spec_fuzzy_eq(wildcard_match(f, ws[q]), x));
            }
        }
    }
}

proof fn lemma_matches_in(b: Seq<u64>, m: SnowflakeFuzzyMatch)
    ensures
        forall|x: u64| #[trigger] matches_in(b, m).contains(x) <==> b.contains(x) && spec_fuzzy_eq(m, x),
    decreases b.len(),
{
    if b.len() > 0 {
        lemma_matches_in(b.drop_last(), m);
        let rest = matches_in(b.drop_last(), m);
        assert forall|x: u64| #[trigger] matches_in(b, m).contains(x) <==> b.contains(x) && spec_fuzzy_eq(m, x) by {
            if b.contains(x) {
                let p = choose|p: int| 0 <= p < b.len() && b[p] == x;
                if p < b.len() - 1 {
                    assert(b.drop_last()[p] == x);
                }
            }
            if b.drop_last().contains(x) {
                let p = choose|p: int| 0 <= p < b.drop_last().len() && b.drop_last()[p] == x;
                assert(b[p] == x);
            }
            if spec_fuzzy_eq(m, b.last()) {
                assert(rest.push(b.last())[rest.len() as int] == b.last());
                if rest.contains(x) {
                    let p = choose|p: int| 0 <= p < rest.len() && rest[p] == x;
                    assert(rest.push(b.last())[p] == x);
                }
                if rest.push(b.last()).contains(x) {
                    let p = choose|p: int| 0 <= p < rest.len() + 1 && rest.push(b.last())[p] == x;
                    if p < rest.len() {
                        assert(rest[p] == x);
                    }
                }
            }
        }
    }
}

proof fn lemma_wildcard_matches(b: Seq<u64>, f: FuzzyMatchedId, ws: Seq<(u32, u32)>)
    ensures
        forall|x: u64| #[trigger] wildcard_matches(b, f, ws).contains(x) <==> b.contains(x) && exists|q: int|
            0 <= q < ws.len() && spec_fuzzy_eq(wildcard_match(f, #[trigger] ws[q]), x),
    decreases ws.len(),
{
    if ws.len() > 0 {
        let init = ws.drop_last();
        lemma_wildcard_matches(b, f, init);
        lemma_matches_in(b, wildcard_match(f, ws.last()));
        let left = wildcard_matches(b, f, init);
        let right = matches_in(b, wildcard_match(f, ws.last()));
        assert forall|x: u64| #[trigger] wildcard_matches(b, f, ws).contains(x) <==> b.contains(x) && exists|q: int|
            0 <= q < ws.len() && spec_fuzzy_eq(wildcard_match(f, #[trigger] ws[q]), x) by {
            let all = left + right;
            if all.contains(x) {
                let p = choose|p: int| 0 <= p < all.len() && all[p] == x;
                if p < left.len() {
                    assert(left[p] == x);
                    assert(left.contains(x));
                    let q = choose|q: int| 0 <= q < init.len() && spec_fuzzy_eq(wildcard_match(f, #[trigger] init[q]), x);
                    assert(ws[q] == init[q]);
                } else {
                    assert(right[p - left.len()] == x);
                    assert(right.contains(x));
                    assert(ws[ws.len() - 1] == ws.last());
                }
            }
            if b.contains(x) && exists|q: int| 0 <= q < ws.len() && spec_fuzzy_eq(wildcard_match(f, #[trigger] ws[q]), x) {
                let q = choose|q: int| 0 <= q < ws.len() && spec_fuzzy_eq(wildcard_match(f, #[trigger] ws[q]), x);
                if q < ws.len() - 1 {
                    assert(init[q] == ws[q]);
                    assert(left.contains(x));
                    let p = choose|p: int| 0 <= p < left.len() && left[p] == x;
                    assert(all[p] == x);
                } else {
                    assert(right.contains(x));
                    let p = choose|p: int| 0 <= p < right.len() && right[p] == x;
                    assert(all[left.len() + p] == x);
                }
            }
        }
    }
}

impl<const T: u32> SnowflakeIdSearchEngine<T> {
    /// A fuzzy search finds only IDs of the engine: the typed ID itself, or
    /// one it matches with a wildcard pair; and where any ID of the engine
    /// matches with some wildcard pair, whatever its bucket, it finds one.
    /// So it finds something exactly where the engine holds the typed ID or
    /// an ID it matches with some wildcard pair.
    pub proof fn lemma_fuzzy_match_found(&self, f: FuzzyMatchedId)
        requires
            self.wf(),
        ensures
            self.spec_find_fuzzy_match(f) matches Some(x) ==> self@.contains(x) && (x == f.no_leading_zeros_id
                || exists|q: int|
                0 <= q < spec_wildcards(T as nat).len() && spec_fuzzy_eq(
                    wildcard_match(f, #[trigger] spec_wildcards(T as nat)[q]),
                    x,
                )),
            (exists|q: int, x: u64|
                0 <= q < spec_wildcards(T as nat).len() && self@.contains(x) && #[trigger] spec_fuzzy_eq(
                    wildcard_match(f, spec_wildcards(T as nat)[q]),
                    x,
                )) ==> self.spec_find_fuzzy_match(f) is Some,
            self.spec_find_fuzzy_match(f) is Some <==> (self@.contains(f.no_leading_zeros_id) || exists|
                q: int,
                x: u64,
            |
                0 <= q < spec_wildcards(T as nat).len() && self@.contains(x) && #[trigger] spec_fuzzy_eq(
                    wildcard_match(f, spec_wildcards(T as nat)[q]),
                    x,
                )),
    {
        self.lemma_stored_ids();
        lemma_first_wildcard_match_from(self.stored_ids(), f, spec_wildcards(T as nat), 0);
    }

    /// A search for all fuzzy matches lists only IDs of the engine that the
    /// typed ID matches, and where the typed ID itself is not there, every ID
    /// of the engine that it matches with some wildcard pair, whatever its
    /// bucket.
    pub proof fn lemma_fuzzy_matches_found(&self, f: FuzzyMatchedId)
        requires
            self.wf(),
        ensures
            forall|x: u64| #[trigger]
                self.spec_find_fuzzy_matches(f).contains(x) ==> self@.contains(x) && (x == f.no_leading_zeros_id
                    || exists|q: int|
                    0 <= q < spec_wildcards(T as nat).len() && spec_fuzzy_eq(
                        wildcard_match(f, #[trigger] spec_wildcards(T as nat)[q]),
                        x,
                    )),
            !self@.contains(f.no_leading_zeros_id) ==> forall|q: int, x: u64|
                0 <= q < spec_wildcards(T as nat).len() && self@.contains(x) && #[trigger] spec_fuzzy_eq(
                    wildcard_match(f, spec_wildcards(T as nat)[q]),
                    x,
                ) ==> self.spec_find_fuzzy_matches(f).contains(x),
    {
        self.lemma_stored_ids();
        lemma_wildcard_matches(self.stored_ids(), f, spec_wildcards(T as nat));
        let id = f.no_leading_zeros_id;
        if self@.contains(id) {
            assert forall|x: u64| #[trigger] self.spec_find_fuzzy_matches(f).contains(x) implies x == id by {
                let p = choose|p: int| 0 <= p < 1 && seq![id][p] == x;
            }
        }
    }
}

} // verus!

verus! {

/// When the buckets hold as many IDs as the load factor allows, one ID more
/// doubles them.
pub proof fn lemma_full_buckets_double(lf: nat, e: nat)
    requires
        lf > 0,
        e >= 1,
    ensures
        bucket_count_for(lf * two_pow(e) + 1, lf) == 2 * two_pow(e),
{
    let n = two_pow(e);
    let x = lf * n + 1;
    if lf == 1 {
        assert(x == n + 1);
        assert(x / 1 == x && x % 1 == 0) by (nonlinear_arith)
            requires
                x >= 0,
        ;
    } else {
        lemma_mul_is_commutative(lf as int, n as int);
        lemma_fundamental_div_mod_converse(x as int, lf as int, n as int, 1);
    }
    assert(div_ceil_spec(x, lf) == n + 1);
    lemma_ceil_log2(n + 1);
    let c = ceil_log2(n + 1);
    assert(two_pow(e + 1) == 2 * n);
    assert(c <= e + 1);
    if c <= e {
        lemma_two_pow_monotonic(c, e);
    }
    assert(c == e + 1);
}

/// Where the IDs left fill less than three eighths of at least four
/// buckets, the buckets made for them are at most half as many.
pub proof fn lemma_sparse_buckets_halve(cap: nat, lf: nat, e: nat)
    requires
        lf > 0,
        e >= 2,
        cap * 8 < 3 * (lf * two_pow(e)),
    ensures
        2 * bucket_count_for(cap, lf) <= two_pow(e),
{
    let h = two_pow((e - 1) as nat);
    assert(two_pow(e) == 2 * h);
    assert(cap <= lf * h) by (nonlinear_arith)
        requires
            cap * 8 < 3 * (lf * (2 * h)),
    ;
    lemma_bucket_exponent_at_most(cap, lf, (e - 1) as nat);
    lemma_two_pow_monotonic(bucket_exponent(cap, lf), (e - 1) as nat);
}

impl<const T: u32> SnowflakeIdSearchEngine<T> {
    /// Adding an ID the engine does not hold makes it hold one ID more,
    /// that one among them; removing it again gives back what it held.
    pub proof fn lemma_add_then_remove(&self, added: Set<u64>, removed: Set<u64>, id: u64)
        requires
            self.wf(),
            !self@.contains(id),
            added == self@.insert(id),
            removed == added.remove(id),
        ensures
            added.contains(id),
            added.len() == self@.len() + 1,
            !removed.contains(id),
            removed == self@,
    {
        assert(removed =~= self@);
    }
}

} // verus!

verus! {

impl SnowflakeFuzzyMatch {
    /// Whether the counts of this fuzzy match are small enough to compare it.
    pub fn in_range(&self) -> (r: bool)
        ensures
            r == fuzzy_match_in_range(*self),
    {
        let added: u64 = self.left_wildcards as u64 + self.right_wildcards as u64;
        if added == 0 {
            return true;
        }
        let len = snowflake_len(self.fuzzy_id.no_leading_zeros_id);
        let digits: u64 = if len > 1 { len as u64 } else { 1 };
        digits + added + self.fuzzy_id.leading_zeros as u64 <= u32::MAX as u64
    }
}

impl PartialEq<u64> for SnowflakeFuzzyMatch {
    /// Whether this fuzzy match matches `other`; a fuzzy match whose counts
    /// are too large to compare matches nothing.
    fn eq(&self, other: &u64) -> (r: bool) {
        self.in_range() && self.matches(*other)
    }
}

impl vstd::std_specs::cmp::PartialEqSpecImpl<u64> for SnowflakeFuzzyMatch {
    open spec fn obeys_eq_spec() -> bool {
        true
    }

    open spec fn eq_spec(&self, other: &u64) -> bool {
        fuzzy_match_in_range(*self) && spec_fuzzy_eq(*self, *other)
    }
}

} // verus!

verus! {

impl PartialEq<SnowflakeFuzzyMatch> for u64 {
    /// Whether `other` matches this ID, as from the side of the fuzzy match.
    fn eq(&self, other: &SnowflakeFuzzyMatch) -> (r: bool) {
        other.in_range() && other.matches(*self)
    }
}

impl vstd::std_specs::cmp::PartialEqSpecImpl<SnowflakeFuzzyMatch> for u64 {
    open spec fn obeys_eq_spec() -> bool {
        true
    }

    open spec fn eq_spec(&self, other: &SnowflakeFuzzyMatch) -> bool {
        fuzzy_match_in_range(*other) && spec_fuzzy_eq(*other, *self)
    }
}

/// Comparing an ID with a fuzzy match gives the same answer from either
/// side.
pub proof fn lemma_fuzzy_eq_symmetric(m: SnowflakeFuzzyMatch, id: u64)
    ensures
        m.eq_spec(&id) == id.eq_spec(&m),
{
}

} // verus!

verus! {

/// The first `leading_zero_count(s)` characters of `s` are zeros, and the
/// one after them, if any, is not.
proof fn lemma_leading_zeros_are_zeros(s: Seq<char>)
    ensures
        leading_zero_count(s) <= s.len(),
        forall|j: int| 0 <= j < leading_zero_count(s) ==> s[j] == '0',
        leading_zero_count(s) < s.len() ==> s[leading_zero_count(s) as int] != '0',
    decreases s.len(),
{
    if s.len() > 0 && s[0] == '0' {
        let t = s.drop_first();
        lemma_leading_zeros_are_zeros(t);
        assert forall|j: int| 0 <= j < leading_zero_count(s) implies s[j] == '0' by {
            if j > 0 {
                assert(s[j] == t[j - 1]);
            }
        }
        let k = leading_zero_count(s);
        if k < s.len() {
            assert(s[k as int] == t[k - 1]);
        }
    }
}

/// Zeros in front of a run of digits do not change its value.
proof fn lemma_zeros_value(s: Seq<char>, k: int)
    requires
        0 <= k <= s.len(),
        forall|j: int| 0 <= j < k ==> s[j] == '0',
    ensures
        digits_value(s) == digits_value(s.skip(k)),
    decreases k,
{
    if k > 0 {
        let t = s.drop_first();
        lemma_zeros_value(t, k - 1);
        assert(t.skip(k - 1) =~= s.skip(k));
        lemma_leading_zero_value(t);
        assert(seq!['0'] + t =~= s);
    } else {
        assert(s.skip(0) =~= s);
    }
}

/// Digits that do not start with a zero give a number of at least one.
proof fn lemma_nonzero_start_value(d: Seq<char>)
    requires
        d.len() > 0,
        all_digits(d),
        d[0] != '0',
    ensures
        digits_value(d) >= 1,
    decreases d.len(),
{
    if d.len() > 1 {
        let init = d.drop_last();
        assert(init[0] == d[0]);
        lemma_nonzero_start_value(init);
        assert(is_digit(d[d.len() - 1]));
    } else {
        assert(digits_value(d.drop_last()) == 0);
        assert(is_digit(d[0]));
    }
}

/// Writing the number of a run of digits back in decimal gives the run
/// again, where it does not start with a zero or is the single digit zero.
proof fn lemma_digits_decimal(d: Seq<char>)
    requires
        d.len() > 0,
        all_digits(d),
        d[0] != '0' || d.len() == 1,
    ensures
        decimal(digits_value(d) as nat) == d,
    decreases d.len(),
{
    let init = d.drop_last();
    let c = d.last();
    assert(is_digit(d[d.len() - 1]));
    assert(digit_char(digit_value(c) as nat) == c) by {
        assert(('0' as int) == 48);
        assert((c as int - 48 + 48) == c as u32 as int);
    }
    if d.len() == 1 {
        assert(digits_value(init) == 0);
        assert(digits_value(d) == digit_value(c));
        assert(d =~= seq![c]);
    } else {
        assert(init[0] == d[0]);
        assert(all_digits(init));
        lemma_digits_decimal(init);
        lemma_nonzero_start_value(init);
        lemma_digits_value_nonneg(init);
        let v = digits_value(d);
        let u = digits_value(init);
        let g = digit_value(c);
        assert(v == u * 10 + g);
        assert(0 <= g < 10);
        assert(v / 10 == u && v % 10 == g) by (nonlinear_arith)
            requires
                v == u * 10 + g,
                0 <= g < 10,
        ;
        assert(d =~= init.push(c));
    }
}

/// `n` zeros.
pub open spec fn zeros(n: nat) -> Seq<char> {
    Seq::new(n, |i: int| '0')
}

/// Reading a typed ID of digits keeps all that it says: where it is read,
/// its leading zeros followed by its number in decimal give the text back;
/// and text of at most [`MAX_ID_LEN`] bytes whose number fits in a `u64` is
/// always read.
pub proof fn lemma_fuzzy_id_roundtrip(s: Seq<char>)
    requires
        s.len() > 0,
        all_digits(s),
    ensures
        (vstd::utf8::encode_utf8(s).len() <= MAX_ID_LEN && digits_value(s) <= u64::MAX) ==> spec_fuzzy_id_from_str(
            s,
            vstd::utf8::encode_utf8(s).len(),
        ) is Some,
        spec_fuzzy_id_from_str(s, vstd::utf8::encode_utf8(s).len()) matches Some(f) ==> zeros(f.leading_zeros as nat)
            + decimal(f.no_leading_zeros_id as nat) == s,
{
    let n = vstd::utf8::encode_utf8(s).len();
    crate::text::lemma_bytes_at_least_chars(s);
    lemma_leading_zeros_are_zeros(s);
    let k = leading_zero_count(s);
    if n <= MAX_ID_LEN {
        if k < s.len() {
            let rest = s.skip(k as int);
            assert(rest[0] == s[k as int]);
            assert(all_digits(rest)) by {
                assert forall|i: int| 0 <= i < rest.len() implies is_digit(#[trigger] rest[i]) by {
                    assert(rest[i] == s[k + i]);
                }
            }
            assert(rest[0] != '+');
            lemma_zeros_value(s, k as int);
            if let Some(f) = spec_fuzzy_id_from_str(s, n) {
                lemma_digits_decimal(rest);
                lemma_digits_value_nonneg(rest);
                assert(f.no_leading_zeros_id as nat == digits_value(rest));
                assert(f.leading_zeros as nat == k);
                assert(zeros(k) + rest =~= s);
            }
        } else {
            lemma_digits_value_nonneg(s);
            let f = spec_fuzzy_id_from_str(s, n).unwrap();
            assert(f.leading_zeros as nat == s.len() - 1);
            assert(decimal(0) =~= seq!['0']) by {
                assert(digit_char(0) == '0');
            }
            assert(zeros((s.len() - 1) as nat) + seq!['0'] =~= s);
        }
    }
}

} // verus!

verus! {

/// Each decimal digit takes one byte in UTF-8.
proof fn lemma_digits_one_byte_each(cs: Seq<char>)
    requires
        all_digits(cs),
    ensures
        vstd::utf8::encode_utf8(cs).len() == cs.len(),
    decreases cs.len(),
{
    if cs.len() > 0 {
        assert(is_digit(cs[0]));
        assert(all_digits(cs.drop_first())) by {
            assert forall|i: int| 0 <= i < cs.drop_first().len() implies is_digit(#[trigger] cs.drop_first()[i]) by {
                assert(cs.drop_first()[i] == cs[i + 1]);
            }
        }
        lemma_digits_one_byte_each(cs.drop_first());
        assert(vstd::utf8::has_width_1_encoding(cs[0] as u32));
    }
}

/// The digits of `a` followed by those of `b` give the number of `a`
/// shifted past `b`, plus that of `b`.
proof fn lemma_digits_value_concat(a: Seq<char>, b: Seq<char>)
    ensures
        digits_value(a + b) == digits_value(a) * pow10(b.len()) + digits_value(b),
    decreases b.len(),
{
    if b.len() == 0 {
        assert(a + b =~= a);
        assert(digits_value(b) == 0);
        assert(pow10(0) == 1);
        assert(digits_value(a) * 1 == digits_value(a));
    } else {
        let init = b.drop_last();
        lemma_digits_value_concat(a, init);
        assert((a + b).drop_last() =~= a + init);
        assert((a + b).last() == b.last());
        let x = digits_value(a);
        let p = pow10(init.len());
        let y = digits_value(init);
        let g = digit_value(b.last());
        assert(digits_value(a + init) == x * p + y);
        assert(digits_value(a + b) == digits_value(a + init) * 10 + g);
        assert(digits_value(b) == y * 10 + g);
        assert(pow10(b.len()) == 10 * p);
        assert((x * p + y) * 10 + g == x * (10 * p) + (y * 10 + g)) by (nonlinear_arith);
    }
}

/// A run of digits gives a number below ten to the power of its length.
proof fn lemma_digits_value_below(b: Seq<char>)
    requires
        all_digits(b),
    ensures
        0 <= digits_value(b) < pow10(b.len()),
    decreases b.len(),
{
    if b.len() > 0 {
        let init = b.drop_last();
        assert(all_digits(init)) by {
            assert forall|i: int| 0 <= i < init.len() implies is_digit(#[trigger] init[i]) by {
                assert(init[i] == b[i]);
            }
        }
        lemma_digits_value_below(init);
        assert(is_digit(b[b.len() - 1]));
        let y = digits_value(init);
        let p = pow10(init.len());
        let g = digit_value(b.last());
        assert(0 <= y * 10 + g < 10 * p) by (nonlinear_arith)
            requires
                0 <= y < p,
                0 <= g < 10,
        ;
    }
}

/// A positive number has as many decimal digits as its decimal form.
proof fn lemma_decimal_len_digits(n: nat)
    ensures
        decimal(n).len() == (if n == 0 { 1 } else { num_digits(n) }),
    decreases n,
{
    if n >= 10 {
        lemma_decimal_len_digits(n / 10);
        assert(n / 10 > 0);
    } else if n > 0 {
        assert(n / 10 == 0);
        assert(num_digits(n) == 1 + num_digits(0));
    }
}

/// What is left of the decimal form of `id` once `left` digits are chopped
/// off its left and `right` off its right.
pub open spec fn chopped_digits(id: u64, left: nat, right: nat) -> Seq<char> {
    let t = decimal(id as nat);
    t.subrange(left as int, t.len() - right)
}

/// An ID still matches itself with digits chopped off either end: reading
/// what is left of its decimal form as a typed ID, and comparing with the
/// numbers of chopped digits as wildcards, gives back the ID. Left out is
/// `u64::MAX` with digits chopped off its right only, which the saturating
/// cut on the left loses.
pub proof fn lemma_chopped_id_matches(id: u64, left: u32, right: u32)
    requires
        left + right < num_digits(id as nat),
        id < u64::MAX || left > 0 || right == 0,
    ensures
        ({
            let piece = chopped_digits(id, left as nat, right as nat);
            match spec_fuzzy_id_from_str(piece, vstd::utf8::encode_utf8(piece).len()) {
                Some(f) => fuzzy_match_in_range(wildcard_match(f, (left, right))) && spec_fuzzy_eq(
                    wildcard_match(f, (left, right)),
                    id,
                ),
                None => false,
            }
        }),
{
    let t = decimal(id as nat);
    crate::text::lemma_decimal_roundtrip(id as nat);
    lemma_decimal_len_digits(id as nat);
    let d = t.len();
    assert(d <= 20) by {
        lemma_pow10_19();
        lemma_num_digits_bound(id as nat, 20);
    }
    let i = left as int;
    let j = right as int;
    let a = t.subrange(0, i);
    let p = t.subrange(i, d - j);
    let b = t.subrange(d - j, d as int);
    assert(p == chopped_digits(id, left as nat, right as nat));
    assert(all_digits(a) && all_digits(p) && all_digits(b)) by {
        assert forall|k: int| 0 <= k < p.len() implies is_digit(#[trigger] p[k]) by {
            assert(p[k] == t[i + k]);
        }
        assert forall|k: int| 0 <= k < a.len() implies is_digit(#[trigger] a[k]) by {
            assert(a[k] == t[k]);
        }
        assert forall|k: int| 0 <= k < b.len() implies is_digit(#[trigger] b[k]) by {
            assert(b[k] == t[d - j + k]);
        }
    }
    assert(p + b =~= t.subrange(i, d as int));
    assert(a + (p + b) =~= t);
    lemma_digits_value_concat(a, p + b);
    lemma_digits_value_concat(p, b);
    lemma_digits_value_below(b);
    assert forall|k: int| 0 <= k < (p + b).len() implies is_digit(#[trigger] (p + b)[k]) by {
        assert((p + b)[k] == t[i + k]);
    }
    lemma_digits_value_below(p + b);
    lemma_digits_value_below(p);
    lemma_digits_value_nonneg(a);
    let va = digits_value(a);
    let vp = digits_value(p);
    let vb = digits_value(b);
    let vpb = digits_value(p + b);
    assert(id == va * pow10((d - i) as nat) + vpb);
    assert(vpb == vp * pow10(j as nat) + vb);
    lemma_pow10_positive(j as nat);
    lemma_pow10_positive((d - i) as nat);
    lemma_fundamental_div_mod_converse(vpb, pow10(j as nat) as int, vp, vb);
    lemma_fundamental_div_mod_converse(id as int, pow10((d - i) as nat) as int, va, vpb);
    assert(vp <= id) by {
        lemma_digits_value_nonneg(p);
        let pj = pow10(j as nat) as int;
        let q = pow10((d - i) as nat) as int;
        assert(vp <= vpb) by (nonlinear_arith)
            requires
                vpb == vp * pj + vb,
                vp >= 0,
                vb >= 0,
                pj >= 1,
        ;
        assert(vpb <= id) by (nonlinear_arith)
            requires
                id == va * q + vpb,
                va >= 0,
                q >= 1,
        ;
    }
    lemma_digits_one_byte_each(p);
    lemma_fuzzy_id_roundtrip(p);
    let f = spec_fuzzy_id_from_str(p, vstd::utf8::encode_utf8(p).len()).unwrap();
    let z = f.leading_zeros as nat;
    let v = f.no_leading_zeros_id as nat;
    assert(zeros(z) + decimal(v) == p);
    assert(p.skip(z as int) =~= decimal(v));
    lemma_zeros_value(p, z as int);
    crate::text::lemma_decimal_roundtrip(v);
    assert(v == vp);
    lemma_decimal_len_digits(v);
    let m = wildcard_match(f, (left, right));
    assert(fuzzy_width(m) == d);
    if left + right > 0 {
        if d - i <= 19 {
            assert(sat_pow10((d - i) as nat) == pow10((d - i) as nat));
        } else {
            assert(i == 0 && d == 20);
            assert(a.len() == 0);
            assert(va == 0);
            assert(id == vpb);
            assert(id < u64::MAX);
            lemma_small_mod(id as nat, u64::MAX as nat);
        }
    }
}

} // verus!
