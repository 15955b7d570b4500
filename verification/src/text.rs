use vstd::prelude::*;
use vstd::slice::slice_subrange;
use vstd::string::StrSliceExecFns;

verus! {

/// The bytes of a word of ASCII characters.
pub open spec fn bytes_of(word: Seq<char>) -> Seq<u8> {
    Seq::new(word.len(), |i: int| word[i] as u8)
}

/// A space, a tab, a line feed, a vertical tab, a form feed or a carriage
/// return.
pub open spec fn is_space(b: u8) -> bool {
    b == 0x20 || 0x09 <= b <= 0x0d
}

/// `s` without the bytes at its start and at its end that `edge` holds of.
pub open spec fn without_edges(s: Seq<u8>, edge: spec_fn(u8) -> bool) -> Seq<u8>
    decreases s.len(),
{
    if s.len() > 0 && edge(s.first()) {
        without_edges(s.drop_first(), edge)
    } else if s.len() > 0 && edge(s.last()) {
        without_edges(s.drop_last(), edge)
    } else {
        s
    }
}

/// The test for white space.
pub open spec fn space_edge() -> spec_fn(u8) -> bool {
    |b: u8| is_space(b)
}

/// The test for the byte `b`.
pub open spec fn byte_edge(b: u8) -> spec_fn(u8) -> bool {
    |x: u8| x == b
}

/// `s` without the white space at its start and at its end.
pub open spec fn trimmed(s: Seq<u8>) -> Seq<u8> {
    without_edges(s, space_edge())
}

/// `s` without the bytes `b` at its start and at its end.
pub open spec fn stripped(s: Seq<u8>, b: u8) -> Seq<u8> {
    without_edges(s, byte_edge(b))
}

/// The place of the first `b` in `s`, or the length of `s` where it holds
/// none.
pub open spec fn first_index_of(s: Seq<u8>, b: u8) -> int
    decreases s.len(),
{
    if s.len() == 0 || s.first() == b {
        0
    } else {
        1 + first_index_of(s.drop_first(), b)
    }
}

/// The first `b` of `s` stands where none stands before it.
pub proof fn lemma_first_index_of(s: Seq<u8>, b: u8, k: int)
    requires
        0 <= k <= s.len(),
        forall|i: int| 0 <= i < k ==> s[i] != b,
        k == s.len() || s[k] == b,
    ensures
        first_index_of(s, b) == k,
    decreases s.len(),
{
    if k > 0 {
        lemma_first_index_of(s.drop_first(), b, k - 1);
    }
}

/// The place of the first `b` in `s`, or the length of `s`.
pub fn find_byte(s: &[u8], b: u8) -> (k: usize)
    ensures
        k == first_index_of(s@, b),
        k <= s.len(),
{
    let mut k: usize = 0;
    while k < s.len() && s[k] != b
        invariant
            k <= s.len(),
            forall|i: int| 0 <= i < k ==> s[i] != b,
        decreases s.len() - k,
    {
        k += 1;
    }
    proof {
        lemma_first_index_of(s@, b, k as int);
    }
    k
}

/// A stretch of `s` with nothing but edge bytes on both sides, and none at
/// its own ends, is `s` without its edges.
pub proof fn lemma_without_edges(s: Seq<u8>, edge: spec_fn(u8) -> bool, from: int, to: int)
    requires
        0 <= from <= to <= s.len(),
        forall|i: int| 0 <= i < from ==> edge(#[trigger] s[i]),
        forall|i: int| to <= i < s.len() ==> edge(#[trigger] s[i]),
        from < to ==> !edge(s[from]) && !edge(s[to - 1]),
    ensures
        from < to ==> without_edges(s, edge) == s.subrange(from, to),
        from == to ==> without_edges(s, edge).len() == 0,
    decreases s.len(),
{
    if s.len() > 0 && edge(s.first()) {
        let rest = s.drop_first();
        if from > 0 {
            assert forall|i: int| 0 <= i < from - 1 implies edge(#[trigger] rest[i]) by {
                assert(rest[i] == s[i + 1]);
            }
            assert forall|i: int| to - 1 <= i < rest.len() implies edge(#[trigger] rest[i]) by {
                assert(rest[i] == s[i + 1]);
            }
            lemma_without_edges(rest, edge, from - 1, to - 1);
            assert(rest.subrange(from - 1, to - 1) =~= s.subrange(from, to));
        } else {
            assert forall|i: int| 0 <= i < rest.len() implies edge(#[trigger] rest[i]) by {
                assert(rest[i] == s[i + 1]);
            }
            lemma_without_edges(rest, edge, 0, 0);
        }
    } else if s.len() > 0 && edge(s.last()) {
        let rest = s.drop_last();
        if to < s.len() {
            lemma_without_edges(rest, edge, from, to);
            assert(rest.subrange(from, to) =~= s.subrange(from, to));
        } else {
            assert(edge(s[0]));
        }
    } else {
        if s.len() > 0 {
            assert(from == 0);
            assert(to == s.len());
            assert(s.subrange(0, s.len() as int) =~= s);
        }
    }
}

/// `s` without the white space at its start and at its end.
pub fn trim(s: &[u8]) -> (t: &[u8])
    ensures
        t@ == trimmed(s@),
{
    let mut from: usize = 0;
    while from < s.len() && is_space_byte(s[from])
        invariant
            from <= s.len(),
            forall|i: int| 0 <= i < from ==> is_space(#[trigger] s[i]),
        decreases s.len() - from,
    {
        from += 1;
    }
    let mut to: usize = s.len();
    while to > from && is_space_byte(s[to - 1])
        invariant
            from <= to <= s.len(),
            forall|i: int| to <= i < s.len() ==> is_space(#[trigger] s[i]),
        decreases to,
    {
        to -= 1;
    }
    proof {
        lemma_without_edges(s@, space_edge(), from as int, to as int);
    }
    let t = slice_subrange(s, from, to);
    assert(from == to ==> t@ =~= trimmed(s@));
    t
}

/// `s` without the bytes `b` at its start and at its end.
pub fn strip(s: &[u8], b: u8) -> (t: &[u8])
    ensures
        t@ == stripped(s@, b),
{
    let mut from: usize = 0;
    while from < s.len() && s[from] == b
        invariant
            from <= s.len(),
            forall|i: int| 0 <= i < from ==> #[trigger] s[i] == b,
        decreases s.len() - from,
    {
        from += 1;
    }
    let mut to: usize = s.len();
    while to > from && s[to - 1] == b
        invariant
            from <= to <= s.len(),
            forall|i: int| to <= i < s.len() ==> #[trigger] s[i] == b,
        decreases to,
    {
        to -= 1;
    }
    proof {
        lemma_without_edges(s@, byte_edge(b), from as int, to as int);
    }
    let t = slice_subrange(s, from, to);
    assert(from == to ==> t@ =~= stripped(s@, b));
    t
}

/// Tells whether `b` is white space.
pub fn is_space_byte(b: u8) -> (r: bool)
    ensures
        r == is_space(b),
{
    b == 0x20 || (0x09 <= b && b <= 0x0d)
}

/// Tells whether `s` is the word `word`, byte for byte. No `s` is a word
/// that holds a character beyond ASCII.
pub fn is_word(s: &[u8], word: &str) -> (r: bool)
    ensures
        r == (word.is_ascii() && s@ == bytes_of(word@)),
{
    if !word.is_ascii() {
        return false;
    }
    let n: usize = word.unicode_len();
    if s.len() != n {
        return false;
    }
    let mut k: usize = 0;
    while k < n
        invariant
            k <= n,
            n == s.len(),
            n == word@.len(),
            word.is_ascii(),
            forall|i: int| 0 <= i < k ==> s[i] == #[trigger] bytes_of(word@)[i],
        decreases n - k,
    {
        if s[k] != word.get_ascii(k) {
            assert(s@[k as int] != bytes_of(word@)[k as int]);
            return false;
        }
        k += 1;
    }
    assert(s@ =~= bytes_of(word@));
    true
}

/// One of the digits `0` to `9`.
pub open spec fn is_digit(b: u8) -> bool {
    0x30 <= b <= 0x39
}

/// Every byte of `s` is a digit.
pub open spec fn all_digits(s: Seq<u8>) -> bool {
    forall|i: int| 0 <= i < s.len() ==> is_digit(#[trigger] s[i])
}

/// The number that the digits `s` write in base ten.
pub open spec fn digits_value(s: Seq<u8>) -> nat
    decreases s.len(),
{
    if s.len() == 0 {
        0
    } else {
        digits_value(s.drop_last()) * 10 + (s.last() - 0x30) as nat
    }
}

/// The number that `s` writes: digits, at least one, with or without a `+`
/// before them. `None` where `s` is not of that form, and where the number
/// is more than a `usize` holds.
pub open spec fn count_of(s: Seq<u8>) -> Option<usize> {
    let digits = if s.len() > 0 && s[0] == 0x2b {
        s.drop_first()
    } else {
        s
    };
    if digits.len() > 0 && all_digits(digits) && digits_value(digits) <= usize::MAX {
        Some(digits_value(digits) as usize)
    } else {
        None
    }
}

/// The value of a run of digits grows with each digit that follows.
pub proof fn lemma_digits_value_grows(s: Seq<u8>, k: int)
    requires
        0 <= k <= s.len(),
        all_digits(s),
    ensures
        digits_value(s.take(k)) <= digits_value(s),
    decreases s.len() - k,
{
    if k < s.len() {
        lemma_digits_value_grows(s, k + 1);
        assert(s.take(k + 1).drop_last() =~= s.take(k));
        assert(is_digit(s[k]));
    } else {
        assert(s.take(k) =~= s);
    }
}

/// The number that the digits `s` write, or `None` where a byte is not a
/// digit, and where the number is more than `limit`.
pub fn parse_digits(s: &[u8], limit: u64) -> (r: Option<u64>)
    ensures
        r == if all_digits(s@) && digits_value(s@) <= limit {
            Some(digits_value(s@) as u64)
        } else {
            None
        },
{
    let mut value: u64 = 0;
    let mut k: usize = 0;
    while k < s.len()
        invariant
            k <= s.len(),
            all_digits(s@.take(k as int)),
            value == digits_value(s@.take(k as int)),
            value <= limit,
        decreases s.len() - k,
    {
        let b: u8 = s[k];
        if !(0x30 <= b && b <= 0x39) {
            assert(!is_digit(s@[k as int]));
            return None;
        }
        let digit: u64 = (b - 0x30) as u64;
        proof {
            assert(s@.take(k + 1).drop_last() =~= s@.take(k as int));
            assert(s@.take(k + 1).last() == b);
            assert forall|i: int| 0 <= i < k + 1 implies is_digit(#[trigger] s@.take(k + 1)[i]) by {
                if i < k {
                    assert(s@.take(k as int)[i] == s@.take(k + 1)[i]);
                }
            }
        }
        if limit < digit || value > (limit - digit) / 10 {
            proof {
                if all_digits(s@) {
                    lemma_digits_value_grows(s@, k + 1);
                }
            }
            return None;
        }
        value = value * 10 + digit;
        k += 1;
    }
    assert(s@.take(s.len() as int) =~= s@);
    Some(value)
}

/// The number that `s` writes: see [`count_of`].
pub fn parse_count(s: &[u8]) -> (r: Option<usize>)
    ensures
        r == count_of(s@),
{
    let digits: &[u8] = if s.len() > 0 && s[0] == 0x2b {
        let rest = slice_subrange(s, 1, s.len());
        assert(rest@ =~= s@.drop_first());
        rest
    } else {
        s
    };
    if digits.len() == 0 {
        return None;
    }
    match parse_digits(digits, usize::MAX as u64) {
        Some(value) => Some(value as usize),
        None => None,
    }
}


/// Every byte of `s` is a digit.
pub fn are_digits(s: &[u8]) -> (r: bool)
    ensures
        r == all_digits(s@),
{
    let mut k: usize = 0;
    while k < s.len()
        invariant
            k <= s.len(),
            forall|i: int| 0 <= i < k ==> is_digit(#[trigger] s[i]),
        decreases s.len() - k,
    {
        if !(0x30 <= s[k] && s[k] <= 0x39) {
            assert(!is_digit(s@[k as int]));
            return false;
        }
        k += 1;
    }
    true
}

/// `k` zeros.
pub open spec fn zeros(k: nat) -> Seq<u8> {
    Seq::new(k, |i: int| 0x30u8)
}

/// The first `places` digits of the endless row that starts with `digits`
/// and goes on with zeros.
pub open spec fn first_places(digits: Seq<u8>, places: int) -> Seq<u8> {
    if places <= 0 {
        Seq::<u8>::empty()
    } else if places <= digits.len() {
        digits.take(places)
    } else {
        digits + zeros((places - digits.len()) as nat)
    }
}

/// `v` with `k` zeros written behind it.
pub open spec fn times_ten(v: nat, k: nat) -> nat
    decreases k,
{
    if k == 0 {
        v
    } else {
        10 * times_ten(v, (k - 1) as nat)
    }
}

/// The first place of `s` that holds an `e` or an `E`, or the length of `s`
/// where it holds neither.
pub open spec fn exponent_mark(s: Seq<u8>) -> int {
    let small = first_index_of(s, 0x65);
    let large = first_index_of(s, 0x45);
    if small <= large {
        small
    } else {
        large
    }
}

/// The power of ten that `tail` writes behind the mark of an exponent:
/// digits, at least one, with or without a sign before them. `None` where
/// `tail` is not of that form.
pub open spec fn exponent_of(tail: Seq<u8>) -> Option<int> {
    let signed = tail.len() > 0 && (tail[0] == 0x2b || tail[0] == 0x2d);
    let digits = if signed {
        tail.drop_first()
    } else {
        tail
    };
    if digits.len() > 0 && all_digits(digits) {
        if tail[0] == 0x2d {
            Some(-(digits_value(digits) as int))
        } else {
            Some(digits_value(digits) as int)
        }
    } else {
        None
    }
}

/// The number of billionths that `mantissa` writes where it is to be
/// taken times ten to the `power`: digits with or without a decimal point
/// among them, at least one digit. What lies beyond the ninth place behind
/// the point is cut off. `None` where `mantissa` is not of that form, and
/// where the number is more than an `i64` holds.
pub open spec fn mantissa_billionths(mantissa: Seq<u8>, power: int) -> Option<nat> {
    let point = first_index_of(mantissa, 0x2e);
    let pointed = 0 <= point < mantissa.len();
    let whole = if pointed {
        mantissa.take(point)
    } else {
        mantissa
    };
    let fraction = if pointed {
        mantissa.skip(point + 1)
    } else {
        Seq::<u8>::empty()
    };
    let digits = whole + fraction;
    let magnitude = digits_value(first_places(digits, whole.len() + power + 9));
    if digits.len() > 0 && all_digits(digits) && magnitude <= i64::MAX {
        Some(magnitude)
    } else {
        None
    }
}

/// The number of billionths that `body` writes: a mantissa, see
/// [`mantissa_billionths`], with or without an exponent behind it, see
/// [`exponent_of`].
pub open spec fn unsigned_billionths(body: Seq<u8>) -> Option<nat> {
    let mark = exponent_mark(body);
    if 0 <= mark < body.len() {
        match exponent_of(body.skip(mark + 1)) {
            Some(power) => mantissa_billionths(body.take(mark), power),
            None => None,
        }
    } else {
        mantissa_billionths(body, 0)
    }
}

/// The number of billionths that `s` writes as a decimal number: digits
/// with or without a decimal point among them, at least one digit, with or
/// without a sign before them and with or without an exponent behind them.
/// What lies beyond the ninth place behind the point is cut off. `None`
/// where `s` is not of that form, and where the number is more than an
/// `i64` holds.
pub open spec fn billionths_of(s: Seq<u8>) -> Option<i64> {
    let signed = s.len() > 0 && (s[0] == 0x2b || s[0] == 0x2d);
    let body = if signed {
        s.drop_first()
    } else {
        s
    };
    match unsigned_billionths(body) {
        Some(magnitude) => Some(
            if s[0] == 0x2d {
                (-magnitude) as i64
            } else {
                magnitude as i64
            },
        ),
        None => None,
    }
}

/// The largest power of ten that is told from those beyond it.
pub const EXPONENT_CAP: u128 = 0x10_0000_0000_0000_0000_0000_0000;

/// `power` held within the cap on both sides.
pub open spec fn capped(power: int) -> int {
    if power > EXPONENT_CAP {
        EXPONENT_CAP as int
    } else if power < -EXPONENT_CAP {
        -(EXPONENT_CAP as int)
    } else {
        power
    }
}

/// Zeros behind a number make it no smaller, and more zeros no smaller
/// than fewer.
pub proof fn lemma_times_ten_grows(v: nat, k: nat, l: nat)
    requires
        k <= l,
    ensures
        v <= times_ten(v, k) <= times_ten(v, l),
        v >= 1 ==> times_ten(v, l) >= l + 1,
        v == 0 ==> times_ten(v, l) == 0,
    decreases l,
{
    if l > 0 {
        if k < l {
            lemma_times_ten_grows(v, k, (l - 1) as nat);
        } else {
            lemma_times_ten_grows(v, (k - 1) as nat, (l - 1) as nat);
        }
    }
}

/// Digits with `k` zeros behind them write the number of the digits with
/// `k` zeros behind it.
pub proof fn lemma_zeros_behind(digits: Seq<u8>, k: nat)
    ensures
        digits_value(digits + zeros(k)) == times_ten(digits_value(digits), k),
    decreases k,
{
    if k == 0 {
        assert(digits + zeros(0) =~= digits);
    } else {
        lemma_zeros_behind(digits, (k - 1) as nat);
        assert((digits + zeros(k)).drop_last() =~= digits + zeros((k - 1) as nat));
        assert((digits + zeros(k)).last() == 0x30u8);
    }
}

/// The number that the digits `s` write, held at the cap.
fn parse_capped(s: &[u8]) -> (r: u128)
    requires
        all_digits(s@),
    ensures
        r == if digits_value(s@) < EXPONENT_CAP {
            digits_value(s@)
        } else {
            EXPONENT_CAP as nat
        },
{
    let mut value: u128 = 0;
    let mut k: usize = 0;
    while k < s.len()
        invariant
            k <= s.len(),
            all_digits(s@),
            value <= EXPONENT_CAP,
            value == if digits_value(s@.take(k as int)) < EXPONENT_CAP {
                digits_value(s@.take(k as int))
            } else {
                EXPONENT_CAP as nat
            },
        decreases s.len() - k,
    {
        let b: u8 = s[k];
        assert(is_digit(s@[k as int]));
        proof {
            assert(s@.take(k + 1).drop_last() =~= s@.take(k as int));
            assert(s@.take(k + 1).last() == b);
        }
        let next: u128 = value * 10 + (b - 0x30) as u128;
        value = if next < EXPONENT_CAP {
            next
        } else {
            EXPONENT_CAP
        };
        k += 1;
    }
    assert(s@.take(s.len() as int) =~= s@);
    value
}

/// The power of ten that `tail` writes behind the mark of an exponent, held
/// within the cap: see [`exponent_of`].
fn parse_exponent(tail: &[u8]) -> (r: Option<i128>)
    ensures
        match exponent_of(tail@) {
            Some(power) => r == Some(capped(power) as i128),
            None => r is None,
        },
{
    let signed: bool = tail.len() > 0 && (tail[0] == 0x2b || tail[0] == 0x2d);
    let negative: bool = tail.len() > 0 && tail[0] == 0x2d;
    let digits: &[u8] = if signed {
        let rest = slice_subrange(tail, 1, tail.len());
        assert(rest@ =~= tail@.drop_first());
        rest
    } else {
        tail
    };
    if digits.len() == 0 || !are_digits(digits) {
        return None;
    }
    let size: u128 = parse_capped(digits);
    if negative {
        Some(-(size as i128))
    } else {
        Some(size as i128)
    }
}

/// The number that the first `head` of the digits `whole` and `fraction`
/// write, one after the other, or `None` where it is more than an `i64`
/// holds.
fn read_head(whole: &[u8], fraction: &[u8], head: usize) -> (r: Option<u64>)
    requires
        all_digits(whole@),
        all_digits(fraction@),
        head <= whole.len() + fraction.len(),
    ensures
        r == if digits_value((whole@ + fraction@).take(head as int)) <= i64::MAX {
            Some(digits_value((whole@ + fraction@).take(head as int)) as u64)
        } else {
            None
        },
{
    let ghost digits = whole@ + fraction@;
    let ghost read = digits.take(head as int);
    assert forall|i: int| 0 <= i < read.len() implies is_digit(#[trigger] read[i]) by {
        if i < whole.len() {
            assert(read[i] == whole@[i]);
        } else {
            assert(read[i] == fraction@[i - whole.len()]);
        }
    }
    let mut value: u64 = 0;
    let mut k: usize = 0;
    while k < head
        invariant
            k <= head,
            head <= whole.len() + fraction.len(),
            digits == whole@ + fraction@,
            read == digits.take(head as int),
            all_digits(read),
            value == digits_value(read.take(k as int)),
            value <= i64::MAX,
        decreases head - k,
    {
        let b: u8 = if k < whole.len() {
            whole[k]
        } else {
            fraction[k - whole.len()]
        };
        assert(b == read[k as int]);
        assert(is_digit(read[k as int]));
        let digit: u64 = (b - 0x30) as u64;
        proof {
            assert(read.take(k + 1).drop_last() =~= read.take(k as int));
            assert(read.take(k + 1).last() == b);
        }
        if value > (0x7fff_ffff_ffff_ffff - digit) / 10 {
            proof {
                lemma_digits_value_grows(read, k + 1);
            }
            return None;
        }
        value = value * 10 + digit;
        k += 1;
    }
    assert(read.take(head as int) =~= read);
    Some(value)
}

/// `value` with `k` zeros written behind it, or `None` where that is more
/// than an `i64` holds.
fn pad_zeros(value: u64, k: u128) -> (r: Option<u64>)
    requires
        value <= i64::MAX,
    ensures
        r == if times_ten(value as nat, k as nat) <= i64::MAX {
            Some(times_ten(value as nat, k as nat) as u64)
        } else {
            None
        },
{
    if value == 0 {
        proof {
            lemma_times_ten_grows(0, 0, k as nat);
        }
        return Some(0);
    }
    let mut padded: u64 = value;
    let mut j: u128 = 0;
    while j < k
        invariant
            j <= k,
            value >= 1,
            padded == times_ten(value as nat, j as nat),
            padded <= i64::MAX,
        decreases k - j,
    {
        if padded > 0x7fff_ffff_ffff_ffff / 10 {
            proof {
                lemma_times_ten_grows(value as nat, (j + 1) as nat, k as nat);
            }
            return None;
        }
        padded = padded * 10;
        j += 1;
    }
    Some(padded)
}

/// The number that the digits `whole` and `fraction` write, one after the
/// other, cut or filled with zeros to `places` digits; `places` is held
/// within the cap. `None` where the number is more than an `i64` holds.
fn read_places(whole: &[u8], fraction: &[u8], power: i128, Ghost(true_power): Ghost<int>) -> (r:
    Option<u64>)
    requires
        all_digits(whole@),
        all_digits(fraction@),
        whole.len() + fraction.len() <= usize::MAX,
        power == capped(true_power),
    ensures
        r == if digits_value(first_places(whole@ + fraction@, whole.len() + true_power + 9))
            <= i64::MAX {
            Some(
                digits_value(
                    first_places(whole@ + fraction@, whole.len() + true_power + 9),
                ) as u64,
            )
        } else {
            None
        },
{
    let ghost digits = whole@ + fraction@;
    let ghost true_places = whole.len() + true_power + 9;
    let length: usize = whole.len() + fraction.len();
    let places: i128 = whole.len() as i128 + power + 9;
    if places <= 0 {
        assert(true_places <= 0);
        return Some(0);
    }
    if places <= length as i128 {
        assert(true_places == places);
        return read_head(whole, fraction, places as usize);
    }
    assert(digits.take(length as int) =~= digits);
    let ghost true_zeros = (true_places - length) as nat;
    let zeros_behind: u128 = (places - length as i128) as u128;
    proof {
        lemma_zeros_behind(digits, true_zeros);
        lemma_times_ten_grows(digits_value(digits), zeros_behind as nat, true_zeros);
        lemma_times_ten_grows(digits_value(digits), 0, zeros_behind as nat);
    }
    match read_head(whole, fraction, length) {
        Some(value) => pad_zeros(value, zeros_behind),
        None => None,
    }
}

/// The number of billionths that `mantissa` writes times ten to the power
/// of which `power` is what the cap leaves: see [`mantissa_billionths`].
fn parse_mantissa(mantissa: &[u8], power: i128, Ghost(true_power): Ghost<int>) -> (r: Option<
    u64,
>)
    requires
        power == capped(true_power),
    ensures
        match mantissa_billionths(mantissa@, true_power) {
            Some(magnitude) => r == Some(magnitude as u64),
            None => r is None,
        },
{
    let point: usize = find_byte(mantissa, 0x2e);
    let whole: &[u8] = slice_subrange(mantissa, 0, point);
    assert(whole@ =~= mantissa@.take(point as int));
    assert(point == mantissa.len() ==> whole@ =~= mantissa@);
    let fraction: &[u8] = if point < mantissa.len() {
        let rest = slice_subrange(mantissa, point + 1, mantissa.len());
        assert(rest@ =~= mantissa@.skip(point + 1));
        rest
    } else {
        let rest = slice_subrange(mantissa, point, point);
        assert(rest@ =~= Seq::<u8>::empty());
        rest
    };
    if whole.len() + fraction.len() == 0 {
        return None;
    }
    let ghost digits = whole@ + fraction@;
    if !are_digits(whole) || !are_digits(fraction) {
        proof {
            if all_digits(digits) {
                assert forall|i: int| 0 <= i < whole@.len() implies is_digit(
                    #[trigger] whole@[i],
                ) by {
                    assert(digits[i] == whole@[i]);
                }
                assert forall|i: int| 0 <= i < fraction@.len() implies is_digit(
                    #[trigger] fraction@[i],
                ) by {
                    assert(digits[i + whole@.len()] == fraction@[i]);
                }
            }
        }
        return None;
    }
    proof {
        assert forall|i: int| 0 <= i < digits.len() implies is_digit(#[trigger] digits[i]) by {
            if i < whole@.len() {
                assert(digits[i] == whole@[i]);
            } else {
                assert(digits[i] == fraction@[i - whole@.len()]);
            }
        }
    }
    read_places(whole, fraction, power, Ghost(true_power))
}

/// The number of billionths that `body` writes: see
/// [`unsigned_billionths`].
fn parse_unsigned(body: &[u8]) -> (r: Option<u64>)
    ensures
        match unsigned_billionths(body@) {
            Some(magnitude) => r == Some(magnitude as u64),
            None => r is None,
        },
{
    let small: usize = find_byte(body, 0x65);
    let large: usize = find_byte(body, 0x45);
    let mark: usize = if small <= large {
        small
    } else {
        large
    };
    if mark >= body.len() {
        return parse_mantissa(body, 0, Ghost(0));
    }
    let tail: &[u8] = slice_subrange(body, mark + 1, body.len());
    assert(tail@ =~= body@.skip(mark + 1));
    let mantissa: &[u8] = slice_subrange(body, 0, mark);
    assert(mantissa@ =~= body@.take(mark as int));
    match parse_exponent(tail) {
        Some(power) => parse_mantissa(mantissa, power, Ghost(exponent_of(tail@)->Some_0)),
        None => None,
    }
}

/// The number of billionths that `s` writes: see [`billionths_of`].
pub fn parse_billionths(s: &[u8]) -> (r: Option<i64>)
    ensures
        r == billionths_of(s@),
{
    let signed: bool = s.len() > 0 && (s[0] == 0x2b || s[0] == 0x2d);
    let negative: bool = s.len() > 0 && s[0] == 0x2d;
    let body: &[u8] = if signed {
        let rest = slice_subrange(s, 1, s.len());
        assert(rest@ =~= s@.drop_first());
        rest
    } else {
        s
    };
    match parse_unsigned(body) {
        Some(magnitude) => {
            if negative {
                Some(-(magnitude as i64))
            } else {
                Some(magnitude as i64)
            }
        },
        None => None,
    }
}

} // verus!
