//! Duration/count interval specifications and benchmark configuration.

use vstd::prelude::*;
use crate::ext;
use crate::FloodError;

verus! {

/// A span of wall-clock time, split into whole seconds and a sub-second
/// remainder in nanoseconds.
#[derive(Debug, Clone, Copy, PartialEq, Eq, Structural)]
pub struct Dur {
    pub secs: u64,
    pub nanos: u32,
}

impl Dur {
    /// A well-formed duration keeps the nanosecond part below one second.
    pub open spec fn wf(&self) -> bool {
        self.nanos < 1_000_000_000
    }

    /// The whole span expressed in nanoseconds.
    pub open spec fn total_ns(&self) -> int {
        self.secs * 1_000_000_000 + self.nanos
    }

    /// True iff the duration is zero.
    pub open spec fn spec_is_zero(&self) -> bool {
        self.secs == 0 && self.nanos == 0
    }

    /// True iff the duration is zero.
    pub fn is_zero(&self) -> (r: bool)
        ensures
            r == self.spec_is_zero(),
    {
        self.secs == 0 && self.nanos == 0
    }
}

/// Controls how long a benchmark phase runs: a fixed number of cycles, a
/// fixed wall-clock duration, or no bound at all. The same type also
/// describes the sampling period.
#[derive(Debug, Clone, Copy, PartialEq, Eq, Structural)]
pub enum Interval {
    Count(u64),
    Time(Dur),
    Unbounded,
}

/// True for the decimal digits '0' through '9'.
pub open spec fn is_digit(c: char) -> bool {
    '0' <= c && c <= '9'
}

/// The numeric value of a decimal digit character.
pub open spec fn digit_val(c: char) -> nat {
    ((c as int) - ('0' as int)) as nat
}

/// True iff every character of `s` is a decimal digit.
pub open spec fn all_digits(s: Seq<char>) -> bool {
    forall|i: int| 0 <= i < s.len() ==> is_digit(#[trigger] s[i])
}

/// The value of a sequence of decimal digits, most significant first.
pub open spec fn dec_val(s: Seq<char>) -> nat
    decreases s.len(),
{
    if s.len() == 0 {
        0
    } else {
        dec_val(s.drop_last()) * 10 + digit_val(s.last())
    }
}

/// `s` without one leading '+' sign, as the standard unsigned integer
/// parser accepts.
pub open spec fn strip_plus(s: Seq<char>) -> Seq<char> {
    if s.len() > 0 && s[0] == '+' {
        s.subrange(1, s.len() as int)
    } else {
        s
    }
}

/// True iff `s` is a decimal representation of an unsigned 64-bit integer:
/// an optional '+' sign, then at least one digit, with a value that fits.
pub open spec fn is_u64_decimal(s: Seq<char>) -> bool {
    let t = strip_plus(s);
    t.len() > 0 && all_digits(t) && dec_val(t) <= u64::MAX
}

/// The value of such a representation.
pub open spec fn u64_decimal_val(s: Seq<char>) -> nat {
    dec_val(strip_plus(s))
}

/// Along an all-digit sequence, the value of a prefix never exceeds the
/// value of the whole.
proof fn lemma_dec_val_prefix_le(s: Seq<char>, i: int)
    requires
        0 <= i <= s.len(),
    ensures
        dec_val(s.subrange(0, i)) <= dec_val(s),
    decreases s.len() - i,
{
    if i < s.len() {
        lemma_dec_val_prefix_le(s, i + 1);
        let p = s.subrange(0, i);
        let q = s.subrange(0, i + 1);
        assert(q.drop_last() =~= p);
        assert(dec_val(q) == dec_val(p) * 10 + digit_val(q.last()));
        assert(dec_val(p) <= dec_val(p) * 10) by (nonlinear_arith);
    } else {
        assert(s.subrange(0, i) =~= s);
    }
}

/// Parses a decimal unsigned 64-bit integer exactly as the standard
/// library's string-to-`u64` conversion does: an optional leading '+',
/// then one or more digits, rejecting anything else and values that
/// do not fit.
pub fn parse_u64_decimal(s: &str) -> (r: Option<u64>)
    ensures
        is_u64_decimal(s@) ==> r == Some(u64_decimal_val(s@) as u64),
        !is_u64_decimal(s@) ==> r is None,
{
    let n = s.unicode_len();
    let mut i: usize = 0;
    if n > 0 && s.get_char(0) == '+' {
        i = 1;
    }
    let ghost start = i as int;
    let ghost t = strip_plus(s@);
    proof {
        assert(t =~= s@.subrange(start, n as int));
    }
    if i == n {
        // no digits at all
        return None;
    }
    let mut acc: u64 = 0;
    while i < n
        invariant
            start <= i <= n,
            n == s@.len(),
            t == strip_plus(s@),
            t == s@.subrange(start, n as int),
            start == (if s@.len() > 0 && s@[0] == '+' { 1int } else { 0int }),
            all_digits(s@.subrange(start, i as int)),
            acc == dec_val(s@.subrange(start, i as int)),
        decreases n - i,
    {
        let c = s.get_char(i);
        let cv = c as u32;
        if cv < 48 || cv > 57 {
            proof {
                assert(t[i - start] == s@[i as int]);
                assert(!is_digit(t[i - start]));
            }
            return None;
        }
        let d = (cv - 48) as u64;
        let ghost p = s@.subrange(start, i as int);
        let ghost q = s@.subrange(start, i + 1);
        proof {
            assert(q.drop_last() =~= p);
            assert(q.last() == s@[i as int]);
            assert(dec_val(q) == dec_val(p) * 10 + digit_val(s@[i as int]));
        }
        if acc > (u64::MAX - d) / 10 {
            // the value no longer fits in 64 bits
            proof {
                assert(dec_val(q) > u64::MAX) by (nonlinear_arith)
                    requires
                        dec_val(q) == dec_val(p) * 10 + digit_val(s@[i as int]),
                        acc == dec_val(p),
                        d == digit_val(s@[i as int]),
                        d <= 9,
                        acc > (u64::MAX - d) / 10,
                ;
                if is_u64_decimal(s@) {
                    assert(all_digits(t));
                    assert(dec_val(t) <= u64::MAX);
                    lemma_dec_val_prefix_le(t, i + 1 - start);
                    assert(t.subrange(0, i + 1 - start) =~= q);
                    assert(dec_val(q) <= dec_val(t));
                    assert(false);
                }
            }
            return None;
        }
        proof {
            assert(acc * 10 + d <= u64::MAX) by (nonlinear_arith)
                requires
                    d <= 9,
                    acc <= (u64::MAX - d) / 10,
            ;
        }
        acc = acc * 10 + d;
        i = i + 1;
    }
    proof {
        assert(s@.subrange(start, i as int) =~= t);
    }
    Some(acc)
}

impl Interval {
    /// Parses an interval from a human string: a bare unsigned integer is a
    /// cycle count; otherwise a value with a time unit (such as "60s") is a
    /// wall-clock duration; anything else is rejected.
    pub fn parse(s: &str) -> (r: Result<Interval, String>)
        ensures
            is_u64_decimal(s@) ==> r == Ok::<Interval, String>(
                Interval::Count(u64_decimal_val(s@) as u64),
            ),
            !is_u64_decimal(s@) ==> (ext::parsed_duration(s@) matches Some(d) ==> r == Ok::<
                Interval,
                String,
            >(Interval::Time(Dur { secs: d.0, nanos: d.1 }))),
            !is_u64_decimal(s@) && ext::parsed_duration(s@) is None ==> (r matches Err(e) && e@
                == "Required integer number of cycles or time duration"@),
            r matches Ok(i) ==> (i matches Interval::Time(d) ==> d.wf()),
    {
        if let Some(n) = parse_u64_decimal(s) {
            Ok(Interval::Count(n))
        } else if let Some(d) = ext::parse_duration_str(s) {
            Ok(Interval::Time(d))
        } else {
            Err(String::from_str("Required integer number of cycles or time duration"))
        }
    }

    /// False exactly for an unbounded interval, a zero cycle count, and a
    /// zero-length duration.
    pub fn is_not_zero(&self) -> (r: bool)
        ensures
            r == !(self is Unbounded || self == Interval::Count(0) || (self matches Interval::Time(
                d,
            ) && d.spec_is_zero())),
    {
        match self {
            Interval::Count(cnt) => *cnt > 0,
            Interval::Time(d) => !d.is_zero(),
            Interval::Unbounded => false,
        }
    }

    /// False only for an unbounded interval.
    pub fn is_bounded(&self) -> (r: bool)
        ensures
            r == !(self is Unbounded),
    {
        !matches!(self, Interval::Unbounded)
    }

    /// The cycle count, where the interval is one.
    pub fn count(&self) -> (r: Option<u64>)
        ensures
            r == (match self {
                Interval::Count(c) => Some(*c),
                _ => None::<u64>,
            }),
    {
        if let Interval::Count(c) = self {
            Some(*c)
        } else {
            None
        }
    }

    /// The scheduler's stopping predicate: true once the given number of
    /// completed cycles and the elapsed wall-clock time exhaust this
    /// interval. An unbounded interval is never exhausted.
    pub fn bound_reached(&self, cycles: u64, elapsed: &Dur) -> (r: bool)
        requires
            elapsed.wf(),
            self matches Interval::Time(d) ==> d.wf(),
        ensures
            r == (match self {
                Interval::Count(c) => cycles >= *c,
                Interval::Time(d) => elapsed.total_ns() >= d.total_ns(),
                Interval::Unbounded => false,
            }),
    {
        match self {
            Interval::Count(c) => cycles >= *c,
            Interval::Time(d) => (elapsed.secs > d.secs) || (elapsed.secs == d.secs
                && elapsed.nanos >= d.nanos),
            Interval::Unbounded => false,
        }
    }
}

/// True for the hexadecimal digit characters, either case.
pub open spec fn is_hex_digit(c: char) -> bool {
    ('0' <= c && c <= '9') || ('a' <= c && c <= 'f') || ('A' <= c && c <= 'F')
}

/// The numeric value of a hexadecimal digit character.
pub open spec fn hex_digit_val(c: char) -> nat {
    if '0' <= c && c <= '9' {
        ((c as int) - ('0' as int)) as nat
    } else if 'a' <= c && c <= 'f' {
        ((c as int) - ('a' as int) + 10) as nat
    } else {
        ((c as int) - ('A' as int) + 10) as nat
    }
}

/// True iff every character of `s` is a hexadecimal digit.
pub open spec fn all_hex_digits(s: Seq<char>) -> bool {
    forall|i: int| 0 <= i < s.len() ==> is_hex_digit(#[trigger] s[i])
}

/// The value of a sequence of hexadecimal digits, most significant first.
pub open spec fn hex_val(s: Seq<char>) -> nat
    decreases s.len(),
{
    if s.len() == 0 {
        0
    } else {
        hex_val(s.drop_last()) * 16 + hex_digit_val(s.last())
    }
}

/// Along a sequence of digits, the value of a prefix never exceeds the
/// value of the whole.
proof fn lemma_hex_val_prefix_le(s: Seq<char>, i: int)
    requires
        0 <= i <= s.len(),
    ensures
        hex_val(s.subrange(0, i)) <= hex_val(s),
    decreases s.len() - i,
{
    if i < s.len() {
        lemma_hex_val_prefix_le(s, i + 1);
        let p = s.subrange(0, i);
        let q = s.subrange(0, i + 1);
        assert(q.drop_last() =~= p);
        assert(hex_val(q) == hex_val(p) * 16 + hex_digit_val(q.last()));
        assert(hex_val(p) <= hex_val(p) * 16) by (nonlinear_arith);
    } else {
        assert(s.subrange(0, i) =~= s);
    }
}

/// True iff the signed hexadecimal representation carries a minus sign.
pub open spec fn hex_is_neg(s: Seq<char>) -> bool {
    s.len() > 0 && s[0] == '-'
}

/// The digits of a signed hexadecimal representation, the sign stripped.
pub open spec fn hex_body(s: Seq<char>) -> Seq<char> {
    if s.len() > 0 && (s[0] == '-' || s[0] == '+') {
        s.subrange(1, s.len() as int)
    } else {
        s
    }
}

/// True iff `s` is what the standard 32-bit signed radix-16 parser
/// accepts: an optional sign, then at least one hexadecimal digit, with a
/// value in range.
pub open spec fn is_i32_hex(s: Seq<char>) -> bool {
    let b = hex_body(s);
    b.len() > 0 && all_hex_digits(b) && (if hex_is_neg(s) {
        hex_val(b) <= 0x8000_0000
    } else {
        hex_val(b) <= 0x7FFF_FFFF
    })
}

/// The value of such a representation.
pub open spec fn i32_hex_val(s: Seq<char>) -> int {
    if hex_is_neg(s) {
        -(hex_val(hex_body(s)) as int)
    } else {
        hex_val(hex_body(s)) as int
    }
}

/// The value of one hexadecimal digit character, or nothing.
fn hex_digit_of(c: char) -> (r: Option<u32>)
    ensures
        is_hex_digit(c) ==> r == Some(hex_digit_val(c) as u32),
        !is_hex_digit(c) ==> r is None,
{
    let v = c as u32;
    if 48 <= v && v <= 57 {
        Some(v - 48)
    } else if 97 <= v && v <= 102 {
        Some(v - 97 + 10)
    } else if 65 <= v && v <= 70 {
        Some(v - 65 + 10)
    } else {
        None
    }
}

/// Parses a signed 32-bit integer from hexadecimal digits, exactly as the
/// standard library's radix-16 conversion does: an optional sign, then one
/// or more digits, rejecting anything else and values out of range.
pub fn parse_i32_hex(s: &str) -> (r: Option<i32>)
    ensures
        is_i32_hex(s@) ==> r == Some(i32_hex_val(s@) as i32),
        !is_i32_hex(s@) ==> r is None,
{
    let n = s.unicode_len();
    let mut i: usize = 0;
    let mut neg = false;
    if n > 0 {
        let c0 = s.get_char(0);
        if c0 == '-' {
            neg = true;
            i = 1;
        } else if c0 == '+' {
            i = 1;
        }
    }
    let ghost start = i as int;
    let ghost b = hex_body(s@);
    proof {
        assert(b =~= s@.subrange(start, n as int));
    }
    if i == n {
        // no digits at all
        return None;
    }
    let limit: u32 = if neg {
        0x8000_0000
    } else {
        0x7FFF_FFFF
    };
    let mut acc: u32 = 0;
    while i < n
        invariant
            start <= i <= n,
            n == s@.len(),
            start == (if s@.len() > 0 && (s@[0] == '-' || s@[0] == '+') {
                1int
            } else {
                0int
            }),
            b == hex_body(s@),
            b == s@.subrange(start, n as int),
            neg == hex_is_neg(s@),
            limit == (if neg {
                0x8000_0000u32
            } else {
                0x7FFF_FFFFu32
            }),
            all_hex_digits(s@.subrange(start, i as int)),
            acc == hex_val(s@.subrange(start, i as int)),
            acc <= limit,
        decreases n - i,
    {
        let c = s.get_char(i);
        let d = match hex_digit_of(c) {
            Some(d) => d,
            None => {
                proof {
                    assert(b[i - start] == s@[i as int]);
                    assert(!is_hex_digit(b[i - start]));
                }
                return None;
            },
        };
        let ghost p = s@.subrange(start, i as int);
        let ghost q = s@.subrange(start, i + 1);
        proof {
            assert(q.drop_last() =~= p);
            assert(q.last() == s@[i as int]);
            assert(hex_val(q) == hex_val(p) * 16 + hex_digit_val(s@[i as int]));
        }
        if acc > (limit - d) / 16 {
            // the value no longer fits in 32 signed bits
            proof {
                assert(hex_val(q) > limit) by (nonlinear_arith)
                    requires
                        hex_val(q) == hex_val(p) * 16 + hex_digit_val(s@[i as int]),
                        acc == hex_val(p),
                        d == hex_digit_val(s@[i as int]),
                        d <= 15,
                        acc > (limit - d) / 16,
                ;
                if is_i32_hex(s@) {
                    lemma_hex_val_prefix_le(b, i + 1 - start);
                    assert(b.subrange(0, i + 1 - start) =~= q);
                    assert(false);
                }
            }
            return None;
        }
        proof {
            assert(acc * 16 + d <= limit) by (nonlinear_arith)
                requires
                    d <= 15,
                    acc <= (limit - d) / 16,
            ;
        }
        acc = acc * 16 + d;
        i = i + 1;
    }
    proof {
        assert(s@.subrange(start, i as int) =~= b);
    }
    if neg {
        let r = -(acc as i64);
        Some(r as i32)
    } else {
        Some(acc as i32)
    }
}

/// `s` with every repetition of a leading "0x" removed, as the range
/// syntax strips it.
pub open spec fn trim_hex_prefix(s: Seq<char>) -> Seq<char>
    decreases s.len(),
{
    if s.len() >= 2 && s[0] == '0' && s[1] == 'x' {
        trim_hex_prefix(s.subrange(2, s.len() as int))
    } else {
        s
    }
}

/// `s` with every repetition of a leading "=0x" removed, for the inclusive
/// end of a range.
pub open spec fn trim_eq_hex_prefix(s: Seq<char>) -> Seq<char>
    decreases s.len(),
{
    if s.len() >= 3 && s[0] == '=' && s[1] == '0' && s[2] == 'x' {
        trim_eq_hex_prefix(s.subrange(3, s.len() as int))
    } else {
        s
    }
}

fn strip_hex_prefix(s: &str) -> (r: &str)
    ensures
        r@ == trim_hex_prefix(s@),
{
    let mut cur = s;
    loop
        invariant
            trim_hex_prefix(cur@) == trim_hex_prefix(s@),
        ensures
            trim_hex_prefix(cur@) == trim_hex_prefix(s@),
            !(cur@.len() >= 2 && cur@[0] == '0' && cur@[1] == 'x'),
        decreases cur@.len(),
    {
        let n = cur.unicode_len();
        if !(n >= 2 && cur.get_char(0) == '0' && cur.get_char(1) == 'x') {
            break;
        }
        cur = cur.substring_char(2, n);
    }
    cur
}

fn strip_eq_hex_prefix(s: &str) -> (r: &str)
    ensures
        r@ == trim_eq_hex_prefix(s@),
{
    let mut cur = s;
    loop
        invariant
            trim_eq_hex_prefix(cur@) == trim_eq_hex_prefix(s@),
        ensures
            trim_eq_hex_prefix(cur@) == trim_eq_hex_prefix(s@),
            !(cur@.len() >= 3 && cur@[0] == '=' && cur@[1] == '0' && cur@[2] == 'x'),
        decreases cur@.len(),
    {
        let n = cur.unicode_len();
        if !(n >= 3 && cur.get_char(0) == '=' && cur.get_char(1) == '0' && cur.get_char(2) == 'x') {
            break;
        }
        cur = cur.substring_char(3, n);
    }
    cur
}

/// True iff the range separator ".." stands at position `i`.
pub open spec fn dotdot_at(s: Seq<char>, i: int) -> bool {
    0 <= i && i + 2 <= s.len() && s[i] == '.' && s[i + 1] == '.'
}

/// True iff scanning left to right for non-overlapping occurrences of ".."
/// finds exactly one, at position `i`: the string splits into exactly two
/// parts there.
pub open spec fn splits_in_two(s: Seq<char>, i: int) -> bool {
    dotdot_at(s, i) && (forall|j: int| 0 <= j < i ==> !dotdot_at(s, j)) && (forall|j: int|
        i + 2 <= j ==> !dotdot_at(s, j))
}

/// The split position is unique where it exists.
proof fn lemma_splits_in_two_unique(s: Seq<char>, i1: int, i2: int)
    requires
        splits_in_two(s, i1),
        splits_in_two(s, i2),
    ensures
        i1 == i2,
{
    if i1 < i2 {
        assert(!dotdot_at(s, i1));
    }
    if i2 < i1 {
        assert(!dotdot_at(s, i2));
    }
}

/// Finds the first ".." at or after `from`.
fn find_dotdot(s: &str, from: usize) -> (r: Option<usize>)
    requires
        from <= s@.len(),
    ensures
        (r matches Some(i) ==> from <= i && dotdot_at(s@, i as int) && (forall|j: int|
            from <= j < i ==> !dotdot_at(s@, j))),
        r is None ==> (forall|j: int| from <= j ==> !dotdot_at(s@, j)),
{
    let n = s.unicode_len();
    let mut i = from;
    while n >= 2 && i < n - 1
        invariant
            from <= i,
            i <= n,
            n == s@.len(),
            forall|j: int| from <= j < i ==> !dotdot_at(s@, j),
        decreases n - i,
    {
        if s.get_char(i) == '.' && s.get_char(i + 1) == '.' {
            return Some(i);
        }
        i = i + 1;
    }
    None
}

/// The lower-case hexadecimal digit characters, by value; the same
/// characters serve for decimal digits.
pub open spec fn digit_char(d: int) -> char {
    if d == 0 {
        '0'
    } else if d == 1 {
        '1'
    } else if d == 2 {
        '2'
    } else if d == 3 {
        '3'
    } else if d == 4 {
        '4'
    } else if d == 5 {
        '5'
    } else if d == 6 {
        '6'
    } else if d == 7 {
        '7'
    } else if d == 8 {
        '8'
    } else if d == 9 {
        '9'
    } else if d == 10 {
        'a'
    } else if d == 11 {
        'b'
    } else if d == 12 {
        'c'
    } else if d == 13 {
        'd'
    } else if d == 14 {
        'e'
    } else {
        'f'
    }
}

fn digit_char_of(d: u32) -> (c: char)
    requires
        d < 16,
    ensures
        c == digit_char(d as int),
{
    match d {
        0 => '0',
        1 => '1',
        2 => '2',
        3 => '3',
        4 => '4',
        5 => '5',
        6 => '6',
        7 => '7',
        8 => '8',
        9 => '9',
        10 => 'a',
        11 => 'b',
        12 => 'c',
        13 => 'd',
        14 => 'e',
        _ => 'f',
    }
}

/// The hexadecimal digits of `v`, lower case, without leading zeros
/// (a single '0' for zero).
pub open spec fn hex_str(v: int) -> Seq<char>
    decreases v,
{
    if v < 16 {
        seq![digit_char(v)]
    } else {
        hex_str(v / 16) + seq![digit_char(v % 16)]
    }
}

/// The decimal digits of `v`, without leading zeros.
pub open spec fn dec_str(v: int) -> Seq<char>
    decreases v,
{
    if v < 10 {
        seq![digit_char(v)]
    } else {
        dec_str(v / 10) + seq![digit_char(v % 10)]
    }
}

/// `v` as one rendered range element: "0x" and the digits, zero-padded to
/// width two.
pub open spec fn fmt_hex2(v: int) -> Seq<char> {
    seq!['0', 'x'] + (if v < 16 {
        seq!['0']
    } else {
        Seq::<char>::empty()
    }) + hex_str(v)
}

/// The unsigned 32-bit value with the same bits as `x`: a negative value
/// renders in two's complement, as the standard hexadecimal formatter does.
pub open spec fn u32_bits(x: int) -> int {
    if x >= 0 {
        x
    } else {
        x + 0x1_0000_0000
    }
}

fn push_hex_digits(out: &mut String, v: u32)
    ensures
        final(out)@ == old(out)@ + hex_str(v as int),
    decreases v,
{
    if v < 16 {
        out.push(digit_char_of(v));
        proof {
            assert(old(out)@ + hex_str(v as int) =~= old(out)@.push(digit_char(v as int)));
        }
    } else {
        push_hex_digits(out, v / 16);
        out.push(digit_char_of(v % 16));
        proof {
            assert(old(out)@ + hex_str(v as int) =~= (old(out)@ + hex_str(v as int / 16)).push(
                digit_char(v as int % 16),
            ));
        }
    }
}

fn push_dec_digits(out: &mut String, v: u64)
    ensures
        final(out)@ == old(out)@ + dec_str(v as int),
    decreases v,
{
    if v < 10 {
        out.push(digit_char_of(v as u32));
        proof {
            assert(old(out)@ + dec_str(v as int) =~= old(out)@.push(digit_char(v as int)));
        }
    } else {
        push_dec_digits(out, v / 10);
        out.push(digit_char_of((v % 10) as u32));
        proof {
            assert(old(out)@ + dec_str(v as int) =~= (old(out)@ + dec_str(v as int / 10)).push(
                digit_char(v as int % 10),
            ));
        }
    }
}

/// Renders the bits of `x` as one range element.
fn fmt_hex2_of(x: i32) -> (r: String)
    ensures
        r@ == fmt_hex2(u32_bits(x as int)),
{
    let v: u32 = x as u32;
    proof {
        assert(v as int == u32_bits(x as int)) by (bit_vector)
            requires
                v == x as u32,
        ;
    }
    let mut out = String::new();
    out.push('0');
    out.push('x');
    if v < 16 {
        out.push('0');
    }
    push_hex_digits(&mut out, v);
    proof {
        assert(out@ =~= fmt_hex2(v as int));
    }
    out
}

/// Both hexadecimal bounds of a range token that splits at `i` are valid
/// 32-bit values after prefix stripping.
pub open spec fn range_tokens_valid(s: Seq<char>, i: int) -> bool {
    is_i32_hex(trim_hex_prefix(s.subrange(0, i))) && is_i32_hex(range_end_token(s, i))
}

/// The end bound's digits: after an inclusive marker '=' the prefix "=0x"
/// is stripped, otherwise "0x".
pub open spec fn range_end_token(s: Seq<char>, i: int) -> Seq<char> {
    let p1 = s.subrange(i + 2, s.len() as int);
    if p1.len() > 0 && p1[0] == '=' {
        trim_eq_hex_prefix(p1)
    } else {
        trim_hex_prefix(p1)
    }
}

/// True iff the range is inclusive: its end part begins with '='.
pub open spec fn range_inclusive(s: Seq<char>, i: int) -> bool {
    let p1 = s.subrange(i + 2, s.len() as int);
    p1.len() > 0 && p1[0] == '='
}

/// The range's start value.
pub open spec fn range_start_val(s: Seq<char>, i: int) -> int {
    i32_hex_val(trim_hex_prefix(s.subrange(0, i)))
}

/// The range's end value.
pub open spec fn range_end_val(s: Seq<char>, i: int) -> int {
    i32_hex_val(range_end_token(s, i))
}

/// The rendered elements of the range: one formatted value per step from
/// the start bound up to the end bound, exclusive or inclusive.
pub open spec fn range_values(s: Seq<char>, i: int) -> Seq<Seq<char>> {
    let sv = range_start_val(s, i);
    let ev = range_end_val(s, i);
    let cnt = if range_inclusive(s, i) {
        ev - sv + 1
    } else {
        ev - sv
    };
    Seq::new(cnt as nat, |k: int| fmt_hex2(u32_bits(sv + k)))
}

/// Expands a textual range of 32-bit hexadecimal values, "START..END" or
/// "START..=END", into the list of its elements, each rendered as "0x" and
/// at least two lower-case digits. A string without exactly one ".."
/// separator, or with a start above its end, is rejected with a
/// diagnostic. The bounds themselves must be well-formed hexadecimal
/// values: a caller that cannot promise that should validate first, since
/// a malformed bound is a configuration error found before any load runs.
pub fn parse_range(input: &str) -> (r: Result<Vec<String>, &'static str>)
    requires
        forall|i: int| splits_in_two(input@, i) ==> range_tokens_valid(input@, i),
    ensures
        (forall|i: int| !splits_in_two(input@, i)) ==> (r matches Err(m) && m@
            == "Invalid range format. Use START..END or START..=END"@),
        forall|i: int|
            splits_in_two(input@, i) && range_start_val(input@, i) > range_end_val(input@, i) ==> (
            r matches Err(m) && m@ == "Start value cannot be greater than end value"@),
        forall|i: int|
            splits_in_two(input@, i) && range_start_val(input@, i) <= range_end_val(input@, i)
                ==> (r matches Ok(v) && v@.map_values(|x: String| x@) == range_values(input@, i)),
{
    let n = input.unicode_len();
    let i = match find_dotdot(input, 0) {
        None => {
            return Err("Invalid range format. Use START..END or START..=END");
        },
        Some(i) => i,
    };
    match find_dotdot(input, i + 2) {
        Some(i2) => {
            proof {
                assert forall|k: int| !splits_in_two(input@, k) by {
                    if splits_in_two(input@, k) {
                        if k < i as int {
                            assert(!dotdot_at(input@, k));
                        } else if k == i as int {
                            assert(dotdot_at(input@, i2 as int));
                            assert(!dotdot_at(input@, i2 as int));
                        } else {
                            assert(!dotdot_at(input@, i as int));
                        }
                    }
                }
            }
            return Err("Invalid range format. Use START..END or START..=END");
        },
        None => {},
    }
    proof {
        assert(splits_in_two(input@, i as int));
    }
    let p0 = input.substring_char(0, i);
    let p1 = input.substring_char(i + 2, n);
    let inclusive = p1.unicode_len() > 0 && p1.get_char(0) == '=';
    let t0 = strip_hex_prefix(p0);
    let t1 = if inclusive {
        strip_eq_hex_prefix(p1)
    } else {
        strip_hex_prefix(p1)
    };
    proof {
        assert(inclusive == range_inclusive(input@, i as int));
        assert(t1@ == range_end_token(input@, i as int));
    }
    let start = match parse_i32_hex(t0) {
        Some(v) => v,
        None => {
            proof {
                assert(false);
            }
            return Err("Invalid range format. Use START..END or START..=END");
        },
    };
    let end = match parse_i32_hex(t1) {
        Some(v) => v,
        None => {
            proof {
                assert(false);
            }
            return Err("Invalid range format. Use START..END or START..=END");
        },
    };
    if start > end {
        return Err("Start value cannot be greater than end value");
    }
    let base: i64 = start as i64;
    let count: u64 = ((end as i64 - base) as u64) + (if inclusive {
        1
    } else {
        0
    });
    let mut out: Vec<String> = Vec::new();
    let mut k: u64 = 0;
    while k < count
        invariant
            k <= count,
            base == start as i64,
            start <= end,
            count == (end - start) + (if inclusive {
                1int
            } else {
                0int
            }),
            out@.len() == k,
            forall|j: int|
                0 <= j < k ==> (#[trigger] out@[j])@ == fmt_hex2(u32_bits(start as int + j)),
        decreases count - k,
    {
        let x: i32 = ((base + k as i64) as i32);
        out.push(fmt_hex2_of(x));
        k = k + 1;
    }
    proof {
        assert(out@.map_values(|x: String| x@) =~= range_values(input@, i as int));
    }
    Ok(out)
}

/// The parts interleaved with the separator: what the standard join of
/// strings yields.
pub open spec fn join_with(parts: Seq<Seq<char>>, sep: char) -> Seq<char>
    decreases parts.len(),
{
    if parts.len() == 0 {
        Seq::empty()
    } else if parts.len() == 1 {
        parts[0]
    } else {
        parts[0] + seq![sep] + join_with(parts.drop_first(), sep)
    }
}

/// Joining one more part appends a separator and the part.
proof fn lemma_join_with_push(parts: Seq<Seq<char>>, sep: char, p: Seq<char>)
    ensures
        join_with(parts.push(p), sep) == (if parts.len() == 0 {
            p
        } else {
            join_with(parts, sep) + seq![sep] + p
        }),
    decreases parts.len(),
{
    let w = parts.push(p);
    if parts.len() == 0 {
        assert(w.len() == 1);
        assert(w[0] == p);
    } else {
        assert(w.drop_first() =~= parts.drop_first().push(p));
        lemma_join_with_push(parts.drop_first(), sep, p);
        if parts.len() == 1 {
            assert(join_with(w, sep) =~= parts[0] + seq![sep] + p);
            assert(join_with(parts, sep) + seq![sep] + p =~= parts[0] + seq![sep] + p);
        } else {
            assert(join_with(w, sep) =~= join_with(parts, sep) + seq![sep] + p);
        }
    }
}

/// Joins the strings with the separator character.
pub fn join_strings(parts: &Vec<String>, sep: char) -> (r: String)
    ensures
        r@ == join_with(parts@.map_values(|x: String| x@), sep),
{
    let ghost views = parts@.map_values(|x: String| x@);
    let mut out = String::new();
    let mut i: usize = 0;
    while i < parts.len()
        invariant
            i <= parts@.len(),
            views == parts@.map_values(|x: String| x@),
            out@ == join_with(views.subrange(0, i as int), sep),
        decreases parts@.len() - i,
    {
        proof {
            lemma_join_with_push(views.subrange(0, i as int), sep, views[i as int]);
            assert(views.subrange(0, i as int).push(views[i as int]) =~= views.subrange(
                0,
                i + 1,
            ));
        }
        if i > 0 {
            out.push(sep);
        }
        out.append(parts[i].as_str());
        i = i + 1;
    }
    proof {
        assert(views.subrange(0, i as int) =~= views);
    }
    out
}

/// Every space replaced by an underscore.
pub open spec fn underscored(s: Seq<char>) -> Seq<char> {
    s.map_values(
        |c: char|
            if c == ' ' {
                '_'
            } else {
                c
            },
    )
}

/// Replaces every space with an underscore.
fn replace_spaces(s: &str) -> (r: String)
    ensures
        r@ == underscored(s@),
{
    let n = s.unicode_len();
    let mut out = String::new();
    let mut i: usize = 0;
    while i < n
        invariant
            i <= n,
            n == s@.len(),
            out@ == underscored(s@.subrange(0, i as int)),
        decreases n - i,
    {
        let c = s.get_char(i);
        if c == ' ' {
            out.push('_');
        } else {
            out.push(c);
        }
        proof {
            assert(underscored(s@.subrange(0, i + 1)) =~= underscored(
                s@.subrange(0, i as int),
            ).push(
                if s@[i as int] == ' ' {
                    '_'
                } else {
                    s@[i as int]
                },
            ));
        }
        i = i + 1;
    }
    proof {
        assert(s@.subrange(0, n as int) =~= s@);
    }
    out
}

/// The parts with `p` prefixed to the first of them.
pub open spec fn prepend_first(p: Seq<char>, parts: Seq<Seq<char>>) -> Seq<Seq<char>>
    recommends
        parts.len() >= 1,
{
    parts.update(0, p + parts[0])
}

/// What splitting at every single space yields: consecutive spaces give
/// empty parts, and the empty string gives one empty part.
pub open spec fn split_spaces(s: Seq<char>) -> Seq<Seq<char>>
    decreases s.len(),
{
    if s.len() == 0 {
        seq![Seq::<char>::empty()]
    } else if s[0] == ' ' {
        seq![Seq::<char>::empty()] + split_spaces(s.subrange(1, s.len() as int))
    } else {
        prepend_first(seq![s[0]], split_spaces(s.subrange(1, s.len() as int)))
    }
}

/// A split always yields at least one part.
proof fn lemma_split_spaces_len(s: Seq<char>)
    ensures
        split_spaces(s).len() >= 1,
    decreases s.len(),
{
    if s.len() > 0 {
        lemma_split_spaces_len(s.subrange(1, s.len() as int));
    }
}

/// Splits the string at every single space.
fn split_on_spaces(s: &str) -> (r: Vec<String>)
    ensures
        r@.map_values(|x: String| x@) == split_spaces(s@),
{
    let n = s.unicode_len();
    let mut done: Vec<String> = Vec::new();
    let mut cur = String::new();
    let mut i: usize = 0;
    proof {
        lemma_split_spaces_len(s@);
        assert(s@.subrange(0, n as int) =~= s@);
        assert(prepend_first(cur@, split_spaces(s@.subrange(0, n as int))) =~= split_spaces(s@));
        assert(done@.map_values(|x: String| x@) + prepend_first(
            cur@,
            split_spaces(s@.subrange(0, n as int)),
        ) =~= split_spaces(s@));
    }
    while i < n
        invariant
            i <= n,
            n == s@.len(),
            split_spaces(s@) == done@.map_values(|x: String| x@) + prepend_first(
                cur@,
                split_spaces(s@.subrange(i as int, n as int)),
            ),
        decreases n - i,
    {
        let ghost rest = s@.subrange(i as int, n as int);
        let ghost rest1 = s@.subrange(i + 1, n as int);
        proof {
            lemma_split_spaces_len(rest1);
            assert(rest.subrange(1, rest.len() as int) =~= rest1);
            assert(rest[0] == s@[i as int]);
        }
        let c = s.get_char(i);
        if c == ' ' {
            let ghost pre_done = done@;
            let ghost pre_cur = cur@;
            done.push(cur);
            cur = String::new();
            proof {
                assert(prepend_first(pre_cur, split_spaces(rest)) =~= seq![pre_cur]
                    + split_spaces(rest1));
                assert(done@.map_values(|x: String| x@) =~= pre_done.map_values(|x: String| x@)
                    + seq![pre_cur]);
                assert(done@.map_values(|x: String| x@) + prepend_first(
                    cur@,
                    split_spaces(rest1),
                ) =~= pre_done.map_values(|x: String| x@) + prepend_first(
                    pre_cur,
                    split_spaces(rest),
                ));
            }
        } else {
            let ghost pre_cur = cur@;
            cur.push(c);
            proof {
                assert(prepend_first(pre_cur, split_spaces(rest)) =~~= prepend_first(
                    pre_cur.push(s@[i as int]),
                    split_spaces(rest1),
                ));
            }
        }
        i = i + 1;
    }
    proof {
        let ghost rest = s@.subrange(n as int, n as int);
        assert(rest =~= Seq::<char>::empty());
        assert(prepend_first(cur@, split_spaces(rest)) =~= seq![cur@]);
    }
    done.push(cur);
    proof {
        assert(done@.map_values(|x: String| x@) =~= split_spaces(s@));
    }
    done
}

/// Splits a parameter string at single spaces; every string splits, so
/// this never fails.
pub fn parse_params(s: &str) -> (r: Result<Vec<String>, String>)
    ensures
        r matches Ok(v) && v@.map_values(|x: String| x@) == split_spaces(s@),
{
    Ok(split_on_spaces(s))
}

/// How one character renders inside a JSON string: quotes and backslashes
/// are escaped, the named control characters take their short escapes, any
/// other control character takes a four-digit escape, and everything else
/// stands as it is.
pub open spec fn json_escape_char(c: char) -> Seq<char> {
    if c == '"' {
        seq!['\\', '"']
    } else if c == '\\' {
        seq!['\\', '\\']
    } else if c == '\u{8}' {
        seq!['\\', 'b']
    } else if c == '\t' {
        seq!['\\', 't']
    } else if c == '\n' {
        seq!['\\', 'n']
    } else if c == '\u{c}' {
        seq!['\\', 'f']
    } else if c == '\r' {
        seq!['\\', 'r']
    } else if (c as int) < 32 {
        seq!['\\', 'u', '0', '0', digit_char((c as int) / 16), digit_char((c as int) % 16)]
    } else {
        seq![c]
    }
}

/// The body of the JSON string encoding of `s`.
pub open spec fn json_escaped(s: Seq<char>) -> Seq<char>
    decreases s.len(),
{
    if s.len() == 0 {
        Seq::empty()
    } else {
        json_escaped(s.drop_last()) + json_escape_char(s.last())
    }
}

/// The JSON string encoding of `s`, quotes included.
pub open spec fn json_quoted(s: Seq<char>) -> Seq<char> {
    seq!['"'] + json_escaped(s) + seq!['"']
}

fn push_escaped(out: &mut String, c: char)
    ensures
        final(out)@ == old(out)@ + json_escape_char(c),
{
    if c == '"' {
        out.push('\\');
        out.push('"');
    } else if c == '\\' {
        out.push('\\');
        out.push('\\');
    } else if c == '\u{8}' {
        out.push('\\');
        out.push('b');
    } else if c == '\t' {
        out.push('\\');
        out.push('t');
    } else if c == '\n' {
        out.push('\\');
        out.push('n');
    } else if c == '\u{c}' {
        out.push('\\');
        out.push('f');
    } else if c == '\r' {
        out.push('\\');
        out.push('r');
    } else {
        let v = c as u32;
        if v < 32 {
            out.push('\\');
            out.push('u');
            out.push('0');
            out.push('0');
            out.push(digit_char_of(v / 16));
            out.push(digit_char_of(v % 16));
        } else {
            out.push(c);
        }
    }
    proof {
        assert(final(out)@ =~= old(out)@ + json_escape_char(c));
    }
}

/// Encodes `s` as a JSON string literal.
fn json_quote(s: &str) -> (r: String)
    ensures
        r@ == json_quoted(s@),
{
    let n = s.unicode_len();
    let mut out = String::new();
    out.push('"');
    let mut i: usize = 0;
    while i < n
        invariant
            i <= n,
            n == s@.len(),
            out@ == seq!['"'] + json_escaped(s@.subrange(0, i as int)),
        decreases n - i,
    {
        push_escaped(&mut out, s.get_char(i));
        proof {
            assert(s@.subrange(0, i + 1).drop_last() =~= s@.subrange(0, i as int));
            assert(out@ =~= seq!['"'] + json_escaped(s@.subrange(0, i + 1)));
        }
        i = i + 1;
    }
    out.push('"');
    proof {
        assert(s@.subrange(0, n as int) =~= s@);
        assert(out@ =~= json_quoted(s@));
    }
    out
}

/// The parameter text a token becomes: a well-formed JSON value is kept
/// verbatim, anything else becomes a JSON string of its characters.
pub open spec fn value_or_string_text(s: Seq<char>) -> Seq<char> {
    if ext::is_json_text(s) {
        s
    } else {
        json_quoted(s)
    }
}

/// Keeps a well-formed JSON value verbatim, and encodes anything else as a
/// JSON string.
pub fn value_or_string(value: String) -> (r: String)
    ensures
        r@ == value_or_string_text(value@),
{
    if ext::is_json(value.as_str()) {
        value
    } else {
        json_quote(value.as_str())
    }
}

/// A JSON array holding the given element texts in order.
pub open spec fn json_array_text(elems: Seq<Seq<char>>) -> Seq<char> {
    seq!['['] + join_with(elems, ',') + seq![']']
}

/// The JSON-RPC parameter text of one group of tokens: in raw mode the
/// space-joined group as one value, otherwise a JSON array with one value
/// per token.
pub open spec fn rpc_params_text(group: Seq<Seq<char>>, raw: bool) -> Seq<char> {
    if raw {
        value_or_string_text(join_with(group, ' '))
    } else {
        json_array_text(group.map_values(|e: Seq<char>| value_or_string_text(e)))
    }
}

/// Builds the JSON-RPC parameter text of one group of tokens. In raw mode
/// the group must not be empty: an empty raw group means "read standard
/// input", which is the embedding binary's affair.
pub fn parse_rpc_params(params: &Vec<String>, raw: bool) -> (r: String)
    requires
        raw ==> params@.len() > 0,
    ensures
        r@ == rpc_params_text(params@.map_values(|x: String| x@), raw),
{
    if raw {
        value_or_string(join_strings(params, ' '))
    } else {
        let mut elems: Vec<String> = Vec::new();
        let mut i: usize = 0;
        while i < params.len()
            invariant
                i <= params@.len(),
                elems@.len() == i,
                elems@.map_values(|x: String| x@) == params@.map_values(|x: String| x@).subrange(
                    0,
                    i as int,
                ).map_values(|e: Seq<char>| value_or_string_text(e)),
            decreases params@.len() - i,
        {
            let token = params[i].clone();
            proof {
                assert(token@ == params@[i as int]@);
            }
            let encoded = value_or_string(token);
            proof {
                assert(encoded@ == value_or_string_text(params@[i as int]@));
            }
            let ghost pre = elems@;
            elems.push(encoded);
            proof {
                assert(elems@ == pre.push(encoded));
                assert(pre.len() == i as int);
                let ghost pv = params@.map_values(|x: String| x@);
                let ghost lhs = elems@.map_values(|x: String| x@);
                let ghost rhs = pv.subrange(0, i + 1).map_values(
                    |e: Seq<char>| value_or_string_text(e),
                );
                assert forall|j: int| 0 <= j < i + 1 implies lhs[j] == rhs[j] by {
                    if j < i {
                        assert(pre.map_values(|x: String| x@)[j] == pv.subrange(
                            0,
                            i as int,
                        ).map_values(|e: Seq<char>| value_or_string_text(e))[j]);
                        assert(lhs[j] == pre.map_values(|x: String| x@)[j]);
                        assert(rhs[j] == pv.subrange(0, i as int).map_values(
                            |e: Seq<char>| value_or_string_text(e),
                        )[j]);
                    } else {
                        assert(lhs[j] == encoded@);
                        assert(rhs[j] == value_or_string_text(pv[j]));
                    }
                }
                assert(lhs =~= rhs);
            }
            i = i + 1;
        }
        let mut out = String::new();
        out.push('[');
        out.append(join_strings(&elems, ',').as_str());
        out.push(']');
        proof {
            assert(params@.map_values(|x: String| x@).subrange(
                0,
                params@.len() as int,
            ) =~= params@.map_values(|x: String| x@));
            assert(out@ =~= rpc_params_text(params@.map_values(|x: String| x@), false));
        }
        out
    }
}

/// Displays the reports of previously executed benchmarks, optionally
/// comparing two runs. Paths are plain strings; the embedding binary owns
/// the command-line form.
#[derive(Debug)]
pub struct ShowCommand {
    /// Path to the JSON report file.
    pub report: String,
    /// Optional path to another JSON report file to compare against.
    pub baseline: Option<String>,
}

/// Exports histograms of a report as a compressed HDR interval log.
#[derive(Debug)]
pub struct HdrCommand {
    /// Path to the input JSON report file.
    pub report: String,
    /// Output file; absent means standard output.
    pub output: Option<String>,
    /// Optional tag prefix to add to each histogram.
    pub tag: Option<String>,
}

/// The schema part of a workload description.
#[derive(Debug)]
pub struct SchemaConfig {
    pub script: Vec<String>,
    pub cql: String,
}

impl Default for SchemaConfig {
    fn default() -> (r: SchemaConfig)
        ensures
            r.script@.len() == 0,
            r.cql@.len() == 0,
    {
        SchemaConfig { script: Vec::new(), cql: String::new() }
    }
}

/// The load part of a workload description: how many rows to load and the
/// statements that load them.
#[derive(Debug)]
pub struct LoadConfig {
    pub count: u64,
    pub script: Vec<String>,
    pub cql: String,
}

/// True iff the token contains the range separator "..".
pub open spec fn token_has_range(t: Seq<char>) -> bool {
    exists|i: int| dotdot_at(t, i)
}

/// True iff `j` indexes the first token of the group that contains a
/// range.
pub open spec fn range_token_at(g: Seq<Seq<char>>, j: int) -> bool {
    0 <= j < g.len() && token_has_range(g[j]) && (forall|l: int|
        0 <= l < j ==> !token_has_range(#[trigger] g[l]))
}

/// True iff some token of the group contains a range.
pub open spec fn has_range_token(g: Seq<Seq<char>>) -> bool {
    exists|j: int| range_token_at(g, j)
}

/// The first range token's position is unique.
proof fn lemma_range_token_at_unique(g: Seq<Seq<char>>, j1: int, j2: int)
    requires
        range_token_at(g, j1),
        range_token_at(g, j2),
    ensures
        j1 == j2,
{
    if j1 < j2 {
        assert(!token_has_range(g[j1]));
    }
    if j2 < j1 {
        assert(!token_has_range(g[j2]));
    }
}

/// An acceptable range token: it splits in two at some position, its
/// bounds are well-formed hexadecimal values, and its start does not
/// exceed its end. Any other range token is a configuration error that
/// aborts the run before any load is generated.
pub open spec fn range_token_ok(t: Seq<char>) -> bool {
    (exists|i: int| splits_in_two(t, i)) && (forall|i: int|
        splits_in_two(t, i) ==> range_tokens_valid(t, i) && range_start_val(t, i)
            <= range_end_val(t, i))
}

/// The elements a well-formed range token expands to.
pub open spec fn token_range_values(t: Seq<char>) -> Seq<Seq<char>> {
    range_values(t, choose|i: int| splits_in_two(t, i))
}

/// What one parameter group expands to: where a token holds a range, one
/// copy of the group per range element with that token replaced; otherwise
/// the group itself. Only the first range token of a group is expanded.
pub open spec fn group_expansion(g: Seq<Seq<char>>) -> Seq<Seq<Seq<char>>> {
    if has_range_token(g) {
        let j = choose|j: int| range_token_at(g, j);
        token_range_values(g[j]).map_values(|val: Seq<char>| g.update(j, val))
    } else {
        seq![g]
    }
}

/// All groups expanded, in order.
pub open spec fn expand_groups(params: Seq<Seq<Seq<char>>>) -> Seq<Seq<Seq<char>>>
    decreases params.len(),
{
    if params.len() == 0 {
        Seq::empty()
    } else {
        group_expansion(params[0]) + expand_groups(params.drop_first())
    }
}

/// Expanding one more group appends its expansion.
proof fn lemma_expand_groups_push(ps: Seq<Seq<Seq<char>>>, g: Seq<Seq<char>>)
    ensures
        expand_groups(ps.push(g)) == expand_groups(ps) + group_expansion(g),
    decreases ps.len(),
{
    let w = ps.push(g);
    if ps.len() == 0 {
        assert(w.drop_first() =~~= Seq::<Seq<Seq<char>>>::empty());
        assert(w[0] == g);
        assert(w.len() == 1);
        assert(expand_groups(w) == group_expansion(g) + expand_groups(w.drop_first()));
        assert(expand_groups(w.drop_first()) == Seq::<Seq<Seq<char>>>::empty());
        assert(expand_groups(ps) == Seq::<Seq<Seq<char>>>::empty());
        assert(expand_groups(w) =~~= expand_groups(ps) + group_expansion(g));
    } else {
        assert(w.drop_first() =~~= ps.drop_first().push(g));
        lemma_expand_groups_push(ps.drop_first(), g);
        assert(w[0] == ps[0]);
        assert(expand_groups(w) =~~= expand_groups(ps) + group_expansion(g));
    }
}

/// The views of a group's tokens.
pub open spec fn group_views(g: Seq<String>) -> Seq<Seq<char>> {
    g.map_values(|t: String| t@)
}

/// The views of all groups.
pub open spec fn params_views(p: Seq<Vec<String>>) -> Seq<Seq<Seq<char>>> {
    p.map_values(|g: Vec<String>| group_views(g@))
}

/// The request list a configuration yields: every expanded group becomes
/// one request carrying the method and the group's parameter text.
pub open spec fn rpc_requests_text(
    params: Seq<Seq<Seq<char>>>,
    raw: bool,
    method: Seq<char>,
) -> Seq<(Seq<char>, Seq<char>)> {
    expand_groups(params).map_values(|g: Seq<Seq<char>>| (method, rpc_params_text(g, raw)))
}

/// Whether the token contains the range separator "..".
fn contains_dotdot(t: &str) -> (r: bool)
    ensures
        r == token_has_range(t@),
{
    match find_dotdot(t, 0) {
        Some(i) => {
            proof {
                assert(dotdot_at(t@, i as int));
            }
            true
        },
        None => false,
    }
}

/// The position of the group's first token that contains a range.
fn find_range_token(group: &Vec<String>) -> (r: Option<usize>)
    ensures
        r matches Some(j) ==> range_token_at(group_views(group@), j as int),
        r is None ==> !has_range_token(group_views(group@)),
{
    let ghost gv = group_views(group@);
    let mut j: usize = 0;
    while j < group.len()
        invariant
            j <= group@.len(),
            gv == group_views(group@),
            forall|l: int| 0 <= l < j ==> !token_has_range(#[trigger] gv[l]),
        decreases group@.len() - j,
    {
        if contains_dotdot(group[j].as_str()) {
            proof {
                assert(gv[j as int] == group@[j as int]@);
            }
            return Some(j);
        }
        proof {
            assert(gv[j as int] == group@[j as int]@);
        }
        j = j + 1;
    }
    proof {
        assert forall|k: int| !range_token_at(gv, k) by {
            if 0 <= k < gv.len() {
                assert(!token_has_range(gv[k]));
            }
        }
    }
    None
}

/// An independent copy of the group.
fn clone_string_vec(group: &Vec<String>) -> (r: Vec<String>)
    ensures
        r@.len() == group@.len(),
        group_views(r@) == group_views(group@),
{
    let mut out: Vec<String> = Vec::new();
    let mut l: usize = 0;
    while l < group.len()
        invariant
            l <= group@.len(),
            out@.len() == l,
            forall|k: int| 0 <= k < l ==> (#[trigger] out@[k])@ == group@[k]@,
        decreases group@.len() - l,
    {
        out.push(group[l].clone());
        l = l + 1;
    }
    proof {
        assert(group_views(out@) =~~= group_views(group@));
    }
    out
}

/// The group with its `j`-th token replaced.
fn group_with(group: &Vec<String>, j: usize, val: &String) -> (r: Vec<String>)
    requires
        j < group@.len(),
    ensures
        r@.len() == group@.len(),
        group_views(r@) == group_views(group@).update(j as int, val@),
{
    let mut out: Vec<String> = Vec::new();
    let mut l: usize = 0;
    while l < group.len()
        invariant
            l <= group@.len(),
            j < group@.len(),
            out@.len() == l,
            forall|k: int|
                0 <= k < l ==> (#[trigger] out@[k])@ == (if k == j {
                    val@
                } else {
                    group@[k]@
                }),
        decreases group@.len() - l,
    {
        if l == j {
            out.push(val.clone());
        } else {
            out.push(group[l].clone());
        }
        l = l + 1;
    }
    proof {
        assert(group_views(out@) =~~= group_views(group@).update(j as int, val@));
    }
    out
}

/// A per-cycle rate plan for the scheduler. Rates carry six decimal places
/// in a fixed-point integer: a value of 1_000_000 is one cycle per second.
/// A ramp names its bounds and its number of steps; the log-spaced values
/// between the bounds are the driver's to materialize, since their
/// interpolation is floating-point work.
#[derive(Debug)]
pub enum RateSchedule {
    /// One per-cycle rate per configured stage, in the configured order.
    Flat(Vec<u64>),
    /// A log-uniform sweep: `num_values` rates from `start_micros` up to
    /// `end_micros`, both ends included, each step a constant ratio apart.
    Ramp { start_micros: u64, end_micros: u64, num_values: u64 },
}

/// One cycle per second, in fixed-point micro-units.
pub const RATE_ONE: u64 = 1_000_000;

/// The fixed low aggregate rate a ramp starts from, in cycles per second.
pub const RAMP_START_RATE: u64 = 10;

/// How many rate points a ramp holds.
pub const RAMP_NUM_VALUES: u64 = 10;

/// The command a benchmark run is configured by, as the library models it:
/// paths are plain strings and rates fixed-point integers; the embedding
/// binary owns the command-line form and converts.
#[derive(Debug)]
pub struct RpcCommand {
    /// RPC method name.
    pub method: Option<String>,
    /// RPC parameters: groups of whitespace-split tokens.
    pub params: Option<Vec<Vec<String>>>,
    /// Interpret each parameter group as one raw JSON value.
    pub raw: bool,
    /// Aggregate cycles per second to execute, in micro-units
    /// (`RATE_ONE` is one cycle per second); absent means unthrottled.
    pub rate: Option<Vec<u64>>,
    /// Length of the warmup phase.
    pub warmup_duration: Interval,
    /// Length of the main benchmark phase.
    pub run_duration: Interval,
    /// Worker threads used by the driver; at least one.
    pub threads: usize,
    /// Concurrent in-flight cycles per thread; at least one.
    pub concurrency: usize,
    /// Throughput sampling period.
    pub sampling_interval: Interval,
    /// Labels added to the report to identify the test.
    pub tags: Vec<String>,
    /// Path to a JSON input file with JSON-RPC calls.
    pub input: Option<String>,
    /// Path the JSON report should be written to.
    pub output: Option<String>,
    /// Path to a report of an earlier run to compare against.
    pub baseline: Option<String>,
    /// Don't display the progress bar.
    pub quiet: bool,
    /// Node RPC endpoints.
    pub rpc_url: Option<Vec<String>>,
    /// Ceiling of an exponential rate ramp, in cycles per second.
    pub exp_ramp: Option<u64>,
    /// Seconds since the Unix epoch.
    pub timestamp: Option<i64>,
    /// Requests issued per cycle.
    pub num_req: Option<usize>,
    /// Name of the cluster under test.
    pub cluster_name: Option<String>,
    /// Chain identifier of the node under test.
    pub chain_id: Option<String>,
}

/// The benchmark's name: the method where one is set, otherwise the input
/// file's path.
pub open spec fn spec_name(c: &RpcCommand) -> Seq<char> {
    if c.method is Some {
        c.method->0@
    } else {
        c.input->0@
    }
}

/// The dot-separated components of a default output file name, given the
/// time label of the run.
pub open spec fn output_components(c: &RpcCommand, label: Seq<char>) -> Seq<Seq<char>> {
    seq![spec_name(c)] + (match c.cluster_name {
        Some(x) => seq![underscored(x@)],
        None => Seq::<Seq<char>>::empty(),
    }) + (match c.chain_id {
        Some(x) => seq![x@],
        None => Seq::<Seq<char>>::empty(),
    }) + c.tags@.map_values(|t: String| t@) + seq![
        seq!['p'] + dec_str(c.concurrency as int),
        seq!['t'] + dec_str(c.threads as int),
        label,
    ]
}

/// The whole default output file name for the given time label and
/// extension.
pub open spec fn output_name_text(c: &RpcCommand, label: Seq<char>, ext: Seq<char>) -> Seq<char> {
    join_with(output_components(c, label), '.') + seq!['.'] + ext
}

impl RpcCommand {
    /// The benchmark's name, used in reports and file names.
    pub fn name(&self) -> (r: String)
        requires
            self.method is Some || self.input is Some,
        ensures
            r@ == spec_name(self),
    {
        match &self.method {
            Some(m) => m.clone(),
            None => {
                match &self.input {
                    Some(p) => p.clone(),
                    None => {
                        proof {
                            assert(false);
                        }
                        String::new()
                    },
                }
            },
        }
    }

    /// The suggested output file name built around a caller-supplied time
    /// label: the name, the optional cluster name with spaces underscored,
    /// the optional chain id, the tags, the concurrency and thread counts,
    /// the label, and the extension, joined with dots.
    pub fn output_file_name_with(&self, extension: &str, time_label: &str) -> (r: String)
        requires
            self.method is Some || self.input is Some,
        ensures
            r@ == output_name_text(self, time_label@, extension@),
    {
        let mut components: Vec<String> = Vec::new();
        components.push(self.name());
        match &self.cluster_name {
            Some(x) => components.push(replace_spaces(x.as_str())),
            None => (),
        }
        match &self.chain_id {
            Some(x) => components.push(x.clone()),
            None => (),
        }
        let ghost base = components@.map_values(|x: String| x@);
        proof {
            assert(base =~= seq![spec_name(self)] + (match self.cluster_name {
                Some(x) => seq![underscored(x@)],
                None => Seq::<Seq<char>>::empty(),
            }) + (match self.chain_id {
                Some(x) => seq![x@],
                None => Seq::<Seq<char>>::empty(),
            }));
        }
        let mut ti: usize = 0;
        while ti < self.tags.len()
            invariant
                ti <= self.tags@.len(),
                components@.map_values(|x: String| x@) == base + self.tags@.subrange(
                    0,
                    ti as int,
                ).map_values(|t: String| t@),
            decreases self.tags@.len() - ti,
        {
            let ghost pre = components@;
            components.push(self.tags[ti].clone());
            proof {
                assert(components@.map_values(|x: String| x@) =~= pre.map_values(|x: String| x@)
                    + seq![self.tags@[ti as int]@]);
                assert(base + self.tags@.subrange(0, ti + 1).map_values(|t: String| t@) =~= pre
                    .map_values(|x: String| x@) + seq![self.tags@[ti as int]@]);
            }
            ti = ti + 1;
        }
        let mut pc = String::new();
        pc.push('p');
        push_dec_digits(&mut pc, self.concurrency as u64);
        components.push(pc);
        let mut tc = String::new();
        tc.push('t');
        push_dec_digits(&mut tc, self.threads as u64);
        components.push(tc);
        components.push(String::from_str(time_label));
        proof {
            assert(self.tags@.subrange(0, self.tags@.len() as int) =~= self.tags@);
            assert(Seq::<char>::empty().push('p') + dec_str(self.concurrency as int) =~= seq!['p']
                + dec_str(self.concurrency as int));
            assert(Seq::<char>::empty().push('t') + dec_str(self.threads as int) =~= seq!['t']
                + dec_str(self.threads as int));
            assert(components@.map_values(|x: String| x@) =~= output_components(
                self,
                time_label@,
            ));
        }
        let mut out = join_strings(&components, '.');
        out.push('.');
        out.append(extension);
        proof {
            assert(out@ =~= output_name_text(self, time_label@, extension@));
        }
        out
    }

    /// The suggested file name to save this run's results under: the
    /// components above around the current local time. Only the time label
    /// is outside the stated text.
    pub fn default_output_file_name(&self, extension: &str) -> (r: String)
        requires
            self.method is Some || self.input is Some,
        ensures
            exists|label: Seq<char>| r@ == output_name_text(self, label, extension@),
    {
        let label = ext::local_time_label();
        let r = self.output_file_name_with(extension, label.as_str());
        proof {
            assert(r@ == output_name_text(self, label@, extension@));
        }
        r
    }

    /// Stamps the command with the current time where no timestamp is set;
    /// an already set timestamp is kept as it is.
    pub fn set_timestamp_if_empty(self) -> (r: RpcCommand)
        ensures
            self.timestamp is Some ==> r == self,
            self.timestamp is None ==> (exists|t: i64|
                r == (RpcCommand { timestamp: Some(t), ..self })),
            r.timestamp is Some,
    {
        if self.timestamp.is_none() {
            let t = ext::unix_timestamp_now();
            let r = RpcCommand { timestamp: Some(t), ..self };
            proof {
                assert(r == (RpcCommand { timestamp: Some(t), ..self }));
            }
            r
        } else {
            self
        }
    }

    /// Sets the number of requests per cycle where none is set; an already
    /// set count is kept as it is.
    pub fn set_num_req(self, num_req: usize) -> (r: RpcCommand)
        ensures
            self.num_req is Some ==> r == self,
            self.num_req is None ==> r == (RpcCommand { num_req: Some(num_req), ..self }),
            r.num_req is Some,
    {
        if self.num_req.is_none() {
            RpcCommand { num_req: Some(num_req), ..self }
        } else {
            self
        }
    }

    /// The per-cycle rate plan for the run. A configured ramp ceiling takes
    /// precedence: the plan is then a log-uniform sweep of ten points whose
    /// bounds are the fixed low start rate and the ceiling, each divided by
    /// the requests per cycle as a real quotient carried to the fixed
    /// point's precision. Otherwise each configured aggregate rate is
    /// divided by the requests per cycle, in the given order; with no rate
    /// configured the run is unthrottled.
    pub fn parse_rate(&self) -> (r: Option<RateSchedule>)
        requires
            self.num_req matches Some(n) && n > 0,
            self.exp_ramp matches Some(c) ==> c <= u64::MAX / RATE_ONE,
        ensures
            (self.exp_ramp matches Some(c) ==> r matches Some(s) && s == (RateSchedule::Ramp {
                start_micros: ((RAMP_START_RATE * RATE_ONE) as u64 / (self.num_req->0
                    as u64)) as u64,
                end_micros: (((c * RATE_ONE) as u64) / (self.num_req->0 as u64)) as u64,
                num_values: RAMP_NUM_VALUES,
            })),
            self.exp_ramp is None ==> (match self.rate {
                Some(v) => r matches Some(s) && s matches RateSchedule::Flat(w) && w@
                    == v@.map_values(|x: u64| x / (self.num_req->0 as u64)),
                None => r is None,
            }),
    {
        let num_req: usize = match self.num_req {
            Some(n) => n,
            None => {
                proof {
                    assert(false);
                }
                1
            },
        };
        if let Some(max_rate) = self.exp_ramp {
            let start_micros = (RAMP_START_RATE * RATE_ONE) / (num_req as u64);
            let end_micros = (max_rate * RATE_ONE) / (num_req as u64);
            return Some(
                RateSchedule::Ramp { start_micros, end_micros, num_values: RAMP_NUM_VALUES },
            );
        }
        match &self.rate {
            Some(rates) => {
                let mut out: Vec<u64> = Vec::new();
                let mut i: usize = 0;
                while i < rates.len()
                    invariant
                        i <= rates@.len(),
                        num_req == self.num_req->0,
                        num_req > 0,
                        out@ == rates@.subrange(0, i as int).map_values(
                            |x: u64| x / (num_req as u64),
                        ),
                    decreases rates@.len() - i,
                {
                    out.push(rates[i] / (num_req as u64));
                    proof {
                        assert(out@ =~= rates@.subrange(0, i + 1).map_values(
                            |x: u64| x / (num_req as u64),
                        ));
                    }
                    i = i + 1;
                }
                proof {
                    assert(rates@.subrange(0, rates@.len() as int) =~= rates@);
                }
                Some(RateSchedule::Flat(out))
            },
            None => None,
        }
    }

    /// Builds the pre-built request list: one pair of method name and
    /// parameter text per expanded parameter group. A token holding a
    /// hexadecimal range such as "0x01..=0x04" multiplies its group, one
    /// copy per range element; only the first such token of a group is
    /// expanded. Reading requests from an input file is the embedding
    /// binary's affair, as is standard input in raw mode, and a malformed
    /// range token aborts the run outright, so all three are excluded
    /// here.
    #[verifier::loop_isolation(false)]
    pub fn parse_params(&self) -> (r: Result<Vec<(String, String)>, FloodError>)
        requires
            self.input is None,
            self.method is Some,
            self.params is Some,
            self.raw ==> (forall|gi: int|
                0 <= gi < self.params->0@.len() ==> (#[trigger] self.params->0@[gi])@.len() > 0),
            forall|gi: int, j: int|
                0 <= gi < self.params->0@.len() && (#[trigger] range_token_at(
                    group_views(self.params->0@[gi]@),
                    j,
                )) ==> range_token_ok(group_views(self.params->0@[gi]@)[j]),
        ensures
            r matches Ok(v) && v@.map_values(|p: (String, String)| (p.0@, p.1@))
                == rpc_requests_text(params_views(self.params->0@), self.raw, self.method->0@),
    {
        let method: &String = match &self.method {
            Some(m) => m,
            None => {
                proof {
                    assert(false);
                }
                return Err(FloodError::Parse(String::new()));
            },
        };
        let params: &Vec<Vec<String>> = match &self.params {
            Some(p) => p,
            None => {
                proof {
                    assert(false);
                }
                return Err(FloodError::Parse(String::new()));
            },
        };
        let ghost pviews = params_views(params@);
        let mut expanded: Vec<Vec<String>> = Vec::new();
        let mut gi: usize = 0;
        proof {
            assert(pviews.subrange(0, 0) =~~= Seq::<Seq<Seq<char>>>::empty());
            assert(params_views(expanded@) =~~= expand_groups(pviews.subrange(0, 0)));
        }
        while gi < params.len()
            invariant
                gi <= params@.len(),
                params_views(expanded@) == expand_groups(pviews.subrange(0, gi as int)),
                self.raw ==> (forall|k: int|
                    0 <= k < expanded@.len() ==> (#[trigger] expanded@[k])@.len() > 0),
            decreases params@.len() - gi,
        {
            let group: &Vec<String> = &params[gi];
            let ghost gview = group_views(group@);
            let ghost done = params_views(expanded@);
            proof {
                assert(pviews[gi as int] == gview);
                assert(params@[gi as int] == self.params->0@[gi as int]);
            }
            match find_range_token(group) {
                Some(j) => {
                    proof {
                        assert(range_token_at(group_views(self.params->0@[gi as int]@), j as int));
                        assert(range_token_ok(gview[j as int]));
                    }
                    let ghost tok = gview[j as int];
                    let ghost i0 = choose|i: int| splits_in_two(tok, i);
                    proof {
                        assert(splits_in_two(tok, i0));
                        assert(group@[j as int]@ == tok);
                    }
                    let vals = match parse_range(group[j].as_str()) {
                        Ok(v) => v,
                        Err(_) => {
                            proof {
                                assert(false);
                            }
                            return Err(FloodError::Parse(String::new()));
                        },
                    };
                    let ghost exp = group_expansion(gview);
                    proof {
                        assert(has_range_token(gview));
                        let j0 = choose|jj: int| range_token_at(gview, jj);
                        lemma_range_token_at_unique(gview, j as int, j0);
                        assert(vals@.map_values(|x: String| x@) == range_values(tok, i0));
                        assert(exp == token_range_values(tok).map_values(
                            |val: Seq<char>| gview.update(j as int, val),
                        ));
                        assert(exp.len() == vals@.len());
                        assert forall|k: int| 0 <= k < exp.len() implies #[trigger] exp[k]
                            == gview.update(j as int, vals@[k]@) by {
                            assert(token_range_values(tok)[k] == vals@.map_values(
                                |x: String| x@,
                            )[k]);
                        }
                    }
                    let mut vi: usize = 0;
                    while vi < vals.len()
                        invariant
                            vi <= vals@.len(),
                            expanded@.len() == done.len() + vi,
                            params_views(expanded@) == done + exp.subrange(0, vi as int),
                        decreases vals@.len() - vi,
                    {
                        let np = group_with(group, j, &vals[vi]);
                        let ghost pre = expanded@;
                        expanded.push(np);
                        proof {
                            let ghost lhs = params_views(expanded@);
                            let ghost rhs = done + exp.subrange(0, vi + 1);
                            assert(params_views(pre).len() == pre.len());
                            assert forall|k: int| 0 <= k < lhs.len() implies lhs[k] == rhs[k] by {
                                if k < pre.len() {
                                    assert(lhs[k] == params_views(pre)[k]);
                                    assert(params_views(pre)[k] == (done + exp.subrange(
                                        0,
                                        vi as int,
                                    ))[k]);
                                } else {
                                    assert(expanded@[k] == np);
                                    assert(lhs[k] == group_views(np@));
                                    assert(rhs[k] == exp[vi as int]);
                                }
                            }
                            assert(lhs =~~= rhs);
                        }
                        vi = vi + 1;
                    }
                    proof {
                        assert(exp.subrange(0, exp.len() as int) =~~= exp);
                        assert(params_views(expanded@) == done + group_expansion(
                            pviews[gi as int],
                        ));
                    }
                },
                None => {
                    let copy = clone_string_vec(group);
                    let ghost pre = expanded@;
                    expanded.push(copy);
                    proof {
                        assert(!has_range_token(gview));
                        assert(group_expansion(gview) == seq![gview]);
                        let ghost lhs = params_views(expanded@);
                        let ghost rhs = done + group_expansion(pviews[gi as int]);
                        assert(params_views(pre).len() == pre.len());
                        assert forall|k: int| 0 <= k < lhs.len() implies lhs[k] == rhs[k] by {
                            if k < pre.len() {
                                assert(lhs[k] == params_views(pre)[k]);
                            } else {
                                assert(expanded@[k] == copy);
                                assert(lhs[k] == group_views(copy@));
                            }
                        }
                        assert(lhs =~~= rhs);
                    }
                },
            }
            proof {
                assert(pviews.subrange(0, gi as int).push(pviews[gi as int]) =~~= pviews.subrange(
                    0,
                    gi + 1,
                ));
                lemma_expand_groups_push(pviews.subrange(0, gi as int), pviews[gi as int]);
                if self.raw {
                    assert forall|k: int|
                        0 <= k < expanded@.len() implies (#[trigger] expanded@[k])@.len() > 0 by {
                        assert(params_views(expanded@)[k] == group_views(expanded@[k]@));
                    }
                }
            }
            gi = gi + 1;
        }
        proof {
            assert(pviews.subrange(0, params@.len() as int) =~~= pviews);
        }
        let mut out: Vec<(String, String)> = Vec::new();
        let mut k: usize = 0;
        while k < expanded.len()
            invariant
                k <= expanded@.len(),
                out@.len() == k,
                forall|l: int|
                    0 <= l < k ==> (#[trigger] out@[l]).0@ == self.method->0@ && out@[l].1@
                        == rpc_params_text(params_views(expanded@)[l], self.raw),
            decreases expanded@.len() - k,
        {
            proof {
                assert(params_views(expanded@)[k as int] == group_views(expanded@[k as int]@));
            }
            let text = parse_rpc_params(&expanded[k], self.raw);
            out.push((method.clone(), text));
            k = k + 1;
        }
        proof {
            let ghost lhs = out@.map_values(|p: (String, String)| (p.0@, p.1@));
            let ghost rhs = rpc_requests_text(pviews, self.raw, self.method->0@);
            assert forall|l: int| 0 <= l < lhs.len() implies lhs[l] == rhs[l] by {
                assert(expand_groups(pviews)[l] == params_views(expanded@)[l]);
            }
            assert(lhs =~~= rhs);
        }
        Ok(out)
    }
}

} // verus!
