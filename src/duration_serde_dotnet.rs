//! The fixed-width duration text of stored events, `HH:MM:SS.fffffffff`: hours,
//! minutes and seconds of at least two digits and nine digits of nanoseconds.

use crate::error::LibraryError;
use crate::position::{Position, NANOS_PER_SEC};
use vstd::prelude::*;
use vstd::string::{StrSliceExecFns, StringExecFns};

verus! {

/// The separators between the parts of a duration text.
pub open spec fn is_separator(c: char) -> bool {
    c == ':' || c == '.'
}

/// The parts of `s` between separators, as `str::split` yields them: one more
/// part than there are separators, empty parts included.
pub open spec fn split_parts(s: Seq<char>) -> Seq<Seq<char>>
    decreases s.len(),
{
    if s.len() == 0 {
        seq![Seq::empty()]
    } else {
        let prev = split_parts(s.drop_last());
        if is_separator(s.last()) {
            prev.push(Seq::empty())
        } else {
            prev.update(prev.len() - 1, prev.last().push(s.last()))
        }
    }
}

pub open spec fn is_digit(c: char) -> bool {
    '0' <= c <= '9'
}

pub open spec fn digit_value(c: char) -> nat {
    (c as int - '0' as int) as nat
}

/// The number that the decimal digits `d` write.
pub open spec fn decimal_value(d: Seq<char>) -> nat
    decreases d.len(),
{
    if d.len() == 0 {
        0
    } else {
        decimal_value(d.drop_last()) * 10 + digit_value(d.last())
    }
}

/// `t` without a leading `+`.
pub open spec fn without_plus(t: Seq<char>) -> Seq<char> {
    if t.len() > 0 && t[0] == '+' {
        t.drop_first()
    } else {
        t
    }
}

/// The number that `t` writes as an unsigned integer: an optional `+`, then one
/// or more decimal digits.
pub open spec fn unsigned_value(t: Seq<char>) -> Option<nat> {
    let d = without_plus(t);
    if d.len() > 0 && forall|i: int| 0 <= i < d.len() ==> is_digit(#[trigger] d[i]) {
        Some(decimal_value(d))
    } else {
        None
    }
}

/// The value of `t` when it writes an unsigned integer no greater than `max`.
pub open spec fn bounded_value(t: Seq<char>, max: nat) -> Option<nat> {
    match unsigned_value(t) {
        Some(v) => if v <= max { Some(v) } else { None },
        None => None,
    }
}

/// The position that a duration text denotes, or `None` when it is malformed:
/// not four parts, a part that is not an unsigned integer of its type (`u64`
/// for hours, minutes and seconds, `u32` for nanoseconds), or a total that
/// overflows. Nanoseconds of a second or more carry into the seconds.
pub open spec fn parse_duration(s: Seq<char>) -> Option<Position> {
    let p = split_parts(s);
    if p.len() != 4 {
        None
    } else {
        match (
            bounded_value(p[0], u64::MAX as nat),
            bounded_value(p[1], u64::MAX as nat),
            bounded_value(p[2], u64::MAX as nat),
            bounded_value(p[3], u32::MAX as nat),
        ) {
            (Some(h), Some(m), Some(sec), Some(n)) => {
                let total = h * 3600 + m * 60 + sec + n / 1_000_000_000;
                if total <= u64::MAX {
                    Some(Position { secs: total as u64, nanos: (n % 1_000_000_000) as u32 })
                } else {
                    None
                }
            },
            _ => None,
        }
    }
}

/// `decimal_value` grows as digits are added.
proof fn lemma_decimal_value_grows(d: Seq<char>, j: int)
    requires
        0 <= j <= d.len(),
        forall|i: int| 0 <= i < d.len() ==> is_digit(#[trigger] d[i]),
    ensures
        decimal_value(d.take(j)) <= decimal_value(d),
    decreases d.len(),
{
    if j < d.len() {
        assert(d.drop_last().take(j) =~= d.take(j));
        lemma_decimal_value_grows(d.drop_last(), j);
    } else {
        assert(d.take(j) =~= d);
    }
}

/// Reads the unsigned integer that `s[start..end]` writes, if it is no greater
/// than `max`.
fn parse_part(s: &str, start: usize, end: usize, max: u64) -> (r: Option<u64>)
    requires
        start <= end <= s@.len(),
    ensures
        match bounded_value(s@.subrange(start as int, end as int), max as nat) {
            Some(v) => r == Some(v as u64),
            None => r is None,
        },
{
    let ghost t = s@.subrange(start as int, end as int);
    let mut i = start;
    if i < end && s.get_char(i) == '+' {
        i = i + 1;
    }
    let ghost first = i;
    let ghost d = s@.subrange(first as int, end as int);
    assert(d =~= without_plus(t));
    if i == end {
        return None;
    }
    let mut acc: u64 = 0;
    while i < end
        invariant
            first <= i <= end <= s@.len(),
            d == s@.subrange(first as int, end as int),
            d == without_plus(t),
            t == s@.subrange(start as int, end as int),
            acc as nat == decimal_value(d.take(i - first)),
            acc <= max,
            forall|k: int| 0 <= k < i - first ==> is_digit(#[trigger] d[k]),
        decreases end - i,
    {
        let c = s.get_char(i);
        proof {
            assert(d[i - first] == c);
            assert(d.take(i - first + 1).drop_last() =~= d.take(i - first));
        }
        if !('0' <= c && c <= '9') {
            assert(!is_digit(d[i - first]));
            assert(unsigned_value(t) is None);
            return None;
        }
        let digit = (c as u32 - '0' as u32) as u64;
        if digit > max || acc > (max - digit) / 10 {
            proof {
                assert(acc * 10 + digit > max) by (nonlinear_arith)
                    requires digit > max || (digit <= max && acc > (max - digit) / 10);
                assert(digit_value(c) == digit);
                assert(decimal_value(d.take(i - first + 1)) == acc * 10 + digit);
                if forall|k: int| 0 <= k < d.len() ==> is_digit(#[trigger] d[k]) {
                    lemma_decimal_value_grows(d, i - first + 1);
                    assert(decimal_value(d) > max);
                }
                assert(bounded_value(t, max as nat) is None);
            }
            return None;
        }
        proof {
            assert(acc * 10 + digit <= max) by (nonlinear_arith)
                requires acc <= (max - digit) / 10, digit <= max;
        }
        acc = acc * 10 + digit;
        i = i + 1;
    }
    proof {
        assert(d.take(d.len() as int) =~= d);
    }
    Some(acc)
}

/// The character of the decimal digit `d`.
pub open spec fn digit_char(d: nat) -> char {
    if d == 0 { '0' }
    else if d == 1 { '1' }
    else if d == 2 { '2' }
    else if d == 3 { '3' }
    else if d == 4 { '4' }
    else if d == 5 { '5' }
    else if d == 6 { '6' }
    else if d == 7 { '7' }
    else if d == 8 { '8' }
    else { '9' }
}

/// The decimal digits of `n`, most significant first, without leading zeros
/// (`0` is written `0`).
pub open spec fn decimal_digits(n: nat) -> Seq<char>
    decreases n,
{
    if n < 10 {
        seq![digit_char(n)]
    } else {
        decimal_digits(n / 10).push(digit_char(n % 10))
    }
}

/// The decimal digits of `n`, with zeros in front up to `width` characters.
pub open spec fn zero_padded(n: nat, width: nat) -> Seq<char> {
    let d = decimal_digits(n);
    if d.len() >= width {
        d
    } else {
        Seq::new((width - d.len()) as nat, |i: int| '0') + d
    }
}

/// The text of a position: hours, minutes and seconds of at least two digits,
/// then nine digits of nanoseconds.
pub open spec fn duration_text(p: Position) -> Seq<char> {
    zero_padded(p.secs as nat / 3600, 2) + seq![':'] + zero_padded((p.secs as nat % 3600) / 60, 2)
        + seq![':'] + zero_padded(p.secs as nat % 60, 2) + seq!['.'] + zero_padded(p.nanos as nat, 9)
}

/// The one-character text of the decimal digit `d`.
fn digit_text(d: u64) -> (r: &'static str)
    requires
        d < 10,
    ensures
        r@ == seq![digit_char(d as nat)],
{
    proof {
        reveal_strlit("0");
        reveal_strlit("1");
        reveal_strlit("2");
        reveal_strlit("3");
        reveal_strlit("4");
        reveal_strlit("5");
        reveal_strlit("6");
        reveal_strlit("7");
        reveal_strlit("8");
        reveal_strlit("9");
    }
    let r = if d == 0 { "0" }
    else if d == 1 { "1" }
    else if d == 2 { "2" }
    else if d == 3 { "3" }
    else if d == 4 { "4" }
    else if d == 5 { "5" }
    else if d == 6 { "6" }
    else if d == 7 { "7" }
    else if d == 8 { "8" }
    else { "9" };
    assert(r@ =~= seq![digit_char(d as nat)]);
    r
}

/// Appends the digits of `n`, zero-padded to `width` characters, to `out`.
pub(crate) fn append_zero_padded(out: &mut String, n: u64, width: usize)
    ensures
        final(out)@ == old(out)@ + zero_padded(n as nat, width as nat),
{
    let ghost digits = decimal_digits(n as nat);
    let mut low_first: Vec<u64> = Vec::new();
    let ghost mut suffix: Seq<char> = Seq::empty();
    let mut cur = n;
    while cur >= 10
        invariant
            digits == decimal_digits(cur as nat) + suffix,
            suffix.len() == low_first@.len(),
            forall|t: int| 0 <= t < low_first@.len() ==> #[trigger] low_first@[t] < 10,
            forall|t: int| 0 <= t < suffix.len() ==> #[trigger] suffix[t] == digit_char(
                low_first@[low_first@.len() - 1 - t] as nat,
            ),
        decreases cur,
    {
        proof {
            assert(seq![digit_char(cur as nat % 10)] + suffix =~= suffix.insert(0, digit_char(cur as nat % 10)));
            assert(decimal_digits(cur as nat) == decimal_digits(cur as nat / 10).push(digit_char(cur as nat % 10)));
            assert(decimal_digits(cur as nat) + suffix =~= decimal_digits(cur as nat / 10) + (seq![digit_char(cur as nat % 10)] + suffix));
            suffix = seq![digit_char(cur as nat % 10)] + suffix;
        }
        low_first.push(cur % 10);
        cur = cur / 10;
    }
    low_first.push(cur);
    proof {
        suffix = seq![digit_char(cur as nat)] + suffix;
        assert(digits =~= suffix);
    }
    let len = low_first.len();
    let mut k: usize = len;
    while k < width
        invariant
            len == low_first@.len(),
            len <= k,
            k <= width || k == len,
            out@ == old(out)@ + Seq::new((k - len) as nat, |i: int| '0'),
        decreases width - k,
    {
        let ghost before = out@;
        proof { reveal_strlit("0"); }
        out.append("0");
        proof {
            assert(out@ =~= old(out)@ + Seq::new((k + 1 - len) as nat, |i: int| '0'));
        }
        k = k + 1;
    }
    let ghost padding = out@;
    let mut j: usize = 0;
    while j < len
        invariant
            len == low_first@.len(),
            digits.len() == len,
            j <= len,
            forall|t: int| 0 <= t < low_first@.len() ==> #[trigger] low_first@[t] < 10,
            forall|t: int| 0 <= t < digits.len() ==> #[trigger] digits[t] == digit_char(
                low_first@[low_first@.len() - 1 - t] as nat,
            ),
            out@ == padding + digits.take(j as int),
        decreases len - j,
    {
        let d = digit_text(low_first[len - 1 - j]);
        out.append(d);
        proof {
            assert(digits.take(j + 1) =~= digits.take(j as int).push(digits[j as int]));
            assert(out@ =~= padding + digits.take(j + 1));
        }
        j = j + 1;
    }
    proof {
        assert(digits.take(len as int) =~= digits);
        if digits.len() >= width {
            assert(Seq::new((k - len) as nat, |i: int| '0') =~= Seq::<char>::empty());
            assert(out@ =~= old(out)@ + zero_padded(n as nat, width as nat));
        } else {
            assert(out@ =~= old(out)@ + zero_padded(n as nat, width as nat));
        }
    }
}

/// Writes a position as `HH:MM:SS.fffffffff`.
pub fn serialize(duration: &Position) -> (r: String)
    ensures
        r@ == duration_text(*duration),
{
    let secs = duration.secs;
    let mut out = String::new();
    append_zero_padded(&mut out, secs / 3600, 2);
    proof { reveal_strlit(":"); reveal_strlit("."); }
    out.append(":");
    append_zero_padded(&mut out, (secs % 3600) / 60, 2);
    out.append(":");
    append_zero_padded(&mut out, secs % 60, 2);
    out.append(".");
    append_zero_padded(&mut out, duration.nanos as u64, 9);
    assert(out@ =~= duration_text(*duration));
    out
}

/// The character of a digit reads back as that digit.
proof fn lemma_digit_char(d: nat)
    requires
        d < 10,
    ensures
        is_digit(digit_char(d)),
        digit_value(digit_char(d)) == d,
{
}

/// The digits of `n` are decimal digits that write `n`.
proof fn lemma_digits_value(n: nat)
    ensures
        decimal_digits(n).len() >= 1,
        forall|i: int| 0 <= i < decimal_digits(n).len() ==> is_digit(#[trigger] decimal_digits(n)[i]),
        decimal_value(decimal_digits(n)) == n,
    decreases n,
{
    lemma_digit_char((n % 10) as nat);
    if n >= 10 {
        lemma_digits_value(n / 10);
        let d = decimal_digits(n);
        assert(d.drop_last() =~= decimal_digits(n / 10));
        assert(n == (n / 10) * 10 + n % 10) by (nonlinear_arith);
        assert(d.last() == digit_char(n % 10));
        assert(decimal_value(d) == decimal_value(d.drop_last()) * 10 + digit_value(d.last()));
    } else {
        let d = seq![digit_char(n)];
        assert(d.drop_last() =~= Seq::<char>::empty());
        assert(n % 10 == n);
        assert(decimal_value(d) == decimal_value(d.drop_last()) * 10 + digit_value(d.last()));
    }
}

/// A run of zeros writes zero.
proof fn lemma_zeros_value(k: nat)
    ensures
        decimal_value(Seq::new(k, |i: int| '0')) == 0,
    decreases k,
{
    if k > 0 {
        assert(Seq::new(k, |i: int| '0').drop_last() =~= Seq::new((k - 1) as nat, |i: int| '0'));
        lemma_zeros_value((k - 1) as nat);
    }
}

/// Leading zeros do not change the number that digits write.
proof fn lemma_leading_zeros(k: nat, d: Seq<char>)
    ensures
        decimal_value(Seq::new(k, |i: int| '0') + d) == decimal_value(d),
    decreases d.len(),
{
    let z = Seq::new(k, |i: int| '0');
    if d.len() == 0 {
        assert(z + d =~= z);
        lemma_zeros_value(k);
    } else {
        assert((z + d).drop_last() =~= z + d.drop_last());
        lemma_leading_zeros(k, d.drop_last());
    }
}

/// A zero-padded number reads back as that number, and holds no separator.
proof fn lemma_padded_value(n: nat, width: nat)
    ensures
        unsigned_value(zero_padded(n, width)) == Some(n),
        forall|i: int| 0 <= i < zero_padded(n, width).len() ==> !is_separator(
            #[trigger] zero_padded(n, width)[i],
        ),
{
    lemma_digits_value(n);
    let d = decimal_digits(n);
    let t = zero_padded(n, width);
    if d.len() < width {
        let z = Seq::new((width - d.len()) as nat, |i: int| '0');
        lemma_leading_zeros((width - d.len()) as nat, d);
        assert forall|i: int| 0 <= i < t.len() implies is_digit(#[trigger] t[i]) by {
            if i >= z.len() {
                assert(t[i] == d[i - z.len()]);
            }
        }
    }
    assert(is_digit(t[0]));
    assert(without_plus(t) == t);
}

/// Appending text without separators extends the last part.
proof fn lemma_split_plain(s: Seq<char>, t: Seq<char>)
    requires
        forall|i: int| 0 <= i < t.len() ==> !is_separator(#[trigger] t[i]),
    ensures
        split_parts(s + t) == split_parts(s).update(
            split_parts(s).len() - 1,
            split_parts(s).last() + t,
        ),
        split_parts(s + t).len() == split_parts(s).len(),
    decreases t.len(),
{
    lemma_parts_nonempty(s);
    if t.len() == 0 {
        assert(s + t =~= s);
        assert(split_parts(s).last() + t =~= split_parts(s).last());
        assert(split_parts(s).update(split_parts(s).len() - 1, split_parts(s).last())
            =~= split_parts(s));
    } else {
        let u = t.drop_last();
        assert(forall|i: int| 0 <= i < u.len() ==> u[i] == t[i]);
        lemma_split_plain(s, u);
        assert((s + t).drop_last() =~= s + u);
        assert((s + t).last() == t.last());
        assert(!is_separator(t[t.len() - 1]));
        let p = split_parts(s);
        assert((p.last() + u).push(t.last()) =~= p.last() + t);
        assert(split_parts(s + t) =~= p.update(p.len() - 1, p.last() + t));
    }
}

/// A text has at least one part.
proof fn lemma_parts_nonempty(s: Seq<char>)
    ensures
        split_parts(s).len() >= 1,
    decreases s.len(),
{
    if s.len() > 0 {
        lemma_parts_nonempty(s.drop_last());
    }
}

/// Appending a separator starts a new, empty part.
proof fn lemma_split_separator(s: Seq<char>, c: char)
    requires
        is_separator(c),
    ensures
        split_parts(s + seq![c]) == split_parts(s).push(Seq::empty()),
{
    assert((s + seq![c]).drop_last() =~= s);
}

/// Reading back the text of a position gives the position.
pub proof fn lemma_duration_round_trip(p: Position)
    requires
        p.wf(),
    ensures
        parse_duration(duration_text(p)) == Some(p),
{
    let secs = p.secs as nat;
    let a = zero_padded(secs / 3600, 2);
    let b = zero_padded((secs % 3600) / 60, 2);
    let c = zero_padded(secs % 60, 2);
    let d = zero_padded(p.nanos as nat, 9);
    lemma_padded_value(secs / 3600, 2);
    lemma_padded_value((secs % 3600) / 60, 2);
    lemma_padded_value(secs % 60, 2);
    lemma_padded_value(p.nanos as nat, 9);
    let e = Seq::<char>::empty();
    assert(split_parts(e) == seq![e]);
    lemma_split_plain(e, a);
    assert(e + a =~= a);
    assert(split_parts(a) =~= seq![a]);
    lemma_split_separator(a, ':');
    let s1 = a + seq![':'];
    lemma_split_plain(s1, b);
    assert(split_parts(s1 + b) =~= seq![a, b]);
    lemma_split_separator(s1 + b, ':');
    let s2 = s1 + b + seq![':'];
    lemma_split_plain(s2, c);
    assert(split_parts(s2 + c) =~= seq![a, b, c]);
    lemma_split_separator(s2 + c, '.');
    let s3 = s2 + c + seq!['.'];
    lemma_split_plain(s3, d);
    assert(split_parts(s3 + d) =~= seq![a, b, c, d]);
    assert(duration_text(p) =~= s3 + d);
    let h = secs / 3600;
    let m = (secs % 3600) / 60;
    let sc = secs % 60;
    assert(h * 3600 + m * 60 + sc == secs) by (nonlinear_arith)
        requires h == secs / 3600, m == (secs % 3600) / 60, sc == secs % 60;
    assert(h <= secs && m <= secs && sc <= secs) by (nonlinear_arith)
        requires h == secs / 3600, m == (secs % 3600) / 60, sc == secs % 60;
}

/// Where part `j` of a text starts, given the indices of its separators.
pub open spec fn part_start(seps: Seq<usize>, j: int) -> int {
    if j == 0 {
        0
    } else {
        seps[j - 1] + 1
    }
}

/// A text has at least as many parts as any prefix of it.
proof fn lemma_parts_grow(s: Seq<char>, i: int)
    requires
        0 <= i <= s.len(),
    ensures
        split_parts(s.take(i)).len() <= split_parts(s).len(),
    decreases s.len(),
{
    if i < s.len() {
        assert(s.drop_last().take(i) =~= s.take(i));
        lemma_parts_grow(s.drop_last(), i);
    } else {
        assert(s.take(i) =~= s);
    }
}

/// Reads a duration text, `H:M:S.N`: four unsigned integer parts separated
/// by `:` or `.`.
pub fn deserialize(s: &str) -> (r: Result<Position, LibraryError>)
    ensures
        match parse_duration(s@) {
            Some(p) => r == Ok::<Position, LibraryError>(p),
            None => r == Err::<Position, LibraryError>(LibraryError::MalformedDuration),
        },
{
    let n = s.unicode_len();
    let mut seps: Vec<usize> = Vec::new();
    let mut i: usize = 0;
    while i < n
        invariant
            n == s@.len(),
            i <= n,
            seps@.len() <= 3,
            split_parts(s@.take(i as int)).len() == seps@.len() + 1,
            forall|j: int| 0 <= j < seps@.len() ==> part_start(seps@, j) <= #[trigger] seps@[j] < i,
            forall|j: int| 0 <= j < seps@.len() ==> #[trigger] split_parts(s@.take(i as int))[j]
                == s@.subrange(part_start(seps@, j), seps@[j] as int),
            part_start(seps@, seps@.len() as int) <= i,
            split_parts(s@.take(i as int)).last() == s@.subrange(
                part_start(seps@, seps@.len() as int),
                i as int,
            ),
        decreases n - i,
    {
        let c = s.get_char(i);
        let ghost before = split_parts(s@.take(i as int));
        let ghost old_seps = seps@;
        proof {
            assert(s@.take(i + 1).drop_last() =~= s@.take(i as int));
            assert(s@.take(i + 1).last() == c);
        }
        if c == ':' || c == '.' {
            if seps.len() == 3 {
                proof {
                    lemma_parts_grow(s@, i + 1);
                }
                return Err(LibraryError::MalformedDuration);
            }
            seps.push(i);
            proof {
                let after = split_parts(s@.take(i + 1));
                assert(after == before.push(Seq::empty()));
                assert forall|j: int| 0 <= j < seps@.len() implies #[trigger] after[j]
                    == s@.subrange(part_start(seps@, j), seps@[j] as int) by {
                    if j < old_seps.len() {
                        assert(seps@[j] == old_seps[j]);
                        assert(part_start(seps@, j) == part_start(old_seps, j));
                    } else {
                        assert(part_start(seps@, j) == part_start(old_seps, j));
                    }
                }
                assert(after.last() =~= s@.subrange(part_start(seps@, seps@.len() as int), i + 1));
            }
        } else {
            proof {
                let after = split_parts(s@.take(i + 1));
                assert(after == before.update(before.len() - 1, before.last().push(c)));
                assert forall|j: int| 0 <= j < seps@.len() implies #[trigger] after[j]
                    == s@.subrange(part_start(seps@, j), seps@[j] as int) by {
                    assert(after[j] == before[j]);
                }
                assert(after.last() =~= s@.subrange(part_start(seps@, seps@.len() as int), i + 1));
            }
        }
        i = i + 1;
    }
    proof {
        assert(s@.take(n as int) =~= s@);
    }
    if seps.len() != 3 {
        return Err(LibraryError::MalformedDuration);
    }
    let ghost parts = split_parts(s@);
    assert(parts[0] == s@.subrange(0, seps@[0] as int));
    assert(parts[1] == s@.subrange(seps@[0] + 1, seps@[1] as int));
    assert(parts[2] == s@.subrange(seps@[1] + 1, seps@[2] as int));
    assert(parts[3] == s@.subrange(seps@[2] + 1, n as int));
    let hours = parse_part(s, 0, seps[0], u64::MAX);
    let minutes = parse_part(s, seps[0] + 1, seps[1], u64::MAX);
    let seconds = parse_part(s, seps[1] + 1, seps[2], u64::MAX);
    let nanos = parse_part(s, seps[2] + 1, n, u32::MAX as u64);
    match (hours, minutes, seconds, nanos) {
        (Some(h), Some(m), Some(sec), Some(ns)) => {
            let total: u128 = h as u128 * 3600 + m as u128 * 60 + sec as u128 + (ns / NANOS_PER_SEC as u64) as u128;
            if total > u64::MAX as u128 {
                Err(LibraryError::MalformedDuration)
            } else {
                Ok(Position { secs: total as u64, nanos: (ns % NANOS_PER_SEC as u64) as u32 })
            }
        },
        _ => Err(LibraryError::MalformedDuration),
    }
}

} // verus!
