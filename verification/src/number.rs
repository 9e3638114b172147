//! Numbers as text, written and read in a given radix.

use vstd::prelude::*;
use crate::text::chars_of;

verus! {

/// The lower-case digit of value `d`.
pub open spec fn digit(d: int) -> char
    recommends
        0 <= d < 36,
{
    if d < 10 {
        (48 + d) as char
    } else {
        (87 + d) as char
    }
}

/// The value of the digit `c`, upper or lower case, or -1 if it is none in
/// this radix.
pub open spec fn digit_value(c: char, radix: int) -> int {
    let n = c as int;
    let v = if 48 <= n <= 57 {
        n - 48
    } else if 97 <= n <= 122 {
        n - 87
    } else if 65 <= n <= 90 {
        n - 55
    } else {
        -1
    };
    if v < radix {
        v
    } else {
        -1
    }
}

/// `n` written in `radix` without leading zeros.
pub open spec fn digits(n: int, radix: int) -> Seq<char>
    decreases n,
{
    if radix < 2 || n < radix {
        seq![digit(n)]
    } else {
        proof {
            assert(0 <= n / radix < n) by (nonlinear_arith)
                requires
                    radix >= 2,
                    n >= radix,
            ;
        }
        digits(n / radix, radix).push(digit(n % radix))
    }
}

/// `s` with zeros in front, up to the given length.
pub open spec fn zero_padded(s: Seq<char>, width: int) -> Seq<char>
    decreases width - s.len(),
{
    if s.len() >= width {
        s
    } else {
        zero_padded(seq!['0'] + s, width)
    }
}

/// Whether `s` holds only digits.
pub open spec fn all_digits(s: Seq<char>, radix: int) -> bool {
    forall|i: int| 0 <= i < s.len() ==> #[trigger] digit_value(s[i], radix) >= 0
}

/// The value of the digits `s`, most significant first.
pub open spec fn value_of(s: Seq<char>, radix: int) -> int
    decreases s.len(),
{
    if s.len() == 0 {
        0
    } else {
        value_of(s.drop_last(), radix) * radix + digit_value(s.last(), radix)
    }
}

/// `s` without one leading plus sign.
pub open spec fn unsigned_part(s: Seq<char>) -> Seq<char> {
    if s.len() > 0 && s[0] == '+' {
        s.skip(1)
    } else {
        s
    }
}

/// The number that `s` denotes: digits, at least one, after an optional plus
/// sign.
pub open spec fn number(s: Seq<char>, radix: int) -> Option<int> {
    let body = unsigned_part(s);
    if body.len() > 0 && all_digits(body, radix) {
        Some(value_of(body, radix))
    } else {
        None
    }
}

proof fn lemma_value_grows(s: Seq<char>, radix: int, i: int)
    requires
        radix >= 1,
        0 <= i <= s.len(),
        all_digits(s, radix),
    ensures
        0 <= value_of(s.take(i), radix) <= value_of(s, radix),
    decreases s.len(),
{
    if i == s.len() {
        assert(s.take(i) =~= s);
        if s.len() > 0 {
            let t = s.drop_last();
            assert forall|j: int| 0 <= j < t.len() implies #[trigger] digit_value(t[j], radix)
                >= 0 by {
                assert(t[j] == s[j]);
                assert(digit_value(s[j], radix) >= 0);
            }
            lemma_value_grows(t, radix, i - 1);
            assert(t.take(i - 1) =~= t);
            assert(digit_value(s[i - 1], radix) >= 0);
            assert(value_of(t, radix) * radix >= 0) by (nonlinear_arith)
                requires
                    value_of(t, radix) >= 0,
                    radix >= 1,
            ;
        }
    } else {
        let t = s.drop_last();
        assert forall|j: int| 0 <= j < t.len() implies #[trigger] digit_value(t[j], radix) >= 0 by {
            assert(t[j] == s[j]);
            assert(digit_value(s[j], radix) >= 0);
        }
        lemma_value_grows(t, radix, i);
        assert(t.take(i) =~= s.take(i));
        assert(digit_value(s[s.len() - 1], radix) >= 0);
        assert(value_of(t, radix) * radix >= value_of(t, radix)) by (nonlinear_arith)
            requires
                value_of(t, radix) >= 0,
                radix >= 1,
        ;
    }
}

/// What `digits` writes are digits again, of the value that was written.
pub proof fn lemma_digits_read_back(n: int, radix: int)
    requires
        2 <= radix <= 36,
        0 <= n,
    ensures
        digits(n, radix).len() > 0,
        all_digits(digits(n, radix), radix),
        value_of(digits(n, radix), radix) == n,
        digits(n, radix)[0] != '+',
    decreases n,
{
    let s = digits(n, radix);
    if n < radix {
        assert(s.drop_last() =~= Seq::<char>::empty());
        assert(digit_value(s[0], radix) == n);
        assert(value_of(s.drop_last(), radix) * radix == 0);
    } else {
        let q = n / radix;
        assert(0 <= q < n && q * radix + n % radix == n && 0 <= n % radix < radix)
            by (nonlinear_arith)
            requires
                q == n / radix,
                n >= radix,
                radix >= 2,
        ;
        lemma_digits_read_back(q, radix);
        assert(s.drop_last() =~= digits(q, radix));
        assert(digit_value(s.last(), radix) == n % radix);
        assert forall|i: int| 0 <= i < s.len() implies #[trigger] digit_value(s[i], radix) >= 0 by {
            if i < s.len() - 1 {
                assert(s[i] == digits(q, radix)[i]);
                assert(digit_value(digits(q, radix)[i], radix) >= 0);
            }
        }
        assert(s[0] == digits(q, radix)[0]);
    }
}

/// Padding with zeros changes neither the value nor that all are digits.
pub proof fn lemma_padding_keeps_value(s: Seq<char>, width: int, radix: int)
    requires
        2 <= radix <= 36,
        s.len() > 0,
        all_digits(s, radix),
        s[0] != '+',
    ensures
        ({
            let t = zero_padded(s, width);
            &&& t.len() == if s.len() >= width { s.len() as int } else { width }
            &&& all_digits(t, radix)
            &&& value_of(t, radix) == value_of(s, radix)
            &&& t[0] != '+'
        }),
    decreases width - s.len(),
{
    if s.len() < width {
        let t = seq!['0'] + s;
        lemma_leading_zero(s, radix);
        assert forall|i: int| 0 <= i < t.len() implies #[trigger] digit_value(t[i], radix) >= 0 by {
            if i > 0 {
                assert(t[i] == s[i - 1]);
                assert(digit_value(s[i - 1], radix) >= 0);
            }
        }
        lemma_padding_keeps_value(t, width, radix);
    }
}

proof fn lemma_leading_zero(s: Seq<char>, radix: int)
    requires
        2 <= radix <= 36,
    ensures
        value_of(seq!['0'] + s, radix) == value_of(s, radix),
    decreases s.len(),
{
    let t = seq!['0'] + s;
    if s.len() == 0 {
        assert(t.drop_last() =~= Seq::<char>::empty());
        assert(value_of(t.drop_last(), radix) * radix == 0);
    } else {
        assert(t.drop_last() =~= seq!['0'] + s.drop_last());
        lemma_leading_zero(s.drop_last(), radix);
    }
}

/// A number never has more digits than a bound on it has.
pub proof fn lemma_digits_len(n: int, radix: int, k: nat)
    requires
        2 <= radix,
        0 <= n < vstd::arithmetic::power::pow(radix, k),
        k >= 1,
    ensures
        digits(n, radix).len() <= k,
    decreases k,
{
    vstd::arithmetic::power::lemma_pow1(radix);
    if n >= radix {
        assert(k >= 2);
        vstd::arithmetic::power::lemma_pow_adds(radix, (k - 1) as nat, 1);
        let p = vstd::arithmetic::power::pow(radix, (k - 1) as nat);
        assert(0 <= n / radix < p) by (nonlinear_arith)
            requires
                0 <= n < p * radix,
                radix >= 2,
        ;
        lemma_digits_len(n / radix, radix, (k - 1) as nat);
    }
}

fn push_digits(out: &mut String, n: u64, radix: u64)
    requires
        2 <= radix <= 36,
    ensures
        final(out)@ == old(out)@ + digits(n as int, radix as int),
    decreases n,
{
    if n >= radix {
        proof {
            assert(n / radix < n) by (nonlinear_arith)
                requires
                    radix >= 2,
                    n >= radix,
            ;
        }
        push_digits(out, n / radix, radix);
    }
    let d: u64 = n % radix;
    let code: u8 = if d < 10 {
        48 + d as u8
    } else {
        87 + d as u8
    };
    out.push(code as char);
    proof {
        if n < radix {
            assert(n % radix == n) by (nonlinear_arith)
                requires
                    n < radix,
            ;
        }
        assert(out@ =~= old(out)@ + digits(n as int, radix as int));
    }
}

/// `n` written in `radix`.
pub fn to_digits(n: u64, radix: u64) -> (s: String)
    requires
        2 <= radix <= 36,
    ensures
        s@ == digits(n as int, radix as int),
{
    let mut s = String::new();
    push_digits(&mut s, n, radix);
    assert(s@ =~= digits(n as int, radix as int));
    s
}

/// `n` in decimal.
pub fn decimal(n: u64) -> (s: String)
    ensures
        s@ == digits(n as int, 10),
{
    to_digits(n, 10)
}

/// `n` written in `radix`, with zeros in front up to `width` characters.
pub fn to_padded_digits(n: u64, radix: u64, width: usize) -> (s: String)
    requires
        2 <= radix <= 36,
    ensures
        s@ == zero_padded(digits(n as int, radix as int), width as int),
{
    let mut s = to_digits(n, radix);
    let mut len = s.as_str().unicode_len();
    while len < width
        invariant
            len == s@.len(),
            zero_padded(digits(n as int, radix as int), width as int) == zero_padded(
                s@,
                width as int,
            ),
        decreases width - len,
    {
        let mut t = String::new();
        t.push('0');
        t.append(s.as_str());
        assert(t@ =~= seq!['0'] + s@);
        s = t;
        len += 1;
    }
    s
}

fn value_of_digit(c: char, radix: u64) -> (v: Option<u64>)
    requires
        2 <= radix <= 36,
    ensures
        match v {
            Some(v) => v == digit_value(c, radix as int) && v < radix,
            None => digit_value(c, radix as int) < 0,
        },
{
    let n: u64 = (c as u32) as u64;
    let v: u64 = if 48 <= n && n <= 57 {
        n - 48
    } else if 97 <= n && n <= 122 {
        n - 87
    } else if 65 <= n && n <= 90 {
        n - 55
    } else {
        return None;
    };
    if v < radix {
        Some(v)
    } else {
        None
    }
}

/// Reads a number that is at most `max`: digits, at least one, after an
/// optional plus sign.
pub fn parse_number(s: &str, radix: u64, max: u64) -> (n: Option<u64>)
    requires
        2 <= radix <= 36,
        max < 0x100_0000_0000_0000,
    ensures
        match n {
            Some(n) => number(s@, radix as int) == Some(n as int) && n <= max,
            None => match number(s@, radix as int) {
                Some(v) => v > max,
                None => true,
            },
        },
{
    let v = chars_of(s);
    let start: usize = if v.len() > 0 && v[0] == '+' {
        1
    } else {
        0
    };
    let ghost body = unsigned_part(s@);
    assert(body =~= v@.skip(start as int));
    if start == v.len() {
        return None;
    }
    let mut i: usize = start;
    let mut acc: u64 = 0;
    assert(body.take(0) =~= Seq::<char>::empty());
    while i < v.len()
        invariant
            2 <= radix <= 36,
            max < 0x100_0000_0000_0000,
            start <= i <= v@.len(),
            body == v@.skip(start as int),
            body == unsigned_part(s@),
            acc <= max,
            acc == value_of(body.take(i - start), radix as int),
            forall|j: int|
                0 <= j < i - start ==> #[trigger] digit_value(body[j], radix as int) >= 0,
        decreases v@.len() - i,
    {
        let ghost k = i - start;
        assert(body[k] == v@[i as int]);
        match value_of_digit(v[i], radix) {
            None => {
                assert(digit_value(body[k], radix as int) < 0);
                return None;
            },
            Some(d) => {
                assert(body.take(k + 1).drop_last() =~= body.take(k));
                assert(acc * radix <= 0x100_0000_0000_0000 * 36) by (nonlinear_arith)
                    requires
                        acc < 0x100_0000_0000_0000,
                        radix <= 36,
                ;
                acc = acc * radix + d;
                if acc > max {
                    proof {
                        if all_digits(body, radix as int) {
                            lemma_value_grows(body, radix as int, k + 1);
                        }
                    }
                    return None;
                }
            },
        }
        i += 1;
    }
    assert(body.take(i - start) =~= body);
    Some(acc)
}

/// A digit is one of `0` to `9`, and from ten on one of the letters from `a` on;
/// a letter counts the same in upper case.
pub proof fn law_digits_have_their_characters(d: int, radix: int)
    requires
        0 <= d < radix <= 36,
    ensures
        d < 10 ==> digit(d) as int == '0' as int + d,
        d >= 10 ==> digit(d) as int == 'a' as int + d - 10,
        digit_value(digit(d), radix) == d,
        d >= 10 ==> digit_value((digit(d) as int - 'a' as int + 'A' as int) as char, radix) == d,
{
}

/// A number is written digit by digit, the most significant first, and without
/// zeros in front.
pub proof fn law_numbers_are_written_in_places(high: int, low: int, radix: int)
    requires
        2 <= radix <= 36,
        0 <= high,
        0 <= low < radix,
    ensures
        digits(high * radix + low, radix) == if high == 0 {
            seq![digit(low)]
        } else {
            digits(high, radix).push(digit(low))
        },
{
    let n = high * radix + low;
    if high == 0 {
        assert(n == low);
    } else {
        assert(n >= radix && n / radix == high && n % radix == low) by (nonlinear_arith)
            requires
                n == high * radix + low,
                high >= 1,
                0 <= low < radix,
                radix >= 2,
        ;
    }
}

/// What is written is read as the same number, with or without a plus sign in
/// front, and however many zeros stand in front of it.
pub proof fn law_written_numbers_are_read(n: int, radix: int, width: int)
    requires
        2 <= radix <= 36,
        0 <= n,
    ensures
        number(digits(n, radix), radix) == Some(n),
        number(seq!['+'] + digits(n, radix), radix) == Some(n),
        number(zero_padded(digits(n, radix), width), radix) == Some(n),
        zero_padded(digits(n, radix), width).len() >= width,
        digits(n, radix).len() >= width ==> zero_padded(digits(n, radix), width) == digits(
            n,
            radix,
        ),
{
    lemma_digits_read_back(n, radix);
    lemma_padding_keeps_value(digits(n, radix), width, radix);
    let s = digits(n, radix);
    assert((seq!['+'] + s).skip(1) =~= s);
}

/// A text is no number where it holds anything but digits behind an optional
/// plus sign, or no digit at all.
pub proof fn law_other_texts_are_no_numbers(s: Seq<char>, i: int)
    ensures
        number(seq![], 10) is None,
        number(seq!['+'], 10) is None,
        0 <= i < s.len() && !('0' <= s[i] <= '9') && !(i == 0 && s[0] == '+') ==> number(s, 10)
            is None,
{
    if 0 <= i < s.len() && !('0' <= s[i] <= '9') && !(i == 0 && s[0] == '+') {
        let body = unsigned_part(s);
        let j = if s[0] == '+' {
            i - 1
        } else {
            i
        };
        assert(body[j] == s[i]);
        assert(digit_value(body[j], 10) < 0);
    }
    assert(seq!['+'].skip(1) =~= Seq::<char>::empty());
}

/// A number that is written is read back in the same radix, with zeros in front
/// and without, unless it is more than is taken.
pub proof fn law_numbers_come_back(
    n: u64,
    radix: u64,
    width: usize,
    max: u64,
    written: String,
    padded: String,
    text: &str,
    wide: &str,
    read: Option<u64>,
    again: Option<u64>,
)
    requires
        2 <= radix <= 36,
        max < 0x100_0000_0000_0000,
        call_ensures(to_digits, (n, radix), written),
        call_ensures(to_padded_digits, (n, radix, width), padded),
        text@ == written@,
        wide@ == padded@,
        call_ensures(parse_number, (text, radix, max), read),
        call_ensures(parse_number, (wide, radix, max), again),
    ensures
        n <= max ==> read == Some(n) && again == Some(n),
        n > max ==> read is None && again is None,
        padded@.len() == if written@.len() < width {
            width as nat
        } else {
            written@.len()
        },
{
    law_written_numbers_are_read(n as int, radix as int, width as int);
    lemma_padded_length(written@, width as int);
}

proof fn lemma_padded_length(s: Seq<char>, width: int)
    ensures
        zero_padded(s, width).len() == if s.len() < width {
            width
        } else {
            s.len() as int
        },
    decreases width - s.len(),
{
    if s.len() < width {
        lemma_padded_length(seq!['0'] + s, width);
    }
}

/// In decimal the last digit is what is left over by ten, and the digits before
/// it are those of the tenth.
pub proof fn law_decimals_are_written_in_tens(
    n: u64,
    written: String,
    tenth: String,
    low: u64,
    digit_of_low: String,
)
    requires
        low == n % 10,
        call_ensures(decimal, (n,), written),
        call_ensures(decimal, (n / 10,), tenth),
        call_ensures(decimal, (low,), digit_of_low),
    ensures
        digit_of_low@ == seq![(48 + low) as char],
        written@ == if n < 10 {
            digit_of_low@
        } else {
            tenth@ + digit_of_low@
        },
{
    law_numbers_are_written_in_places(n as int / 10, n as int % 10, 10);
    law_numbers_are_written_in_places(0, n as int % 10, 10);
    law_digits_have_their_characters(low as int, 10);
    assert(n as int / 10 * 10 + n as int % 10 == n);
}

} // verus!
