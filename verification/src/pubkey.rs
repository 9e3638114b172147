//! A public key in the form in which it is offered to a device.

use rsa::pkcs8::DecodePrivateKey;
use rsa::traits::PublicKeyParts;
use rsa::{BigUint, RsaPrivateKey};
use vstd::arithmetic::div_mod::{
    lemma_fundamental_div_mod, lemma_mod_multiples_vanish, lemma_small_mod,
};
use vstd::arithmetic::mul::{lemma_mul_is_commutative, lemma_mul_is_distributive_sub};
use vstd::arithmetic::power::pow;
use vstd::prelude::*;
use vstd::utf8::encode_utf8;
use crate::auth::{is_private_key, SigningKey};
use crate::le::{from_le32, law_le32_reads_back, le32, read_u32, write_u32};

verus! {

/// How many numbers there are in a word of four bytes.
pub const WORD: u64 = 0x1_0000_0000;

/// The number whose bytes, least significant first, are `bytes`.
pub open spec fn value_le(bytes: Seq<u8>) -> int
    decreases bytes.len(),
{
    if bytes.len() == 0 {
        0
    } else {
        bytes[0] + 256 * value_le(bytes.skip(1))
    }
}

/// The last `len` bytes of `value`, least significant first.
pub open spec fn le_bytes(value: int, len: nat) -> Seq<u8>
    decreases len,
{
    if len == 0 {
        seq![]
    } else {
        seq![(value % 256) as u8] + le_bytes(value / 256, (len - 1) as nat)
    }
}

/// The modulus and the exponent, least significant byte first, of the public
/// key that `RsaPrivateKey::to_public_key` gives for the private key in the
/// PEM text.
pub uninterp spec fn public_parts(pem: Seq<char>) -> Option<(Seq<u8>, Seq<u8>)>;

/// `RsaPrivateKey::to_public_key` gives a modulus and an exponent that depend
/// on the private key alone, for every text that is a private key. They are
/// taken out as bytes, least significant first.
#[verifier::external_body]
fn parts_of(pem: &str) -> (parts: Option<(Vec<u8>, Vec<u8>)>)
    ensures
        match parts {
            Some((n, e)) => public_parts(pem@) == Some((n@, e@)),
            None => public_parts(pem@) is None,
        },
        parts is Some == is_private_key(pem@),
{
    let key = RsaPrivateKey::from_pkcs8_pem(pem).ok()?.to_public_key();
    Some((key.n().to_bytes_le(), key.e().to_bytes_le()))
}

/// The shift and the remainder of `BigUint`: a power of two, modulo a number
/// other than 0. Both are bytes, least significant first.
#[verifier::external_body]
fn power_rest(bits: usize, modulus: &[u8]) -> (rest: Vec<u8>)
    requires
        value_le(modulus@) != 0,
    ensures
        value_le(rest@) == pow(2, bits as nat) % value_le(modulus@),
{
    let power = BigUint::from(1u32) << bits;
    (power % BigUint::from_bytes_le(modulus)).to_bytes_le()
}

proof fn lemma_le_bytes_at(bytes: Seq<u8>, len: nat, i: int)
    requires
        0 <= i < len,
    ensures
        le_bytes(value_le(bytes), len).len() == len,
        le_bytes(value_le(bytes), len)[i] == if i < bytes.len() {
            bytes[i]
        } else {
            0
        },
    decreases len,
{
    reveal_with_fuel(le_bytes, 2);
    let value = value_le(bytes);
    let rest = if bytes.len() > 0 {
        bytes.skip(1)
    } else {
        bytes
    };
    assert(value / 256 == value_le(rest));
    assert(value % 256 == if bytes.len() > 0 {
        bytes[0] as int
    } else {
        0
    });
    if len > 1 {
        lemma_le_bytes_at(
            rest,
            (len - 1) as nat,
            if i > 0 {
                i - 1
            } else {
                0
            },
        );
    }
}

/// The bytes with zeros behind them, or without the last of them, so that
/// they have the given length.
fn fit(bytes: &Vec<u8>, len: usize) -> (out: Vec<u8>)
    ensures
        out@ == le_bytes(value_le(bytes@), len as nat),
        out@.len() == len,
{
    let mut out: Vec<u8> = Vec::new();
    let mut i: usize = 0;
    while i < len
        invariant
            i <= len,
            out@.len() == i,
            forall|j: int|
                0 <= j < i ==> #[trigger] out@[j] == if j < bytes@.len() {
                    bytes@[j]
                } else {
                    0
                },
        decreases len - i,
    {
        if i < bytes.len() {
            out.push(bytes[i]);
        } else {
            out.push(0);
        }
        i += 1;
    }
    proof {
        let want = le_bytes(value_le(bytes@), len as nat);
        if len > 0 {
            lemma_le_bytes_at(bytes@, len as nat, 0);
        }
        assert forall|j: int| 0 <= j < len implies out@[j] == want[j] by {
            lemma_le_bytes_at(bytes@, len as nat, j);
        }
        assert(out@ =~= want);
    }
    out
}

/// Bytes are what the number that they stand for is written as, in as many
/// bytes.
pub proof fn law_bytes_write_back(bytes: Seq<u8>)
    ensures
        le_bytes(value_le(bytes), bytes.len()) == bytes,
{
    let want = le_bytes(value_le(bytes), bytes.len());
    if bytes.len() > 0 {
        lemma_le_bytes_at(bytes, bytes.len(), 0);
    }
    assert forall|j: int| 0 <= j < bytes.len() implies want[j] == bytes[j] by {
        lemma_le_bytes_at(bytes, bytes.len(), j);
    }
    assert(want =~= bytes);
}

proof fn lemma_low_word(value: int)
    requires
        value >= 0,
    ensures
        from_le32(le_bytes(value, 4)) == value % WORD as int,
{
    reveal(from_le32);
    reveal_with_fuel(le_bytes, 5);
    let s = le_bytes(value, 4);
    let b = value / 256;
    let c = b / 256;
    let d = c / 256;
    assert(s =~= seq![
        (value % 256) as u8,
        (b % 256) as u8,
        (c % 256) as u8,
        (d % 256) as u8,
    ]);
    assert(value == 256 * b + value % 256);
    assert(b == 256 * c + b % 256);
    assert(c == 256 * d + c % 256);
    assert(d == 256 * (d / 256) + d % 256);
}

proof fn lemma_value_nonnegative(bytes: Seq<u8>)
    ensures
        value_le(bytes) >= 0,
    decreases bytes.len(),
{
    if bytes.len() > 0 {
        lemma_value_nonnegative(bytes.skip(1));
    }
}

/// The number that the bytes are, modulo the numbers of a word.
fn low_word(bytes: &Vec<u8>) -> (low: u32)
    ensures
        low == value_le(bytes@) % WORD as int,
{
    let low = fit(bytes, 4);
    proof {
        lemma_value_nonnegative(bytes@);
        lemma_low_word(value_le(bytes@));
        assert(low@.subrange(0, 4) =~= low@);
    }
    read_u32(low.as_slice(), 0)
}

/// Whether `x` times `n` is one less than a multiple of the numbers of a word.
pub open spec fn is_negative_inverse(x: u32, n: int) -> bool {
    (x * n) % (WORD as int) == WORD - 1
}

/// The negative inverse of `n` modulo the numbers of a word; an odd number has
/// one, and only one.
pub open spec fn negative_inverse(n: int) -> u32 {
    choose|x: u32| is_negative_inverse(x, n)
}

/// A number has at most one negative inverse.
pub proof fn law_negative_inverse_is_unique(x: u32, y: u32, n: int)
    requires
        is_negative_inverse(x, n),
        is_negative_inverse(y, n),
    ensures
        x == y,
{
    let w: int = 0x1_0000_0000;
    let a = (x * n) / w;
    let b = (y * n) / w;
    lemma_fundamental_div_mod(x * n, w);
    lemma_fundamental_div_mod(y * n, w);
    lemma_swap(x as int, y as int, n);
    lemma_spread(x as int, w, b, w - 1);
    lemma_spread(y as int, w, a, w - 1);
    assert(x - y == w * (x * b + x - y * a - y));
}

proof fn lemma_swap(x: int, y: int, n: int)
    ensures
        x * (y * n) == y * (x * n),
{
    assert(x * (y * n) == y * (x * n)) by (nonlinear_arith);
}

proof fn lemma_spread(x: int, w: int, a: int, b: int)
    ensures
        x * (w * a + b) == w * (x * a) + x * b,
{
    assert(x * (w * a + b) == x * (w * a) + x * b) by (nonlinear_arith);
    assert(x * (w * a) == w * (x * a)) by (nonlinear_arith);
}

proof fn lemma_better_inverse(n: int, x: int, m: int, d: int, next: int, c: int)
    requires
        m >= 2,
        (n * x) % m == 1,
        m * m * d == WORD,
        next == x * (2 - n * x) + c * WORD,
    ensures
        (n * next) % (m * m) == 1,
{
    let k = (n * x) / m;
    lemma_fundamental_div_mod(n * x, m);
    let f = n * c * d - k * k;
    let p = n * x;
    let u = m * k;
    assert(n * (x * (2 - p) + c * WORD) == n * (x * (2 - p)) + n * (c * WORD)) by (nonlinear_arith);
    assert(n * (x * (2 - p)) == (n * x) * (2 - p)) by (nonlinear_arith);
    assert((u + 1) * (1 - u) == 1 - u * u) by (nonlinear_arith);
    assert((m * k) * (m * k) == (m * m) * (k * k)) by (nonlinear_arith);
    assert(n * (c * (m * m * d)) == (m * m) * (n * c * d)) by (nonlinear_arith);
    lemma_mul_is_distributive_sub(m * m, n * c * d, k * k);
    assert(m * m > 1) by (nonlinear_arith)
        requires
            m >= 2,
    ;
    lemma_small_mod(1, (m * m) as nat);
    lemma_mod_multiples_vanish(f, 1, m * m);
}

/// An inverse modulo the square of the number that `x` is an inverse modulo.
fn better_inverse(n: u32, x: u32, Ghost(m): Ghost<int>, Ghost(d): Ghost<int>) -> (next: u32)
    requires
        m >= 2,
        (n * x) % m == 1,
        m * m * d == WORD,
    ensures
        (n * next) % (m * m) == 1,
{
    let w = WORD;
    assert(n * x <= 0xffff_fffe_0000_0001) by (nonlinear_arith)
        requires
            n <= 0xffff_ffff,
            x <= 0xffff_ffff,
    ;
    let product: u64 = n as u64 * x as u64;
    let p: u64 = product % w;
    let t: u64 = (w + 2 - p) % w;
    assert(x * t <= 0xffff_fffe_0000_0001) by (nonlinear_arith)
        requires
            t <= 0xffff_ffff,
            x <= 0xffff_ffff,
    ;
    let scaled: u64 = x as u64 * t;
    let next: u64 = scaled % w;
    proof {
        let wi: int = 0x1_0000_0000;
        let q = product as int / wi;
        let r = (w + 2 - p) / wi;
        let s = scaled as int / wi;
        let g = q + 1 - r;
        let c = x * g - s;
        lemma_fundamental_div_mod(product as int, wi);
        lemma_fundamental_div_mod(w + 2 - p, wi);
        lemma_fundamental_div_mod(scaled as int, wi);
        assert(t == wi * g + (2 - n * x));
        lemma_spread(x as int, wi, g, 2 - n * x);
        assert(next == x * (2 - n * x) + c * wi);
        lemma_better_inverse(n as int, x as int, m, d, next as int, c);
    }
    next as u32
}

/// The negative inverse of an odd number of which `n` is the last word.
fn negated_inverse(n: u32) -> (x: u32)
    requires
        n % 2 == 1,
    ensures
        is_negative_inverse(x, n as int),
{
    let two = better_inverse(n, 1, Ghost(2), Ghost(0x4000_0000));
    let four = better_inverse(n, two, Ghost(4), Ghost(0x1000_0000));
    let eight = better_inverse(n, four, Ghost(16), Ghost(0x100_0000));
    let sixteen = better_inverse(n, eight, Ghost(256), Ghost(0x1_0000));
    let whole = better_inverse(n, sixteen, Ghost(0x1_0000), Ghost(1));
    proof {
        let w: int = 0x1_0000_0000;
        assert((n * whole) % w == 1);
        assert(whole != 0);
        let k = (n * whole) / w;
        lemma_fundamental_div_mod(n * whole, w);
        lemma_mul_is_distributive_sub(n as int, w, whole as int);
        lemma_mul_is_commutative(n as int, w - whole);
        assert((w - whole) * n == w * (n - k - 1) + (w - 1));
        lemma_mod_multiples_vanish(n - k - 1, w - 1, w);
    }
    (WORD - whole as u64) as u32
}

proof fn lemma_inverse_of_low_word(x: u32, low: u32, value: int)
    requires
        low == value % WORD as int,
        is_negative_inverse(x, low as int),
    ensures
        is_negative_inverse(x, value),
        negative_inverse(value) == x,
{
    let w = WORD as int;
    let h = value / w;
    lemma_fundamental_div_mod(value, w);
    lemma_spread(x as int, w, h, low as int);
    lemma_mod_multiples_vanish(x * h, x * low, w);
    assert((x * value) % w == (x * low) % w);
    assert(is_negative_inverse(x, value));
    law_negative_inverse_is_unique(negative_inverse(value), x, value);
}

/// The record of a public key: the length of the modulus in words, the
/// negative inverse of the modulus, the modulus, the square of the power of
/// 256 above the modulus modulo the modulus, and the exponent.
pub open spec fn key_record(modulus: Seq<u8>, exponent: int) -> Seq<u8> {
    let n = value_le(modulus);
    le32((modulus.len() / 4 % 0x1_0000_0000) as u32) + le32(negative_inverse(n)) + modulus
        + le_bytes(pow(2, 16 * modulus.len()) % n, modulus.len()) + le32(exponent as u32)
}

/// Whether a public key can be offered: its modulus is odd, its exponent is a
/// word, and the number of the bits of the record's largest power is a
/// `usize`.
pub open spec fn can_be_offered(modulus: Seq<u8>, exponent: Seq<u8>) -> bool {
    value_le(modulus) % 2 == 1 && value_le(exponent) < WORD && 16 * modulus.len() <= usize::MAX
}

/// What is offered to a device: the record as text, and a name that the user
/// of the device is shown.
pub open spec fn offered_key(
    modulus: Seq<u8>,
    exponent: Seq<u8>,
    name: Seq<char>,
) -> Option<Seq<u8>> {
    if can_be_offered(modulus, exponent) {
        Some(
            encode_utf8(base64(key_record(modulus, value_le(exponent))) + " "@ + name),
        )
    } else {
        None
    }
}

/// What is offered to a device with the private key in the PEM text.
pub open spec fn offered_with(pem: Seq<char>, name: Seq<char>) -> Option<Seq<u8>> {
    match public_parts(pem) {
        Some((modulus, exponent)) => offered_key(modulus, exponent, name),
        None => None,
    }
}

proof fn lemma_high_bytes(bytes: Seq<u8>, i: int)
    requires
        4 <= i < bytes.len(),
        bytes[i] != 0,
    ensures
        value_le(bytes) >= WORD,
{
    reveal_with_fuel(value_le, 5);
    let high = bytes.skip(1).skip(1).skip(1).skip(1);
    assert(high[i - 4] == bytes[i]);
    lemma_positive(high, i - 4);
}

proof fn lemma_positive(bytes: Seq<u8>, i: int)
    requires
        0 <= i < bytes.len(),
        bytes[i] != 0,
    ensures
        value_le(bytes) > 0,
    decreases i,
{
    lemma_value_nonnegative(bytes.skip(1));
    if i > 0 {
        assert(bytes.skip(1)[i - 1] == bytes[i]);
        lemma_positive(bytes.skip(1), i - 1);
    }
}

proof fn lemma_zeros(bytes: Seq<u8>)
    requires
        forall|i: int| 0 <= i < bytes.len() ==> bytes[i] == 0,
    ensures
        value_le(bytes) == 0,
    decreases bytes.len(),
{
    if bytes.len() > 0 {
        assert forall|i: int| 0 <= i < bytes.len() - 1 implies bytes.skip(1)[i] == 0 by {
            assert(bytes[i + 1] == 0);
        }
        lemma_zeros(bytes.skip(1));
    }
}

proof fn lemma_short(bytes: Seq<u8>)
    requires
        forall|i: int| 4 <= i < bytes.len() ==> bytes[i] == 0,
    ensures
        0 <= value_le(bytes) < WORD,
{
    reveal_with_fuel(value_le, 5);
    lemma_value_nonnegative(bytes);
    if bytes.len() > 4 {
        let high = bytes.skip(1).skip(1).skip(1).skip(1);
        assert forall|i: int| 0 <= i < high.len() implies high[i] == 0 by {
            assert(high[i] == bytes[i + 4]);
        }
        lemma_zeros(high);
    }
}

/// The number that the bytes are, if it is a word.
fn word_of(bytes: &Vec<u8>) -> (word: Option<u32>)
    ensures
        match word {
            Some(w) => value_le(bytes@) == w,
            None => value_le(bytes@) >= WORD,
        },
{
    let mut i: usize = 4;
    while i < bytes.len()
        invariant
            4 <= i,
            forall|j: int| 4 <= j < i && j < bytes@.len() ==> bytes@[j] == 0,
        decreases bytes@.len() - i,
    {
        if bytes[i] != 0 {
            proof {
                lemma_high_bytes(bytes@, i as int);
            }
            return None;
        }
        i += 1;
    }
    proof {
        lemma_short(bytes@);
    }
    Some(low_word(bytes))
}

proof fn lemma_parity(value: int)
    ensures
        value % (WORD as int) % 2 == value % 2,
{
}

/// Whether the number that the bytes are is odd.
fn is_odd(bytes: &Vec<u8>) -> (odd: bool)
    ensures
        odd == (value_le(bytes@) % 2 == 1),
{
    proof {
        lemma_parity(value_le(bytes@));
    }
    low_word(bytes) % 2 == 1
}

/// The negative inverse of the odd number that the bytes are.
fn inverse_of(modulus: &Vec<u8>) -> (inverse: u32)
    requires
        value_le(modulus@) % 2 == 1,
    ensures
        inverse == negative_inverse(value_le(modulus@)),
{
    let low = low_word(modulus);
    proof {
        lemma_parity(value_le(modulus@));
    }
    let inverse = negated_inverse(low);
    proof {
        lemma_inverse_of_low_word(inverse, low, value_le(modulus@));
    }
    inverse
}

/// The square of the power of 256 above the modulus, modulo the modulus, in as
/// many bytes as the modulus has.
fn square_of(modulus: &Vec<u8>) -> (square: Vec<u8>)
    requires
        value_le(modulus@) % 2 == 1,
        16 * modulus@.len() <= usize::MAX,
    ensures
        square@ == le_bytes(
            pow(2, 16 * modulus@.len()) % value_le(modulus@),
            modulus@.len(),
        ),
{
    let size = modulus.len();
    let square = power_rest(16 * size, modulus.as_slice());
    fit(&square, size)
}

/// The record of a public key.
fn record_of(modulus: &Vec<u8>, exponent: u32) -> (record: Vec<u8>)
    requires
        value_le(modulus@) % 2 == 1,
        16 * modulus@.len() <= usize::MAX,
    ensures
        record@ == key_record(modulus@, exponent as int),
{
    let words: u32 = ((modulus.len() / 4) as u64 % 0x1_0000_0000) as u32;
    let mut record = write_u32(words);
    let mut inverse = write_u32(inverse_of(modulus));
    let mut square = square_of(modulus);
    let mut modulus = vstd::slice::slice_to_vec(modulus.as_slice());
    let mut exponent = write_u32(exponent);
    record.append(&mut inverse);
    record.append(&mut modulus);
    record.append(&mut square);
    record.append(&mut exponent);
    record
}

/// The public key with this modulus and exponent, least significant byte
/// first, as it is offered to a device under a name.
pub fn encode_public_key(modulus: &Vec<u8>, exponent: &Vec<u8>, name: &str) -> (key: Option<
    Vec<u8>,
>)
    ensures
        match key {
            Some(bytes) => offered_key(modulus@, exponent@, name@) == Some(bytes@),
            None => offered_key(modulus@, exponent@, name@) is None,
        },
{
    if !is_odd(modulus) || modulus.len() > usize::MAX / 16 {
        return None;
    }
    let exponent = match word_of(exponent) {
        Some(exponent) => exponent,
        None => {
            return None;
        },
    };
    let record = record_of(modulus, exponent);
    let mut text = to_base64(&record);
    text.append(" ");
    text.append(name);
    Some(text.as_str().as_bytes_vec())
}

impl SigningKey {
    /// The public key that belongs to this key, as it is offered to a device
    /// under a name.
    pub fn public_key(&self, name: &str) -> (key: Option<Vec<u8>>)
        ensures
            match key {
                Some(bytes) => offered_with(self.pem@, name@) == Some(bytes@),
                None => offered_with(self.pem@, name@) is None,
            },
            !self.wf() ==> key is None,
    {
        match parts_of(self.pem.as_str()) {
            Some((modulus, exponent)) => encode_public_key(&modulus, &exponent, name),
            None => None,
        }
    }
}

/// An odd number has a negative inverse: the one that a record tells.
pub proof fn law_odd_numbers_have_a_negative_inverse(n: int)
    requires
        n % 2 == 1,
    ensures
        is_negative_inverse(negative_inverse(n), n),
{
    let w: int = 0x1_0000_0000;
    let a = 2 - n;
    let b = a * (2 - n * a);
    let c = b * (2 - n * b);
    let d = c * (2 - n * c);
    let e = d * (2 - n * d);
    assert(n * 1 == n) by (nonlinear_arith);
    assert(1 * (2 - n * 1) == a) by (nonlinear_arith)
        requires
            a == 2 - n,
    ;
    lemma_better_inverse(n, 1, 2, 0x4000_0000, a, 0);
    lemma_better_inverse(n, a, 4, 0x1000_0000, b, 0);
    lemma_better_inverse(n, b, 16, 0x100_0000, c, 0);
    lemma_better_inverse(n, c, 256, 0x1_0000, d, 0);
    lemma_better_inverse(n, d, 0x1_0000, 1, e, 0);
    let x = (-e) % w;
    let k = (n * e) / w;
    let h = (-e) / w;
    lemma_fundamental_div_mod(n * e, w);
    lemma_fundamental_div_mod(-e, w);
    lemma_spread(n, w, h, x);
    lemma_mul_is_commutative(n, x);
    assert(n * (-e) == -(n * e)) by (nonlinear_arith);
    assert(x * n == w * (-k - 1 - n * h) + (w - 1));
    lemma_mod_multiples_vanish(-k - 1 - n * h, w - 1, w);
    assert(is_negative_inverse(x as u32, n));
}

/// The character that stands for six bits.
pub open spec fn char_64(v: int) -> char {
    if v < 26 {
        (65 + v) as char
    } else if v < 52 {
        (71 + v) as char
    } else if v < 62 {
        (v - 4) as char
    } else if v == 62 {
        '+'
    } else {
        '/'
    }
}

/// The bytes as text: six bits to a character, and `=` up to a multiple of
/// four.
pub open spec fn base64(bytes: Seq<u8>) -> Seq<char>
    decreases bytes.len(),
{
    if bytes.len() == 0 {
        seq![]
    } else {
        let a = bytes[0] as int;
        let b = if bytes.len() > 1 {
            bytes[1] as int
        } else {
            0
        };
        let c = if bytes.len() > 2 {
            bytes[2] as int
        } else {
            0
        };
        let group = seq![
            char_64(a / 4),
            char_64(a % 4 * 16 + b / 16),
            if bytes.len() > 1 {
                char_64(b % 16 * 4 + c / 64)
            } else {
                '='
            },
            if bytes.len() > 2 {
                char_64(c % 64)
            } else {
                '='
            },
        ];
        if bytes.len() > 3 {
            group + base64(bytes.skip(3))
        } else {
            group
        }
    }
}

fn to_char_64(v: u8) -> (c: char)
    requires
        v < 64,
    ensures
        c == char_64(v as int),
{
    if v < 26 {
        (65 + v) as char
    } else if v < 52 {
        (71 + v) as char
    } else if v < 62 {
        (v - 4) as char
    } else if v == 62 {
        '+'
    } else {
        '/'
    }
}

/// The bytes as text.
pub fn to_base64(bytes: &Vec<u8>) -> (text: String)
    ensures
        text@ == base64(bytes@),
{
    let mut text = String::new();
    let mut i: usize = 0;
    assert(bytes@.skip(0) =~= bytes@);
    assert(text@ + base64(bytes@.skip(0)) =~= base64(bytes@));
    while i < bytes.len()
        invariant
            i <= bytes@.len(),
            text@ + base64(bytes@.skip(i as int)) == base64(bytes@),
        decreases bytes@.len() - i,
    {
        let ghost before = text@;
        let ghost rest = bytes@.skip(i as int);
        let left: usize = bytes.len() - i;
        let a: u8 = bytes[i];
        let b: u8 = if left > 1 {
            bytes[i + 1]
        } else {
            0
        };
        let c: u8 = if left > 2 {
            bytes[i + 2]
        } else {
            0
        };
        text.push(to_char_64(a / 4));
        text.push(to_char_64(a % 4 * 16 + b / 16));
        if left > 1 {
            text.push(to_char_64(b % 16 * 4 + c / 64));
        } else {
            text.push('=');
        }
        if left > 2 {
            text.push(to_char_64(c % 64));
        } else {
            text.push('=');
        }
        let ghost group = text@.skip(before.len() as int);
        let next: usize = if left > 3 {
            i + 3
        } else {
            bytes.len()
        };
        proof {
            assert(text@ =~= before + group);
            if left > 3 {
                assert(rest.skip(3) =~= bytes@.skip(next as int));
                assert(base64(rest) =~= group + base64(rest.skip(3)));
                assert(text@ + base64(rest.skip(3)) =~= before + base64(rest));
            } else {
                assert(base64(rest) =~= group);
                assert(bytes@.skip(next as int) =~= seq![]);
                assert(text@ + base64(bytes@.skip(next as int)) =~= before + base64(rest));
            }
        }
        i = next;
    }
    assert(bytes@.skip(i as int) =~= seq![]);
    assert(text@ + base64(bytes@.skip(i as int)) =~= text@);
    text
}

/// The characters that stand for six bits, in their order.
pub open spec fn alphabet() -> Seq<char> {
    "ABCDEFGHIJKLMNOPQRSTUVWXYZabcdefghijklmnopqrstuvwxyz0123456789+/"@
}

proof fn lemma_alphabet(v: int)
    requires
        0 <= v < 64,
    ensures
        alphabet().len() == 64,
        char_64(v) == alphabet()[v],
{
    reveal_strlit("ABCDEFGHIJKLMNOPQRSTUVWXYZabcdefghijklmnopqrstuvwxyz0123456789+/");
}

/// Three bytes become four characters that stand for the same bits; two bytes
/// become three characters and a `=`, one becomes two and two `=`.
pub proof fn law_bits_become_characters(
    three: &Vec<u8>,
    two: &Vec<u8>,
    one: &Vec<u8>,
    s: String,
    t: String,
    u: String,
)
    requires
        three@.len() == 3,
        two@.len() == 2,
        one@.len() == 1,
        call_ensures(to_base64, (three,), s),
        call_ensures(to_base64, (two,), t),
        call_ensures(to_base64, (one,), u),
    ensures
        s@.len() == 4 && t@.len() == 4 && u@.len() == 4,
        exists|a: int, b: int, c: int, d: int|
            s@[0] == #[trigger] alphabet()[a] && s@[1] == #[trigger] alphabet()[b] && s@[2]
                == #[trigger] alphabet()[c] && s@[3] == #[trigger] alphabet()[d] && 0 <= a < 64 && 0
                <= b < 64 && 0 <= c < 64 && 0 <= d < 64 && 0x4_0000 * a + 0x1000 * b + 0x40 * c + d
                == 0x1_0000 * three@[0] + 0x100 * three@[1] + three@[2],
        t@[3] == '=',
        exists|a: int, b: int, c: int|
            t@[0] == #[trigger] alphabet()[a] && t@[1] == #[trigger] alphabet()[b] && t@[2]
                == #[trigger] alphabet()[c] && 0 <= a < 64 && 0 <= b < 64 && 0 <= c < 64 && 0x1000
                * a + 0x40 * b + c == 4 * (0x100 * two@[0] + two@[1]),
        u@[2] == '=' && u@[3] == '=',
        exists|a: int, b: int|
            u@[0] == #[trigger] alphabet()[a] && u@[1] == #[trigger] alphabet()[b] && 0 <= a < 64
                && 0 <= b < 64 && 0x40 * a + b == 0x10 * one@[0],
{
    let (x, y, z) = (three@[0] as int, three@[1] as int, three@[2] as int);
    lemma_alphabet(x / 4);
    lemma_alphabet(x % 4 * 16 + y / 16);
    lemma_alphabet(y % 16 * 4 + z / 64);
    lemma_alphabet(z % 64);
    let (p, q) = (two@[0] as int, two@[1] as int);
    lemma_alphabet(p / 4);
    lemma_alphabet(p % 4 * 16 + q / 16);
    lemma_alphabet(q % 16 * 4);
    let r = one@[0] as int;
    lemma_alphabet(r / 4);
    lemma_alphabet(r % 4 * 16);
    assert(s@[0] == alphabet()[x / 4] && s@[1] == alphabet()[x % 4 * 16 + y / 16] && s@[2]
        == alphabet()[y % 16 * 4 + z / 64] && s@[3] == alphabet()[z % 64]);
    assert(t@[0] == alphabet()[p / 4] && t@[1] == alphabet()[p % 4 * 16 + q / 16] && t@[2]
        == alphabet()[q % 16 * 4]);
    assert(u@[0] == alphabet()[r / 4] && u@[1] == alphabet()[r % 4 * 16]);
}

/// Each three bytes become text by themselves, whatever follows them.
pub proof fn law_bytes_become_text_by_threes(
    front: &Vec<u8>,
    rest: &Vec<u8>,
    whole: &Vec<u8>,
    s: String,
    t: String,
    u: String,
)
    requires
        front@.len() == 3,
        whole@ == front@ + rest@,
        call_ensures(to_base64, (front,), s),
        call_ensures(to_base64, (rest,), t),
        call_ensures(to_base64, (whole,), u),
    ensures
        u@ == s@ + t@,
        rest@.len() == 0 ==> t@.len() == 0,
{
    if rest@.len() == 0 {
        assert(whole@ =~= front@);
        assert(rest@ =~= seq![]);
    } else {
        assert(whole@.skip(3) =~= rest@);
    }
    assert(u@ =~= s@ + t@);
}

proof fn lemma_le_bytes_length(value: int, len: nat)
    ensures
        le_bytes(value, len).len() == len,
    decreases len,
{
    if len > 0 {
        lemma_le_bytes_length(value / 256, (len - 1) as nat);
    }
}

/// A number below the power of 256 is read back from its bytes.
pub proof fn law_numbers_read_back(value: int, len: nat)
    requires
        0 <= value < pow(256, len),
    ensures
        value_le(le_bytes(value, len)) == value,
    decreases len,
{
    reveal(pow);
    if len > 0 {
        let less = (len - 1) as nat;
        let p = pow(256, less);
        assert(pow(256, len) == 256 * p);
        assert(value / 256 < p);
        law_numbers_read_back(value / 256, less);
        assert(le_bytes(value, len).skip(1) =~= le_bytes(value / 256, less));
    } else {
        assert(pow(256, 0) == 1);
    }
}

proof fn lemma_value_below_power(bytes: Seq<u8>)
    ensures
        0 <= value_le(bytes) < pow(256, bytes.len()),
    decreases bytes.len(),
{
    reveal(pow);
    if bytes.len() > 0 {
        lemma_value_below_power(bytes.skip(1));
        assert(pow(256, bytes.len()) == 256 * pow(256, (bytes.len() - 1) as nat));
    } else {
        assert(pow(256, 0) == 1);
    }
}

/// Where each part of the record of a public key stands, and what it says.
pub proof fn law_records_hold_the_key(modulus: Seq<u8>, exponent: int)
    requires
        value_le(modulus) % 2 == 1,
        modulus.len() < WORD,
        0 <= exponent < WORD,
    ensures
        ({
            let r = key_record(modulus, exponent);
            let k = modulus.len() as int;
            let n = value_le(modulus);
            &&& r.len() == 12 + 2 * k
            &&& from_le32(r.subrange(0, 4)) == k / 4
            &&& (from_le32(r.subrange(4, 8)) * n + 1) % 0x1_0000_0000 == 0
            &&& r.subrange(8, 8 + k) == modulus
            &&& value_le(r.subrange(8 + k, 8 + 2 * k)) == pow(2, (16 * k) as nat) % n
            &&& from_le32(r.subrange(8 + 2 * k, 12 + 2 * k)) == exponent
        }),
{
    let r = key_record(modulus, exponent);
    let k = modulus.len() as int;
    let n = value_le(modulus);
    let words = (modulus.len() / 4 % 0x1_0000_0000) as u32;
    let rest = pow(2, 16 * modulus.len()) % n;
    let square = le_bytes(rest, modulus.len());
    lemma_value_below_power(modulus);
    assert(0 <= rest < n);
    law_numbers_read_back(rest, modulus.len());
    lemma_le_bytes_length(rest, modulus.len());
    law_le32_reads_back(words);
    law_le32_reads_back(negative_inverse(n));
    law_le32_reads_back(exponent as u32);
    assert(le32(words).len() == 4 && le32(negative_inverse(n)).len() == 4 && le32(
        exponent as u32,
    ).len() == 4);
    assert(r.subrange(0, 4) =~= le32(words));
    assert(r.subrange(4, 8) =~= le32(negative_inverse(n)));
    assert(r.subrange(8, 8 + k) =~= modulus);
    assert(r.subrange(8 + k, 8 + 2 * k) =~= square);
    assert(r.subrange(8 + 2 * k, 12 + 2 * k) =~= le32(exponent as u32));
    law_odd_numbers_have_a_negative_inverse(n);
    let x = negative_inverse(n);
    lemma_fundamental_div_mod(x * n, 0x1_0000_0000);
    let q = (x * n) / 0x1_0000_0000;
    assert(x * n + 1 == 0x1_0000_0000 * (q + 1));
}

/// A public key can be offered exactly if its modulus is odd and its exponent is
/// a word; then it is a record as text, a space, and the name.
pub proof fn law_keys_are_offered_under_a_name(
    modulus: &Vec<u8>,
    exponent: &Vec<u8>,
    name: &str,
    record: &Vec<u8>,
    text: String,
    key: Option<Vec<u8>>,
)
    requires
        16 * modulus@.len() <= usize::MAX,
        call_ensures(encode_public_key, (modulus, exponent, name), key),
        record@ == key_record(modulus@, value_le(exponent@)),
        call_ensures(to_base64, (record,), text),
    ensures
        key is Some <==> value_le(modulus@) % 2 == 1 && value_le(exponent@) < 0x1_0000_0000,
        key matches Some(bytes) ==> bytes@ == encode_utf8(text@ + seq![' '] + name@),
{
    reveal_strlit(" ");
    assert(" "@ =~= seq![' ']);
}

/// The key that is offered is the one whose modulus and exponent belong to the
/// private key.
pub proof fn law_the_offered_key_is_the_keys_own(
    signer: &SigningKey,
    modulus: &Vec<u8>,
    exponent: &Vec<u8>,
    name: &str,
    key: Option<Vec<u8>>,
    same: Option<Vec<u8>>,
)
    requires
        public_parts(signer.pem@) == Some((modulus@, exponent@)),
        call_ensures(encode_public_key, (modulus, exponent, name), same),
        call_ensures(SigningKey::public_key, (signer, name), key),
    ensures
        key is Some == same is Some,
        key matches Some(bytes) ==> bytes@ == same->0@,
{
}

} // verus!
