use vstd::prelude::*;
use vstd::string::StringExecFns;

verus! {

/// Ten to the power `k`.
pub open spec fn pow10(k: nat) -> nat
    decreases k,
{
    if k == 0 {
        1
    } else {
        10 * pow10((k - 1) as nat)
    }
}

/// The text of one decimal digit.
pub open spec fn digit_text(d: nat) -> Seq<char> {
    if d == 0 {
        "0"@
    } else if d == 1 {
        "1"@
    } else if d == 2 {
        "2"@
    } else if d == 3 {
        "3"@
    } else if d == 4 {
        "4"@
    } else if d == 5 {
        "5"@
    } else if d == 6 {
        "6"@
    } else if d == 7 {
        "7"@
    } else if d == 8 {
        "8"@
    } else {
        "9"@
    }
}

/// `n` written in decimal, without leading zeros (zero is written `0`).
pub open spec fn decimal(n: nat) -> Seq<char>
    decreases n,
{
    if n < 10 {
        digit_text(n)
    } else {
        decimal(n / 10) + digit_text(n % 10)
    }
}

/// The last three decimal digits of `m`, zero-padded.
pub open spec fn three_digits(m: nat) -> Seq<char> {
    digit_text((m / 100) % 10) + digit_text((m / 10) % 10) + digit_text(m % 10)
}

/// `n` in decimal with a comma between each group of three digits.
pub open spec fn grouped(n: nat) -> Seq<char>
    decreases n,
{
    if n < 1000 {
        decimal(n)
    } else {
        grouped(n / 1000) + ","@ + three_digits(n % 1000)
    }
}

/// The decimal digits of `n`, least significant first.
pub open spec fn digits_le(n: u64) -> Seq<u64>
    decreases n,
{
    if n < 10 {
        seq![n]
    } else {
        seq![n % 10] + digits_le(n / 10)
    }
}

/// A sequence that reads the same in both directions.
pub open spec fn is_palindrome_seq(s: Seq<u64>) -> bool {
    forall|i: int| 0 <= i < s.len() ==> #[trigger] s[i] == s[s.len() - 1 - i]
}

/// Whether `b` is the ASCII code of a decimal digit.
pub open spec fn is_ascii_digit(b: u8) -> bool {
    48 <= b <= 57
}

/// The number that a run of ASCII digits spells.
pub open spec fn digits_value(s: Seq<u8>) -> nat
    decreases s.len(),
{
    if s.len() == 0 {
        0
    } else {
        digits_value(s.drop_last()) * 10 + (s.last() - 48) as nat
    }
}

/// The digits of a number's text: all of it, or what follows a leading `+`.
pub open spec fn unsigned_body(b: Seq<u8>) -> Seq<u8> {
    if b.len() > 0 && b[0] == 43 {
        b.drop_first()
    } else {
        b
    }
}

/// Whether `b` is an optional `+` followed by at least one ASCII digit and nothing else.
pub open spec fn is_unsigned_text(b: Seq<u8>) -> bool {
    let d = unsigned_body(b);
    d.len() > 0 && (forall|i: int| 0 <= i < d.len() ==> is_ascii_digit(#[trigger] d[i]))
}

/// The `u64` that `b` spells, if it is unsigned text with a value that fits.
pub open spec fn parse_u64(b: Seq<u8>) -> Option<u64> {
    if is_unsigned_text(b) && digits_value(unsigned_body(b)) <= u64::MAX {
        Some(digits_value(unsigned_body(b)) as u64)
    } else {
        None
    }
}

/// The `u128` that `b` spells, if it is unsigned text with a value that fits.
pub open spec fn parse_u128(b: Seq<u8>) -> Option<u128> {
    if is_unsigned_text(b) && digits_value(unsigned_body(b)) <= u128::MAX {
        Some(digits_value(unsigned_body(b)) as u128)
    } else {
        None
    }
}

/// `n / d` rounded to the nearest whole number, a tie going to the even one, as
/// fixed-precision formatting rounds.
pub open spec fn round_div(n: nat, d: nat) -> nat
    recommends
        d > 0,
{
    let q = n / d;
    let r = n % d;
    if 2 * r > d || (2 * r == d && q % 2 == 1) {
        q + 1
    } else {
        q
    }
}

/// Whether `c` is a lower-case hexadecimal digit.
pub open spec fn is_lower_hex_digit(c: char) -> bool {
    ('0' <= c && c <= '9') || ('a' <= c && c <= 'f')
}

/// What a SHA-512 digest of the UTF-8 text `s` shows as hex.
pub uninterp spec fn sha512_hex_of(s: Seq<char>) -> Seq<char>;

pub(crate) fn digit_str(d: u128) -> (r: &'static str)
    requires
        d < 10,
    ensures
        r@ == digit_text(d as nat),
{
    if d == 0 {
        "0"
    } else if d == 1 {
        "1"
    } else if d == 2 {
        "2"
    } else if d == 3 {
        "3"
    } else if d == 4 {
        "4"
    } else if d == 5 {
        "5"
    } else if d == 6 {
        "6"
    } else if d == 7 {
        "7"
    } else if d == 8 {
        "8"
    } else {
        "9"
    }
}

/// `n / d` rounded to the nearest whole number, a tie going to the even one.
pub fn rounded_div(n: u128, d: u128) -> (r: u128)
    requires
        d > 0,
    ensures
        r as nat == round_div(n as nat, d as nat),
{
    let q = n / d;
    let rem = n % d;
    if rem > d - rem || (rem == d - rem && q % 2 == 1) {
        proof {
            vstd::arithmetic::div_mod::lemma_fundamental_div_mod(n as int, d as int);
            assert(2 * q <= q * d) by (nonlinear_arith)
                requires
                    d >= 2,
            ;
        }
        q + 1
    } else {
        q
    }
}

/// Appends `n` in decimal.
pub fn push_decimal(s: &mut String, n: u128)
    ensures
        final(s)@ == old(s)@ + decimal(n as nat),
    decreases n,
{
    if n >= 10 {
        push_decimal(s, n / 10);
    }
    s.append(digit_str(n % 10));
    proof {
        if n >= 10 {
            assert(old(s)@ + decimal((n / 10) as nat) + digit_text((n % 10) as nat) =~= old(s)@
                + decimal(n as nat));
        }
    }
}

fn push_three_digits(s: &mut String, m: u128)
    ensures
        final(s)@ == old(s)@ + three_digits(m as nat),
{
    s.append(digit_str((m / 100) % 10));
    s.append(digit_str((m / 10) % 10));
    s.append(digit_str(m % 10));
    assert(final(s)@ =~= old(s)@ + three_digits(m as nat));
}

/// Appends `n` with its digits grouped by three.
pub fn push_grouped(s: &mut String, n: u128)
    ensures
        final(s)@ == old(s)@ + grouped(n as nat),
    decreases n,
{
    if n < 1000 {
        push_decimal(s, n);
    } else {
        push_grouped(s, n / 1000);
        s.append(",");
        push_three_digits(s, n % 1000);
        assert(final(s)@ =~= old(s)@ + grouped(n as nat));
    }
}

/// `num` in decimal with thousands separated by commas (`1000000` reads `1,000,000`).
pub fn format_number(num: usize) -> (r: String)
    ensures
        r@ == grouped(num as nat),
{
    let mut s = String::new();
    push_grouped(&mut s, num as u128);
    assert(s@ =~= grouped(num as nat));
    s
}

/// Whether the decimal digits of `n` read the same backwards.
pub fn is_palindrome(n: u64) -> (r: bool)
    ensures
        r == is_palindrome_seq(digits_le(n)),
{
    let mut digits: Vec<u64> = Vec::new();
    let mut m: u64 = n;
    while m >= 10
        invariant
            digits@ + digits_le(m) == digits_le(n),
        decreases m,
    {
        let ghost prev = digits@;
        digits.push(m % 10);
        assert(digits@ + digits_le(m / 10) =~= prev + digits_le(m));
        m = m / 10;
    }
    digits.push(m);
    assert(digits@ =~= digits_le(n));
    let len = digits.len();
    let mut i: usize = 0;
    while i < len / 2
        invariant
            len == digits@.len(),
            digits@ == digits_le(n),
            i <= len / 2,
            forall|j: int| 0 <= j < i ==> #[trigger] digits@[j] == digits@[len - 1 - j],
        decreases len / 2 - i,
    {
        if digits[i] != digits[len - 1 - i] {
            assert(!(digits@[i as int] == digits@[len - 1 - i]));
            return false;
        }
        i += 1;
    }
    assert forall|j: int| 0 <= j < len implies #[trigger] digits@[j] == digits@[len - 1 - j] by {
        if j >= len / 2 {
            let k = len - 1 - j;
            if k < len / 2 {
                assert(digits@[k] == digits@[len - 1 - k]);
            }
        }
    }
    true
}

proof fn lemma_pow10_grows(a: nat, b: nat)
    requires
        a <= b,
    ensures
        1 <= pow10(a) <= pow10(b),
    decreases b,
{
    if a < b {
        lemma_pow10_grows(a, (b - 1) as nat);
    } else if b > 0 {
        lemma_pow10_grows(0, (b - 1) as nat);
    }
}

/// Whether `n` is a multiple of ten to the power `magnitude`.
pub fn is_round_number(n: u64, magnitude: u32) -> (r: bool)
    requires
        magnitude <= 19,
    ensures
        r == (n as nat % pow10(magnitude as nat) == 0),
{
    proof {
        reveal_with_fuel(pow10, 20);
        assert(pow10(19) == 10000000000000000000nat);
    }
    let mut p: u64 = 1;
    let mut i: u32 = 0;
    while i < magnitude
        invariant
            i <= magnitude <= 19,
            p as nat == pow10(i as nat),
            pow10(19) == 10000000000000000000nat,
        decreases magnitude - i,
    {
        proof {
            lemma_pow10_grows((i + 1) as nat, 19);
        }
        p = p * 10;
        i += 1;
    }
    n % p == 0
}

proof fn lemma_digits_value_grows(s: Seq<u8>, j: int)
    requires
        0 <= j <= s.len(),
        forall|i: int| 0 <= i < s.len() ==> is_ascii_digit(#[trigger] s[i]),
    ensures
        digits_value(s.subrange(0, j)) <= digits_value(s),
    decreases s.len(),
{
    if j < s.len() {
        assert(s.drop_last().subrange(0, j) =~= s.subrange(0, j));
        lemma_digits_value_grows(s.drop_last(), j);
    } else {
        assert(s.subrange(0, j) =~= s);
    }
}

/// Reads the decimal text of an unsigned 128-bit number from bytes.
pub fn bytes_to_u128(bytes: &Vec<u8>) -> (r: Option<u128>)
    ensures
        r == parse_u128(bytes@),
{
    let start: usize = if bytes.len() > 0 && bytes[0] == 43 {
        1
    } else {
        0
    };
    let ghost d = unsigned_body(bytes@);
    assert(d =~= bytes@.subrange(start as int, bytes@.len() as int));
    if start == bytes.len() {
        return None;
    }
    let mut i: usize = start;
    while i < bytes.len()
        invariant
            start <= i <= bytes@.len(),
            d == unsigned_body(bytes@),
            d =~= bytes@.subrange(start as int, bytes@.len() as int),
            forall|k: int| 0 <= k < i - start ==> is_ascii_digit(#[trigger] d[k]),
        decreases bytes.len() - i,
    {
        assert(d[i - start] == bytes@[i as int]);
        if bytes[i] < 48 || bytes[i] > 57 {
            assert(!is_ascii_digit(d[i - start]));
            assert(!(forall|k: int| 0 <= k < d.len() ==> is_ascii_digit(#[trigger] d[k])));
            return None;
        }
        i += 1;
    }
    let mut acc: u128 = 0;
    let mut i: usize = start;
    while i < bytes.len()
        invariant
            start <= i <= bytes@.len(),
            d == unsigned_body(bytes@),
            d =~= bytes@.subrange(start as int, bytes@.len() as int),
            forall|k: int| 0 <= k < d.len() ==> is_ascii_digit(#[trigger] d[k]),
            acc as nat == digits_value(d.subrange(0, i - start)),
        decreases bytes.len() - i,
    {
        let ghost pre = d.subrange(0, i - start);
        let ghost next = d.subrange(0, i + 1 - start);
        assert(next.drop_last() =~= pre);
        assert(d[i - start] == bytes@[i as int]);
        assert(is_ascii_digit(d[i - start]));
        assert(next.last() == bytes@[i as int]);
        assert(digits_value(next) == digits_value(pre) * 10 + (bytes@[i as int] - 48) as nat);
        let digit = (bytes[i] - 48) as u128;
        match acc.checked_mul(10) {
            Some(t) => match t.checked_add(digit) {
                Some(v) => {
                    acc = v;
                },
                None => {
                    proof {
                        lemma_digits_value_grows(d, i + 1 - start);
                    }
                    return None;
                },
            },
            None => {
                proof {
                    lemma_digits_value_grows(d, i + 1 - start);
                }
                return None;
            },
        }
        i += 1;
    }
    assert(d.subrange(0, d.len() as int) =~= d);
    Some(acc)
}

/// Reads the decimal text of an unsigned number from bytes.
pub fn bytes_to_number(bytes: Vec<u8>) -> (r: Option<u64>)
    ensures
        r == parse_u64(bytes@),
{
    match bytes_to_u128(&bytes) {
        Some(v) => if v <= u64::MAX as u128 {
            Some(v as u64)
        } else {
            None
        },
        None => {
            assert(!is_unsigned_text(bytes@) || digits_value(unsigned_body(bytes@)) > u64::MAX);
            None
        },
    }
}

/// The ASCII decimal text of `n`, without leading zeros.
pub open spec fn decimal_bytes(n: nat) -> Seq<u8>
    decreases n,
{
    if n < 10 {
        seq![(48 + n) as u8]
    } else {
        decimal_bytes(n / 10).push((48 + n % 10) as u8)
    }
}

proof fn lemma_decimal_bytes_value(n: nat)
    ensures
        decimal_bytes(n).len() > 0,
        forall|i: int|
            0 <= i < decimal_bytes(n).len() ==> is_ascii_digit(#[trigger] decimal_bytes(n)[i]),
        digits_value(decimal_bytes(n)) == n,
    decreases n,
{
    if n < 10 {
        assert(decimal_bytes(n).drop_last() =~= Seq::<u8>::empty());
        assert(digits_value(Seq::<u8>::empty()) == 0);
        assert(decimal_bytes(n).last() == (48 + n) as u8);
    } else {
        lemma_decimal_bytes_value(n / 10);
        assert(decimal_bytes(n).drop_last() =~= decimal_bytes(n / 10));
        assert(decimal_bytes(n).last() == (48 + n % 10) as u8);
        assert(((48 + n % 10) as u8 - 48) as nat == n % 10);
        assert((n / 10) * 10 + n % 10 == n);
    }
}

/// Writing a number as decimal text and reading it back gives the number.
pub proof fn lemma_number_text_round_trip(n: u128)
    ensures
        parse_u128(decimal_bytes(n as nat)) == Some(n),
        n <= u64::MAX ==> parse_u64(decimal_bytes(n as nat)) == Some(n as u64),
{
    lemma_decimal_bytes_value(n as nat);
    let b = decimal_bytes(n as nat);
    assert(is_ascii_digit(b[0]));
    assert(unsigned_body(b) == b);
}

/// The decimal text of `n`, as stored for a number.
pub fn number_to_bytes(n: u128) -> (r: Vec<u8>)
    ensures
        r@ == decimal_bytes(n as nat),
    decreases n,
{
    let mut r = if n >= 10 {
        number_to_bytes(n / 10)
    } else {
        Vec::new()
    };
    r.push((48 + n % 10) as u8);
    proof {
        if n < 10 {
            assert(r@ =~= decimal_bytes(n as nat));
        }
    }
    r
}

/// The SHA-512 digest of the UTF-8 bytes of `value`, as lower-case hex.
///
/// Relies on `bitcoin::hashes::sha512::Hash::hash` and its `Display`, which writes
/// the 64 digest bytes in order as two lower-case hex digits each.
#[verifier::external_body]
pub fn sha512(value: &str) -> (r: String)
    ensures
        r@ == sha512_hex_of(value@),
        r@.len() == 128,
        forall|i: int| 0 <= i < 128 ==> is_lower_hex_digit(#[trigger] r@[i]),
{
    <bitcoin::hashes::sha512::Hash as bitcoin::hashes::Hash>::hash(value.as_bytes()).to_string()
}

} // verus!
