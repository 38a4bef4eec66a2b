//! Texts: addresses in hexadecimal, numbers in decimal, timestamps.

use vstd::prelude::*;
use vstd::string::*;
use crate::decimal::{decimal_digits, digit_char, lemma_digits_pad, lemma_digits_split, lemma_padded_len, lemma_padded_take, lemma_pow10, padded_digits, zeros};
use crate::numeric::{Amount, Wide, lemma_amount_bound};
use crate::position::{Address, TxHash};

verus! {

/// 16 to the power `n`.
pub open spec fn pow16(n: nat) -> int
    decreases n,
{
    if n == 0 {
        1
    } else {
        16 * pow16((n - 1) as nat)
    }
}

/// The character of a hexadecimal digit, in lower case.
pub open spec fn hex_char(d: int) -> char {
    if d < 10 {
        digit_char(d)
    } else if d == 10 {
        'a'
    } else if d == 11 {
        'b'
    } else if d == 12 {
        'c'
    } else if d == 13 {
        'd'
    } else if d == 14 {
        'e'
    } else {
        'f'
    }
}

/// What a character is worth as a hexadecimal digit of either case, if it
/// is one.
pub open spec fn hex_digit_value(c: char) -> Option<int> {
    if '0' <= c && c <= '9' {
        Some(c as int - '0' as int)
    } else if 'a' <= c && c <= 'f' {
        Some(c as int - 'a' as int + 10)
    } else if 'A' <= c && c <= 'F' {
        Some(c as int - 'A' as int + 10)
    } else {
        None
    }
}

/// The number that hexadecimal digits spell, most significant first.
pub open spec fn hex_value(s: Seq<char>) -> int
    decreases s.len(),
{
    if s.len() == 0 {
        0
    } else {
        16 * hex_value(s.drop_last()) + hex_digit_value(s.last()).unwrap()
    }
}

/// Whether the text is an address: `0x` and forty hexadecimal digits of
/// either case.
pub open spec fn is_address_text(s: Seq<char>) -> bool {
    &&& s.len() == 42
    &&& s[0] == '0'
    &&& s[1] == 'x'
    &&& forall|i: int| 2 <= i < 42 ==> hex_digit_value(#[trigger] s[i]) is Some
}

/// The address that a text spells, if it is the text of one.
pub open spec fn parsed_address(s: Seq<char>) -> Option<Address> {
    if is_address_text(s) {
        Some(
            Address {
                hi: hex_value(s.subrange(2, 10)) as u32,
                lo: hex_value(s.subrange(10, 42)) as u128,
            },
        )
    } else {
        None
    }
}

/// The last `k` hexadecimal digits of a number that is not negative, in
/// lower case, most significant first.
pub open spec fn hex_digits(n: int, k: nat) -> Seq<char>
    decreases k,
{
    if k == 0 {
        Seq::empty()
    } else {
        hex_digits(n / 16, (k - 1) as nat).push(hex_char(n % 16))
    }
}

/// The text of an address: `0x`, the eight hexadecimal digits of its first
/// four bytes and the thirty-two of its other sixteen, in lower case.
pub open spec fn address_text(a: Address) -> Seq<char> {
    seq!['0', 'x'] + hex_digits(a.hi as int, 8) + hex_digits(a.lo as int, 32)
}

/// The text of a transaction hash: `0x` and its sixty-four hexadecimal
/// digits in lower case.
pub open spec fn tx_hash_text(h: TxHash) -> Seq<char> {
    seq!['0', 'x'] + hex_digits(h.hi as int, 32) + hex_digits(h.lo as int, 32)
}

/// What the calendar makes of a number of seconds since 1970 in UTC, as
/// `YYYY-MM-DD hh:mm:ss UTC`, or nothing where the date is out of its range.
pub uninterp spec fn utc_date_time_text(secs: int) -> Option<Seq<char>>;

/// The number in decimal. This is `Display` of alloy's 512-bit
/// `Uint`, which writes the decimal digits of the value, without sign,
/// padding or leading zeros.
#[verifier::external_body]
fn wide_to_decimal(w: &Wide) -> (r: String)
    ensures
        r@ == decimal_digits(w@),
{
    let limbs: [u64; 8] = [w.w0, w.w1, w.w2, w.w3, w.w4, w.w5, w.w6, 0];
    alloy::primitives::U512::from_limbs(limbs).to_string()
}

/// The address in hexadecimal. This is `Debug` of alloy's `Address`, which
/// writes `0x` and the twenty bytes as forty lower-case hexadecimal digits,
/// without the checksum's capitals.
#[verifier::external_body]
fn address_to_hex(a: &Address) -> (r: String)
    ensures
        r@ == address_text(*a),
{
    let mut bytes: [u8; 20] = [0u8; 20];
    bytes[..4].copy_from_slice(&a.hi.to_be_bytes());
    bytes[4..].copy_from_slice(&a.lo.to_be_bytes());
    format!("{:?}", alloy::primitives::Address::from(bytes))
}

/// The transaction hash in hexadecimal. This is `Display` of alloy's
/// `B256`, which writes `0x` and the thirty-two bytes as sixty-four
/// lower-case hexadecimal digits.
#[verifier::external_body]
fn tx_hash_to_hex(h: &TxHash) -> (r: String)
    ensures
        r@ == tx_hash_text(*h),
{
    let mut bytes: [u8; 32] = [0u8; 32];
    bytes[..16].copy_from_slice(&h.hi.to_be_bytes());
    bytes[16..].copy_from_slice(&h.lo.to_be_bytes());
    alloy::primitives::B256::from(bytes).to_string()
}

/// The date and time of a Unix timestamp in UTC. This is chrono's
/// `DateTime::from_timestamp` with no nanoseconds, written with the format
/// `%Y-%m-%d %H:%M:%S UTC`; chrono gives nothing for a timestamp outside
/// the dates it can hold.
#[verifier::external_body]
fn utc_date_time(secs: i64) -> (r: Option<String>)
    ensures
        match r {
            Some(s) => utc_date_time_text(secs as int) == Some(s@),
            None => utc_date_time_text(secs as int) is None,
        },
{
    match chrono::DateTime::from_timestamp(secs, 0) {
        Some(dt) => Some(dt.format("%Y-%m-%d %H:%M:%S UTC").to_string()),
        None => None,
    }
}

/// What a character is worth as a hexadecimal digit, if it is one.
pub fn hex_digit(c: char) -> (r: Option<u8>)
    ensures
        match r {
            Some(d) => hex_digit_value(c) == Some(d as int) && d < 16,
            None => hex_digit_value(c) is None,
        },
{
    if '0' <= c && c <= '9' {
        Some((c as u32 - '0' as u32) as u8)
    } else if 'a' <= c && c <= 'f' {
        Some((c as u32 - 'a' as u32 + 10) as u8)
    } else if 'A' <= c && c <= 'F' {
        Some((c as u32 - 'A' as u32 + 10) as u8)
    } else {
        None
    }
}

/// Digits after digits spell the first number shifted by the length of the
/// second, plus the second.
pub proof fn lemma_hex_value_concat(a: Seq<char>, b: Seq<char>)
    ensures
        hex_value(a + b) == hex_value(a) * pow16(b.len()) + hex_value(b),
    decreases b.len(),
{
    if b.len() == 0 {
        assert(a + b == a);
    } else {
        lemma_hex_value_concat(a, b.drop_last());
        assert((a + b).drop_last() == a + b.drop_last());
        assert((a + b).last() == b.last());
        let x = hex_value(a);
        let p = pow16((b.len() - 1) as nat);
        let y = hex_value(b.drop_last());
        let d = hex_digit_value(b.last()).unwrap();
        assert(16 * (x * p + y) + d == x * (16 * p) + (16 * y + d)) by (nonlinear_arith);
    }
}

/// Reads an address: `Some` exactly for `0x` and forty hexadecimal digits
/// of either case, and then the address that the digits spell.
pub fn parse_address(text: &str) -> (r: Option<Address>)
    ensures
        r == parsed_address(text@),
        r matches Some(a) ==> a@ == hex_value(text@.subrange(2, 42)),
{
    if text.unicode_len() != 42 {
        return None;
    }
    if text.get_char(0) != '0' || text.get_char(1) != 'x' {
        return None;
    }
    let ghost s = text@;
    let mut hi: u32 = 0;
    let mut i: usize = 2;
    while i < 10
        invariant
            2 <= i <= 10,
            s == text@,
            s.len() == 42,
            forall|j: int| 2 <= j < i ==> hex_digit_value(#[trigger] s[j]) is Some,
            hi as int == hex_value(s.subrange(2, i as int)),
            (hi as int) < pow16((i - 2) as nat),
        decreases 10 - i,
    {
        match hex_digit(text.get_char(i)) {
            Some(d) => {
                proof {
                    assert(s.subrange(2, i + 1).drop_last() == s.subrange(2, i as int));
                    reveal_with_fuel(pow16, 9);
                }
                hi = hi * 16 + d as u32;
            },
            None => {
                return None;
            },
        }
        i = i + 1;
    }
    let mut lo: u128 = 0;
    while i < 42
        invariant
            10 <= i <= 42,
            s == text@,
            s.len() == 42,
            forall|j: int| 2 <= j < i ==> hex_digit_value(#[trigger] s[j]) is Some,
            lo as int == hex_value(s.subrange(10, i as int)),
            (lo as int) < pow16((i - 10) as nat),
        decreases 42 - i,
    {
        match hex_digit(text.get_char(i)) {
            Some(d) => {
                proof {
                    assert(s.subrange(10, i + 1).drop_last() == s.subrange(10, i as int));
                    lemma_pow16_32();
                    lemma_pow16_monotone((i - 10 + 1) as nat, 32);
                }
                lo = lo * 16 + d as u128;
            },
            None => {
                return None;
            },
        }
        i = i + 1;
    }
    proof {
        assert(s.subrange(2, 42) == s.subrange(2, 10) + s.subrange(10, 42));
        lemma_hex_value_concat(s.subrange(2, 10), s.subrange(10, 42));
        lemma_pow16_32();
    }
    Some(Address { hi, lo })
}

/// 16^32 is 2^128.
pub proof fn lemma_pow16_32()
    ensures
        pow16(32) == 0x1_0000_0000_0000_0000_0000_0000_0000_0000int,
        pow16(8) == 0x1_0000_0000,
{
    reveal_with_fuel(pow16, 9);
    assert(pow16(8) == 0x1_0000_0000);
    assert(pow16(16) == 0x1_0000_0000 * pow16(8));
    assert(pow16(24) == 0x1_0000_0000 * pow16(16));
    assert(pow16(32) == 0x1_0000_0000 * pow16(24));
}

/// Hexadecimal digits are read back as the number they were written from,
/// as far as they go.
pub proof fn lemma_hex_digits_value(n: int, k: nat)
    requires
        0 <= n,
    ensures
        hex_digits(n, k).len() == k,
        forall|i: int| 0 <= i < k ==> hex_digit_value(#[trigger] hex_digits(n, k)[i]) is Some,
        hex_value(hex_digits(n, k)) == n % pow16(k),
    decreases k,
{
    if k > 0 {
        let p = pow16((k - 1) as nat);
        lemma_pow16_monotone(0, (k - 1) as nat);
        lemma_hex_digits_value(n / 16, (k - 1) as nat);
        let front = hex_digits(n / 16, (k - 1) as nat);
        let all = hex_digits(n, k);
        assert(all.drop_last() =~= front);
        assert(all.last() == hex_char(n % 16));
        assert(hex_digit_value(hex_char(n % 16)) == Some(n % 16));
        assert forall|i: int| 0 <= i < k implies hex_digit_value(#[trigger] all[i]) is Some by {
            if i < k - 1 {
                assert(all[i] == front[i]);
            }
        }
        vstd::arithmetic::div_mod::lemma_breakdown(n, 16, p);
    }
}

/// The text of an address is read back as the address.
pub proof fn lemma_address_text_round_trip(a: Address)
    ensures
        parsed_address(address_text(a)) == Some(a),
{
    let t = address_text(a);
    let high = hex_digits(a.hi as int, 8);
    let low = hex_digits(a.lo as int, 32);
    lemma_hex_digits_value(a.hi as int, 8);
    lemma_hex_digits_value(a.lo as int, 32);
    lemma_pow16_32();
    assert(t.len() == 42);
    assert(t[0] == '0' && t[1] == 'x');
    assert forall|i: int| 2 <= i < 42 implies hex_digit_value(#[trigger] t[i]) is Some by {
        if i < 10 {
            assert(t[i] == high[i - 2]);
        } else {
            assert(t[i] == low[i - 10]);
        }
    }
    assert(t.subrange(2, 10) =~= high);
    assert(t.subrange(10, 42) =~= low);
}

/// Powers of 16 grow.
pub proof fn lemma_pow16_monotone(a: nat, b: nat)
    requires
        a <= b,
    ensures
        0 < pow16(a) <= pow16(b),
    decreases b,
{
    if b == 0 {
    } else if a == b {
        lemma_pow16_monotone((a - 1) as nat, (b - 1) as nat);
    } else {
        lemma_pow16_monotone(a, (b - 1) as nat);
    }
}

/// The text without the zeros at its end.
pub open spec fn trim_trailing_zeros(s: Seq<char>) -> Seq<char>
    decreases s.len(),
{
    if s.len() > 0 && s.last() == '0' {
        trim_trailing_zeros(s.drop_last())
    } else {
        s
    }
}

/// At most the first `n` characters.
pub open spec fn at_most(s: Seq<char>, n: int) -> Seq<char> {
    if s.len() <= n {
        s
    } else {
        s.take(n)
    }
}

/// The short form of an address text for a line of output: its first six
/// characters, three dots and its last four; a text of ten characters or
/// fewer stays as it is.
pub open spec fn abbreviated(t: Seq<char>) -> Seq<char> {
    if t.len() > 10 {
        t.take(6) + seq!['.', '.', '.'] + t.skip(t.len() - 4)
    } else {
        t
    }
}

/// A number of wei as tokens, from the decimal digits of the number: the
/// whole tokens, and after a point the fraction without the zeros at its
/// end, cut after six digits; no point where nothing is left of the
/// fraction.
pub open spec fn token_amount_text(digits: Seq<char>) -> Seq<char> {
    if digits.len() > 18 {
        let whole = digits.take(digits.len() - 18);
        let fraction = trim_trailing_zeros(digits.skip(digits.len() - 18));
        if fraction.len() == 0 {
            whole
        } else {
            whole + seq!['.'] + at_most(fraction, 6)
        }
    } else {
        let fraction = trim_trailing_zeros(zeros((18 - digits.len()) as nat) + digits);
        if fraction.len() == 0 {
            seq!['0']
        } else {
            seq!['0', '.'] + at_most(fraction, 6)
        }
    }
}

/// A number of wei as tokens for a line of output: the whole tokens, and
/// after a point the eighteen digits of the rest without the zeros at
/// their end, cut after six digits; no point where nothing is left of the
/// rest.
pub open spec fn token_amount(wei: int) -> Seq<char> {
    let whole = decimal_digits(wei / 1_000_000_000_000_000_000);
    let fraction = trim_trailing_zeros(padded_digits(wei % 1_000_000_000_000_000_000, 18));
    if fraction.len() == 0 {
        whole
    } else {
        whole + seq!['.'] + at_most(fraction, 6)
    }
}

/// What [`token_amount_text`] makes of the digits of a number of wei.
pub proof fn lemma_token_amount_text(wei: int)
    requires
        0 <= wei,
    ensures
        token_amount_text(decimal_digits(wei)) == token_amount(wei),
{
    lemma_pow10(18);
    let digits = decimal_digits(wei);
    if wei >= 1_000_000_000_000_000_000 {
        lemma_digits_split(wei, 18);
        let whole = decimal_digits(wei / 1_000_000_000_000_000_000);
        let rest = padded_digits(wei % 1_000_000_000_000_000_000, 18);
        lemma_padded_len(wei % 1_000_000_000_000_000_000, 18);
        assert(digits.take(digits.len() - 18) =~= whole);
        assert(digits.skip(digits.len() - 18) =~= rest);
    } else {
        lemma_digits_pad(wei, 18);
        assert(wei / 1_000_000_000_000_000_000 == 0);
        assert(wei % 1_000_000_000_000_000_000 == wei);
        assert(decimal_digits(0) =~= seq!['0']);
        assert(seq!['0', '.'] =~= seq!['0'] + seq!['.']);
    }
}

/// A number of wei as tokens with six digits after the point, from the
/// decimal digits of the number: the digits before the last eighteen, or
/// `0` where there are none, the point, and the first six of the last
/// eighteen.
pub open spec fn fixed_amount_text(digits: Seq<char>) -> Seq<char> {
    if digits.len() > 18 {
        digits.take(digits.len() - 18) + seq!['.'] + digits.subrange(
            digits.len() - 18,
            digits.len() - 12,
        )
    } else {
        seq!['0', '.'] + (zeros((18 - digits.len()) as nat) + digits).take(6)
    }
}

/// Half of a millionth of a token, in wei: adding it before cutting rounds
/// to the nearest millionth.
pub const HALF_MICRO_TOKEN: u128 = 500_000_000_000u128;

/// The number of millionths of a token that an amount of wei comes to,
/// rounded to the nearest, a half upwards.
pub open spec fn rounded_micro_tokens(wei: int) -> int {
    (wei + 500_000_000_000) / 1_000_000_000_000
}

/// The amount of an event as tokens with six digits after the point,
/// rounded to the nearest, a half upwards; `0.000000` where the event has
/// no amount.
pub open spec fn event_amount_text(amount: Option<Amount>) -> Seq<char> {
    match amount {
        Some(a) => decimal_digits(rounded_micro_tokens(a@) / 1_000_000) + seq!['.'] + padded_digits(
            rounded_micro_tokens(a@) % 1_000_000,
            6,
        ),
        None => seq!['0', '.', '0', '0', '0', '0', '0', '0'],
    }
}

/// What [`fixed_amount_text`] makes of the digits of a number of wei: the
/// whole tokens, the point, and the millionths that are left, the rest
/// being cut.
pub proof fn lemma_fixed_amount_text(wei: int)
    requires
        0 <= wei,
    ensures
        fixed_amount_text(decimal_digits(wei)) == decimal_digits(
            (wei / 1_000_000_000_000) / 1_000_000,
        ) + seq!['.'] + padded_digits((wei / 1_000_000_000_000) % 1_000_000, 6),
{
    lemma_pow10(18);
    let digits = decimal_digits(wei);
    let micro = wei / 1_000_000_000_000;
    vstd::arithmetic::div_mod::lemma_div_denominator(wei, 1_000_000_000_000, 1_000_000);
    vstd::arithmetic::div_mod::lemma_breakdown(wei, 1_000_000_000_000, 1_000_000);
    assert(1_000_000_000_000int * 1_000_000int == 1_000_000_000_000_000_000int);
    assert(micro / 1_000_000 == wei / 1_000_000_000_000_000_000);
    let low = wei % 1_000_000_000_000_000_000;
    assert(low == 1_000_000_000_000 * (micro % 1_000_000) + wei % 1_000_000_000_000);
    assert(low / 1_000_000_000_000 == micro % 1_000_000);
    if wei >= 1_000_000_000_000_000_000 {
        lemma_digits_split(wei, 18);
        let whole = decimal_digits(wei / 1_000_000_000_000_000_000);
        let fraction = padded_digits(low, 18);
        lemma_padded_len(low, 18);
        lemma_padded_take(low, 18, 6);
        assert(digits.take(digits.len() - 18) =~= whole);
        assert(digits.subrange(digits.len() - 18, digits.len() - 12) =~= fraction.take(6));
    } else {
        lemma_digits_pad(wei, 18);
        lemma_padded_take(wei, 18, 6);
        assert(low == wei);
        assert(wei / 1_000_000_000_000_000_000 == 0);
        assert(decimal_digits(0) =~= seq!['0']);
        assert(seq!['0', '.'] =~= seq!['0'] + seq!['.']);
    }
}

/// The number of seconds that the calendar is asked about: the 64 bits of
/// the timestamp read as a signed number.
pub open spec fn as_signed(timestamp: u64) -> int {
    if timestamp <= i64::MAX {
        timestamp as int
    } else {
        timestamp as int - 0x1_0000_0000_0000_0000
    }
}

/// The line for a timestamp: the date and time where the calendar has one,
/// else the number itself.
pub open spec fn timestamp_text(formatted: Option<Seq<char>>, timestamp: u64) -> Seq<char> {
    match formatted {
        Some(t) => t,
        None => seq![
            'U',
            'n',
            'i',
            'x',
            ' ',
            't',
            'i',
            'm',
            'e',
            's',
            't',
            'a',
            'm',
            'p',
            ':',
            ' ',
        ] + decimal_digits(timestamp as int),
    }
}

/// Trimming the zeros at the end of two texts in a row trims the second,
/// and the first as well where nothing is left of the second.
pub proof fn lemma_trim_concat(a: Seq<char>, b: Seq<char>)
    ensures
        trim_trailing_zeros(a + b) == (if trim_trailing_zeros(b).len() == 0 {
            trim_trailing_zeros(a)
        } else {
            a + trim_trailing_zeros(b)
        }),
    decreases b.len(),
{
    if b.len() == 0 {
        assert(a + b == a);
    } else {
        assert((a + b).last() == b.last());
        assert((a + b).drop_last() == a + b.drop_last());
        if b.last() == '0' {
            lemma_trim_concat(a, b.drop_last());
        }
    }
}

/// Nothing is left of zeros.
pub proof fn lemma_trim_zeros(n: nat)
    ensures
        trim_trailing_zeros(zeros(n)).len() == 0,
    decreases n,
{
    if n > 0 {
        assert(zeros(n).drop_last() == zeros((n - 1) as nat));
        lemma_trim_zeros((n - 1) as nat);
    }
}

/// The decimal digits of the number.
pub fn decimal_text(w: &Wide) -> (r: String)
    ensures
        r@ == decimal_digits(w@),
{
    wide_to_decimal(w)
}

/// The text of the address as it is stored: `0x` and forty hexadecimal
/// digits in lower case.
pub fn address_to_text(a: &Address) -> (r: String)
    ensures
        r@ == address_text(*a),
{
    address_to_hex(a)
}

/// The text of the transaction hash as it is stored: `0x` and sixty-four
/// hexadecimal digits in lower case.
pub fn tx_hash_to_text(h: &TxHash) -> (r: String)
    ensures
        r@ == tx_hash_text(*h),
{
    tx_hash_to_hex(h)
}

/// The short form of a text: see [`abbreviated`].
pub fn abbreviate(t: &str) -> (r: String)
    ensures
        r@ == abbreviated(t@),
{
    let n: usize = t.unicode_len();
    if n > 10 {
        let mut out = String::from_str(t.substring_char(0, 6));
        out.append("...");
        out.append(t.substring_char(n - 4, n));
        proof {
            reveal_strlit("...");
            assert("..."@ == seq!['.', '.', '.']);
            assert(t@.subrange(0, 6) == t@.take(6));
            assert(t@.subrange(n - 4, n as int) == t@.skip(n - 4));
        }
        out
    } else {
        String::from_str(t)
    }
}

/// The address for a line of output: the first six characters of its text,
/// three dots and the last four.
pub fn format_address(address: Address) -> (r: String)
    ensures
        r@ == abbreviated(address_text(address)),
{
    let text = address_to_hex(&address);
    abbreviate(text.as_str())
}

/// The end of the part `from..to` of the text once the zeros at the end of
/// that part are dropped.
fn trimmed_end(t: &str, from: usize, to: usize) -> (r: usize)
    requires
        from <= to <= t@.len(),
    ensures
        from <= r <= to,
        t@.subrange(from as int, r as int) == trim_trailing_zeros(t@.subrange(from as int, to as int)),
{
    let mut e: usize = to;
    while e > from && t.get_char(e - 1) == '0'
        invariant
            from <= e <= to,
            to <= t@.len(),
            trim_trailing_zeros(t@.subrange(from as int, e as int)) == trim_trailing_zeros(
                t@.subrange(from as int, to as int),
            ),
        decreases e,
    {
        proof {
            assert(t@.subrange(from as int, e as int).drop_last() == t@.subrange(
                from as int,
                e - 1,
            ));
        }
        e = e - 1;
    }
    e
}

/// Appends `n` zeros.
fn append_zeros(out: &mut String, n: usize)
    ensures
        final(out)@ == old(out)@ + zeros(n as nat),
{
    let mut k: usize = 0;
    proof {
        assert(out@ + zeros(0) == out@);
    }
    while k < n
        invariant
            k <= n,
            out@ == old(out)@ + zeros(k as nat),
        decreases n - k,
    {
        out.append("0");
        proof {
            reveal_strlit("0");
            assert("0"@ == seq!['0']);
            assert(zeros((k + 1) as nat) == zeros(k as nat) + seq!['0']);
        }
        k = k + 1;
    }
}

/// A number of wei as tokens, from its decimal digits: see
/// [`token_amount_text`].
pub fn token_amount_from_digits(digits: &str) -> (r: String)
    ensures
        r@ == token_amount_text(digits@),
{
    let n: usize = digits.unicode_len();
    let ghost d = digits@;
    if n > 18 {
        let split: usize = n - 18;
        let e = trimmed_end(digits, split, n);
        proof {
            assert(d.subrange(split as int, n as int) == d.skip(split as int));
            assert(d.subrange(0, split as int) == d.take(split as int));
        }
        let mut out = String::from_str(digits.substring_char(0, split));
        if e > split {
            out.append(".");
            let stop: usize = if e - split > 6 {
                split + 6
            } else {
                e
            };
            out.append(digits.substring_char(split, stop));
            proof {
                reveal_strlit(".");
                assert("."@ == seq!['.']);
                let fraction = d.subrange(split as int, e as int);
                assert(d.subrange(split as int, stop as int) == at_most(fraction, 6));
            }
        }
        out
    } else {
        let pad: usize = 18 - n;
        let e = trimmed_end(digits, 0, n);
        proof {
            assert(d.subrange(0, n as int) == d);
            lemma_trim_concat(zeros(pad as nat), d);
            lemma_trim_zeros(pad as nat);
        }
        if e == 0 {
            proof {
                reveal_strlit("0");
                assert("0"@ == seq!['0']);
            }
            String::from_str("0")
        } else {
            let ghost fraction = zeros(pad as nat) + d.subrange(0, e as int);
            let mut out = String::from_str("0.");
            proof {
                reveal_strlit("0.");
                assert("0."@ == seq!['0', '.']);
            }
            if pad >= 6 {
                append_zeros(&mut out, 6);
                proof {
                    assert(at_most(fraction, 6) == zeros(6));
                }
            } else {
                append_zeros(&mut out, pad);
                let stop: usize = if e > 6 - pad {
                    6 - pad
                } else {
                    e
                };
                out.append(digits.substring_char(0, stop));
                proof {
                    assert(at_most(fraction, 6) == zeros(pad as nat) + d.subrange(0, stop as int));
                }
            }
            out
        }
    }
}

/// A token amount for a line of output: the whole tokens and up to six
/// digits of the fraction.
pub fn format_token_amount(amount: Amount) -> (r: String)
    ensures
        r@ == token_amount(amount@),
{
    proof {
        lemma_amount_bound(amount);
        lemma_token_amount_text(amount@);
    }
    let digits = wide_to_decimal(&Wide::from_amount(amount));
    token_amount_from_digits(digits.as_str())
}

/// A number of wei as tokens with six digits after the point, from its
/// decimal digits: see [`fixed_amount_text`].
pub fn fixed_amount_from_digits(digits: &str) -> (r: String)
    ensures
        r@ == fixed_amount_text(digits@),
{
    let n: usize = digits.unicode_len();
    let ghost d = digits@;
    if n > 18 {
        let mut out = String::from_str(digits.substring_char(0, n - 18));
        out.append(".");
        out.append(digits.substring_char(n - 18, n - 12));
        proof {
            reveal_strlit(".");
            assert("."@ == seq!['.']);
            assert(d.subrange(0, n - 18) == d.take(n - 18));
        }
        out
    } else {
        let pad: usize = 18 - n;
        let mut out = String::from_str("0.");
        proof {
            reveal_strlit("0.");
            assert("0."@ == seq!['0', '.']);
        }
        if pad >= 6 {
            append_zeros(&mut out, 6);
            proof {
                assert((zeros(pad as nat) + d).take(6) == zeros(6));
            }
        } else {
            append_zeros(&mut out, pad);
            out.append(digits.substring_char(0, 6 - pad));
            proof {
                assert((zeros(pad as nat) + d).take(6) == zeros(pad as nat) + d.subrange(
                    0,
                    6 - pad,
                ));
            }
        }
        out
    }
}

/// The amount of an event for the API: tokens with six digits after the
/// point, rounded to the nearest; `0.000000` where there is no amount.
pub fn format_event_amount(amount: Option<Amount>) -> (r: String)
    ensures
        r@ == event_amount_text(amount),
{
    match amount {
        Some(a) => {
            proof {
                lemma_amount_bound(a);
            }
            let rounded = Wide::from_amount(a).add(&Wide::from_u128(HALF_MICRO_TOKEN));
            let digits = wide_to_decimal(&rounded);
            proof {
                lemma_fixed_amount_text(rounded@);
            }
            fixed_amount_from_digits(digits.as_str())
        },
        None => {
            proof {
                reveal_strlit("0.000000");
                assert("0.000000"@ == seq!['0', '.', '0', '0', '0', '0', '0', '0']);
            }
            String::from_str("0.000000")
        },
    }
}

/// The line for a timestamp, from what the calendar made of it: see
/// [`timestamp_text`].
pub fn timestamp_line(formatted: Option<String>, timestamp: u64) -> (r: String)
    ensures
        r@ == timestamp_text(
            match formatted {
                Some(t) => Some(t@),
                None => None,
            },
            timestamp,
        ),
{
    match formatted {
        Some(t) => t,
        None => {
            let mut out = String::from_str("Unix timestamp: ");
            let digits = wide_to_decimal(&Wide::from_u128(timestamp as u128));
            out.append(digits.as_str());
            proof {
                reveal_strlit("Unix timestamp: ");
                assert("Unix timestamp: "@ == seq![
                    'U',
                    'n',
                    'i',
                    'x',
                    ' ',
                    't',
                    'i',
                    'm',
                    'e',
                    's',
                    't',
                    'a',
                    'm',
                    'p',
                    ':',
                    ' ',
                ]);
            }
            out
        },
    }
}

/// A timestamp for a line of output: date and time in UTC, or the number
/// itself where the calendar has no date for it.
pub fn format_timestamp(timestamp: u64) -> (r: String)
    ensures
        r@ == timestamp_text(utc_date_time_text(as_signed(timestamp)), timestamp),
{
    let secs: i64 = if timestamp <= 0x7fff_ffff_ffff_ffff {
        timestamp as i64
    } else {
        -((u64::MAX - timestamp) as i64) - 1
    };
    let formatted = utc_date_time(secs);
    timestamp_line(formatted, timestamp)
}

} // verus!
