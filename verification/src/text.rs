//! ASCII text building blocks: decimal and zero-padded numbers, and the
//! conversion of ASCII byte buffers into `String`s.

use vstd::prelude::*;
use vstd::utf8::*;

verus! {

/// The ASCII code of the decimal digit `d` (`d < 10`).
pub open spec fn digit_byte(d: nat) -> u8 {
    (48 + d) as u8
}

/// The decimal notation of `n`, most significant digit first, no leading zeros.
pub open spec fn decimal(n: nat) -> Seq<u8>
    decreases n,
{
    if n < 10 {
        seq![digit_byte(n)]
    } else {
        decimal(n / 10).push(digit_byte(n % 10))
    }
}

/// `count` copies of the ASCII character '0'.
pub open spec fn zeros(count: nat) -> Seq<u8> {
    Seq::new(count, |i: int| 48u8)
}

/// The decimal notation of `n`, padded on the left with '0' to at least `width` characters.
pub open spec fn zero_padded(n: nat, width: nat) -> Seq<u8> {
    if decimal(n).len() >= width {
        decimal(n)
    } else {
        zeros((width - decimal(n).len()) as nat) + decimal(n)
    }
}

/// Every byte is a 7-bit ASCII code.
pub open spec fn all_ascii(bytes: Seq<u8>) -> bool {
    forall|i: int| 0 <= i < bytes.len() ==> #[trigger] bytes[i] < 128
}

/// The characters that an ASCII byte sequence stands for.
pub open spec fn ascii_chars(bytes: Seq<u8>) -> Seq<char> {
    Seq::new(bytes.len(), |i: int| bytes[i] as char)
}

/// Decimal notation is a non-empty run of ASCII digits.
pub proof fn lemma_decimal_is_digits(n: nat)
    ensures
        decimal(n).len() >= 1,
        forall|i: int| 0 <= i < decimal(n).len() ==> 48 <= #[trigger] decimal(n)[i] <= 57,
    decreases n,
{
    if n >= 10 {
        lemma_decimal_is_digits(n / 10);
    }
}

/// A number padded with zeros is ASCII.
pub proof fn lemma_zero_padded_ascii(n: nat, w: nat)
    ensures
        all_ascii(zero_padded(n, w)),
{
    lemma_decimal_is_digits(n);
}

/// Joining ASCII sequences gives an ASCII sequence.
pub proof fn lemma_concat_ascii(a: Seq<u8>, b: Seq<u8>)
    requires
        all_ascii(a),
        all_ascii(b),
    ensures
        all_ascii(a + b),
{
    assert forall|i: int| 0 <= i < (a + b).len() implies #[trigger] (a + b)[i] < 128 by {
        if i < a.len() {
            assert((a + b)[i] == a[i]);
        } else {
            assert((a + b)[i] == b[i - a.len()]);
        }
    }
}

/// Appends the decimal notation of `n` to `out`.
pub fn push_decimal(out: &mut Vec<u8>, n: u64)
    ensures
        final(out)@ == old(out)@ + decimal(n as nat),
    decreases n,
{
    if n >= 10 {
        push_decimal(out, n / 10);
    }
    let d: u8 = (n % 10) as u8;
    out.push(48u8 + d);
    proof {
        assert(final(out)@ =~= old(out)@ + decimal(n as nat));
    }
}

/// Appends `n` in decimal, left-padded with '0' to at least `width` characters.
pub fn push_zero_padded(out: &mut Vec<u8>, n: u64, width: usize)
    ensures
        final(out)@ == old(out)@ + zero_padded(n as nat, width as nat),
{
    let mut digits: Vec<u8> = Vec::new();
    push_decimal(&mut digits, n);
    assert(digits@ =~= decimal(n as nat));
    let len = digits.len();
    if len < width {
        let mut k: usize = 0;
        while k < width - len
            invariant
                len < width,
                k <= width - len,
                out@ == old(out)@ + zeros(k as nat),
            decreases width - len - k,
        {
            out.push(48u8);
            k = k + 1;
            assert(out@ =~= old(out)@ + zeros(k as nat));
        }
    }
    let ghost mid = out@;
    let mut j: usize = 0;
    while j < len
        invariant
            len == digits@.len(),
            j <= len,
            out@ == mid + digits@.take(j as int),
        decreases len - j,
    {
        out.push(digits[j]);
        j = j + 1;
        assert(out@ =~= mid + digits@.take(j as int));
    }
    assert(digits@.take(len as int) =~= digits@);
    assert(final(out)@ =~= old(out)@ + zero_padded(n as nat, width as nat));
}

/// `String::from_utf8`: the bytes decoded as UTF-8, or the standard library's
/// description of the error where they are not valid UTF-8. The wording of
/// that description is not stated.
#[verifier::external_body]
pub(crate) fn string_from_utf8(bytes: Vec<u8>) -> (s: Result<String, String>)
    ensures
        s is Ok <==> valid_utf8(bytes@),
        s matches Ok(t) ==> t@ == decode_utf8(bytes@),
{
    match String::from_utf8(bytes) {
        Ok(t) => Ok(t),
        Err(e) => Err(e.to_string()),
    }
}

/// ASCII bytes are valid UTF-8 and decode to the characters of the same codes.
pub proof fn lemma_ascii_is_utf8(bytes: Seq<u8>)
    requires
        all_ascii(bytes),
    ensures
        valid_utf8(bytes),
        decode_utf8(bytes) == ascii_chars(bytes),
    decreases bytes.len(),
{
    if bytes.len() > 0 {
        let b = bytes[0];
        assert(b < 128);
        assert((b & 0x7Fu8) == b) by (bit_vector)
            requires
                b < 128,
        ;
        assert(is_leading_byte_width_1(b));
        assert(decode_first_codepoint(bytes) == b as u32);
        let rest = pop_first_scalar(bytes);
        assert(rest =~= bytes.subrange(1, bytes.len() as int));
        assert(all_ascii(rest)) by {
            assert forall|i: int| 0 <= i < rest.len() implies #[trigger] rest[i] < 128 by {
                assert(rest[i] == bytes[i + 1]);
            }
        }
        lemma_ascii_is_utf8(rest);
        assert(decode_utf8(bytes) =~= ascii_chars(bytes)) by {
            assert(decode_utf8(bytes) == seq![(b as u32) as char] + decode_utf8(rest));
        }
    } else {
        assert(decode_utf8(bytes) =~= ascii_chars(bytes));
    }
}

/// Turns a buffer of ASCII codes into the `String` of the same characters.
pub fn ascii_string(bytes: Vec<u8>) -> (s: String)
    requires
        all_ascii(bytes@),
    ensures
        s@ == ascii_chars(bytes@),
{
    proof {
        lemma_ascii_is_utf8(bytes@);
    }
    match string_from_utf8(bytes) {
        Ok(t) => t,
        Err(_) => {
            proof {
                assert(false);
            }
            String::new()
        },
    }
}

/// The decimal notation of `n` as a `String`.
pub fn decimal_string(n: u64) -> (s: String)
    ensures
        s@ == ascii_chars(decimal(n as nat)),
{
    let mut bytes: Vec<u8> = Vec::new();
    push_decimal(&mut bytes, n);
    proof {
        assert(bytes@ =~= decimal(n as nat));
        lemma_decimal_is_digits(n as nat);
    }
    ascii_string(bytes)
}

/// The digits after the decimal point of a fraction `f` of `w` decimal
/// places, trailing zeros dropped.
pub open spec fn fraction_digits(f: nat, w: nat) -> Seq<u8>
    decreases w,
{
    if w > 0 && f % 10 == 0 {
        fraction_digits(f / 10, (w - 1) as nat)
    } else {
        zero_padded(f, w)
    }
}

/// A number of millionths written as a decimal: sign, integer part, and,
/// where the fraction is not zero, a point and the fraction without trailing
/// zeros ("-1.5" for -1_500_000, "14" for 14_000_000).
pub open spec fn millionths_text(v: int) -> Seq<u8> {
    let m: nat = if v < 0 { (-v) as nat } else { v as nat };
    let sign: Seq<u8> = if v < 0 { seq![45u8] } else { Seq::empty() };
    let frac: nat = m % 1_000_000;
    sign + decimal(m / 1_000_000) + if frac == 0 {
        Seq::<u8>::empty()
    } else {
        seq![46u8] + fraction_digits(frac, 6)
    }
}

proof fn lemma_fraction_digits_ascii(f: nat, w: nat)
    ensures
        all_ascii(fraction_digits(f, w)),
    decreases w,
{
    if w > 0 && f % 10 == 0 {
        lemma_fraction_digits_ascii(f / 10, (w - 1) as nat);
    } else {
        lemma_zero_padded_ascii(f, w);
    }
}

/// `v` millionths written as a decimal.
pub fn millionths_string(v: i64) -> (s: String)
    ensures
        s@ == ascii_chars(millionths_text(v as int)),
{
    let mut out: Vec<u8> = Vec::new();
    let m: u64 = if v < 0 {
        (-(v as i128)) as u64
    } else {
        v as u64
    };
    if v < 0 {
        out.push(45u8);
    }
    let ghost sign = out@;
    push_decimal(&mut out, m / 1_000_000);
    let ghost head = out@;
    let frac = m % 1_000_000;
    if frac != 0 {
        out.push(46u8);
        let mut f: u64 = frac;
        let mut w: usize = 6;
        while w > 0 && f % 10 == 0
            invariant
                w <= 6,
                fraction_digits(f as nat, w as nat) == fraction_digits(frac as nat, 6),
            decreases w,
        {
            f = f / 10;
            w = w - 1;
        }
        push_zero_padded(&mut out, f, w);
        proof {
            assert(out@ =~= head + (seq![46u8] + fraction_digits(frac as nat, 6)));
        }
    }
    proof {
        assert(out@ =~= millionths_text(v as int));
        lemma_decimal_is_digits((m / 1_000_000) as nat);
        lemma_fraction_digits_ascii((m % 1_000_000) as nat, 6);
        let t = millionths_text(v as int);
        assert(all_ascii(t)) by {
            let d = decimal((m / 1_000_000) as nat);
            let fd = fraction_digits((m % 1_000_000) as nat, 6);
            assert forall|i: int| 0 <= i < t.len() implies #[trigger] t[i] < 128 by {
                let l0 = sign.len() as int;
                if i < l0 {
                } else if i < l0 + d.len() {
                    assert(t[i] == d[i - l0]);
                } else if i > l0 + d.len() {
                    assert(t[i] == fd[i - l0 - d.len() - 1]);
                }
            }
        }
    }
    ascii_string(out)
}

/// Value of a sequence of ASCII decimal digit characters.
pub open spec fn digits_value(d: Seq<char>) -> nat
    decreases d.len(),
{
    if d.len() == 0 {
        0
    } else {
        digits_value(d.drop_last()) * 10 + ((d.last() as int - 48) as nat)
    }
}

/// A string without its leading '+', if it has one.
pub open spec fn unsigned_digits(s: Seq<char>) -> Seq<char> {
    if s.len() > 0 && s[0] == '+' {
        s.drop_first()
    } else {
        s
    }
}

/// The unsigned integer a string spells in decimal: an optional '+' followed
/// by one or more ASCII digits and nothing else.
pub open spec fn parse_unsigned(s: Seq<char>) -> Option<nat> {
    let d = unsigned_digits(s);
    if d.len() > 0 && (forall|i: int| 0 <= i < d.len() ==> '0' <= #[trigger] d[i] <= '9') {
        Some(digits_value(d))
    } else {
        None
    }
}

/// The value of a run of digits is at least that of each of its prefixes.
proof fn lemma_digits_value_prefix(d: Seq<char>, k: int)
    requires
        0 <= k <= d.len(),
        forall|i: int| 0 <= i < d.len() ==> '0' <= #[trigger] d[i] <= '9',
    ensures
        digits_value(d.take(k)) <= digits_value(d),
    decreases d.len(),
{
    if k < d.len() {
        assert(d.drop_last().take(k) =~= d.take(k));
        lemma_digits_value_prefix(d.drop_last(), k);
    } else {
        assert(d.take(k) =~= d);
    }
}

/// `parse_unsigned` limited to values up to `max`.
pub open spec fn parse_bounded(s: Seq<char>, max: nat) -> Option<nat> {
    match parse_unsigned(s) {
        Some(v) => if v <= max {
            Some(v)
        } else {
            None
        },
        None => None,
    }
}

/// The value of `s` when it is an optional '+' followed by one or more ASCII
/// digits and that value is at most `max`; `None` otherwise. This is the
/// format the standard library's `from_str` accepts for unsigned integers.
fn parse_up_to(s: &str, max: u64) -> (r: Option<u64>)
    requires
        max >= 9,
    ensures
        r == (match parse_bounded(s@, max as nat) {
            Some(v) => Some(v as u64),
            None => None::<u64>,
        }),
{
    let n = s.unicode_len();
    let start: usize = if n > 0 && s.get_char(0) == '+' {
        1
    } else {
        0
    };
    let ghost d = unsigned_digits(s@);
    assert(d =~= s@.skip(start as int));
    if start == n {
        return None;
    }
    let mut acc: u64 = 0;
    let mut k: usize = start;
    assert(d.take(0) =~= Seq::<char>::empty());
    while k < n
        invariant
            n == s@.len(),
            start <= k <= n,
            start < n,
            d == s@.skip(start as int),
            d == unsigned_digits(s@),
            max >= 9,
            forall|j: int| 0 <= j < k - start ==> '0' <= #[trigger] d[j] <= '9',
            acc as nat == digits_value(d.take(k - start)),
            acc <= max,
        decreases n - k,
    {
        let c = s.get_char(k);
        assert(d[k - start] == c);
        if !('0' <= c && c <= '9') {
            return None;
        }
        let dig: u64 = (c as u32 - 48) as u64;
        assert(d.take(k + 1 - start).drop_last() =~= d.take(k - start));
        assert(d.take(k + 1 - start).last() == c);
        assert(digits_value(d.take(k + 1 - start)) == acc * 10 + dig);
        if acc > (max - dig) / 10 {
            proof {
                assert(acc * 10 + dig > max) by (nonlinear_arith)
                    requires
                        acc > (max - dig) / 10,
                        dig <= 9,
                        max >= 9,
                ;
                if forall|i: int| 0 <= i < d.len() ==> '0' <= #[trigger] d[i] <= '9' {
                    lemma_digits_value_prefix(d, k + 1 - start);
                }
            }
            return None;
        }
        proof {
            assert(acc * 10 + dig <= max) by (nonlinear_arith)
                requires
                    acc <= (max - dig) / 10,
                    dig <= 9,
                    max >= 9,
            ;
        }
        acc = acc * 10 + dig;
        k = k + 1;
    }
    assert(d.take(n - start) =~= d);
    Some(acc)
}

/// `u16::from_str`: the value of an optional '+' followed by decimal digits,
/// when it fits in 16 bits; `None` for anything else.
pub fn parse_u16(s: &str) -> (r: Option<u16>)
    ensures
        r == (match parse_bounded(s@, u16::MAX as nat) {
            Some(v) => Some(v as u16),
            None => None::<u16>,
        }),
{
    match parse_up_to(s, 0xFFFF) {
        Some(v) => Some(v as u16),
        None => None,
    }
}

/// `u64::from_str`: the value of an optional '+' followed by decimal digits,
/// when it fits in 64 bits; `None` for anything else.
pub fn parse_u64(s: &str) -> (r: Option<u64>)
    ensures
        r == (match parse_bounded(s@, u64::MAX as nat) {
            Some(v) => Some(v as u64),
            None => None::<u64>,
        }),
{
    parse_up_to(s, u64::MAX)
}

/// Lexicographic order of strings by character code, which is the order of
/// their UTF-8 bytes and so the order in which file names sort.
pub open spec fn lex_le(a: Seq<char>, b: Seq<char>) -> bool
    decreases a.len(),
{
    if a.len() == 0 {
        true
    } else if b.len() == 0 {
        false
    } else if a[0] != b[0] {
        (a[0] as int) < (b[0] as int)
    } else {
        lex_le(a.drop_first(), b.drop_first())
    }
}

/// `lex_le` is transitive.
pub proof fn lemma_lex_le_transitive(a: Seq<char>, b: Seq<char>, c: Seq<char>)
    requires
        lex_le(a, b),
        lex_le(b, c),
    ensures
        lex_le(a, c),
    decreases a.len(),
{
    if a.len() > 0 && b.len() > 0 && c.len() > 0 && a[0] == b[0] && b[0] == c[0] {
        lemma_lex_le_transitive(a.drop_first(), b.drop_first(), c.drop_first());
    }
}

/// `lex_le` is total.
pub proof fn lemma_lex_le_total(a: Seq<char>, b: Seq<char>)
    ensures
        lex_le(a, b) || lex_le(b, a),
    decreases a.len(),
{
    if a.len() > 0 && b.len() > 0 && a[0] == b[0] {
        lemma_lex_le_total(a.drop_first(), b.drop_first());
    }
}

/// Whether `a` sorts before or equal to `b`.
pub fn str_le(a: &str, b: &str) -> (r: bool)
    ensures
        r == lex_le(a@, b@),
{
    let na = a.unicode_len();
    let nb = b.unicode_len();
    let mut i: usize = 0;
    assert(a@.skip(0) =~= a@);
    assert(b@.skip(0) =~= b@);
    while i < na && i < nb && a.get_char(i) == b.get_char(i)
        invariant
            na == a@.len(),
            nb == b@.len(),
            i <= na,
            i <= nb,
            lex_le(a@, b@) == lex_le(a@.skip(i as int), b@.skip(i as int)),
        decreases na - i,
    {
        proof {
            assert(a@.skip(i as int).drop_first() =~= a@.skip(i + 1));
            assert(b@.skip(i as int).drop_first() =~= b@.skip(i + 1));
        }
        i = i + 1;
    }
    if i == na {
        return true;
    }
    if i == nb {
        return false;
    }
    let ca = a.get_char(i);
    let cb = b.get_char(i);
    proof {
        assert(a@.skip(i as int)[0] == ca);
        assert(b@.skip(i as int)[0] == cb);
    }
    (ca as u32) < (cb as u32)
}

/// Unicode `White_Space`: the characters `str::trim` removes.
pub open spec fn is_white_space(c: char) -> bool {
    let v = c as u32;
    ||| 0x09 <= v <= 0x0D
    ||| v == 0x20
    ||| v == 0x85
    ||| v == 0xA0
    ||| v == 0x1680
    ||| 0x2000 <= v <= 0x200A
    ||| v == 0x2028
    ||| v == 0x2029
    ||| v == 0x202F
    ||| v == 0x205F
    ||| v == 0x3000
}

fn white_space(c: char) -> (b: bool)
    ensures
        b == is_white_space(c),
{
    let v = c as u32;
    (0x09 <= v && v <= 0x0D) || v == 0x20 || v == 0x85 || v == 0xA0 || v == 0x1680 || (0x2000 <= v
        && v <= 0x200A) || v == 0x2028 || v == 0x2029 || v == 0x202F || v == 0x205F || v == 0x3000
}

/// `s` without its leading white space.
pub open spec fn trim_start(s: Seq<char>) -> Seq<char>
    decreases s.len(),
{
    if s.len() > 0 && is_white_space(s[0]) {
        trim_start(s.drop_first())
    } else {
        s
    }
}

/// `s` without its trailing white space.
pub open spec fn trim_end(s: Seq<char>) -> Seq<char>
    decreases s.len(),
{
    if s.len() > 0 && is_white_space(s.last()) {
        trim_end(s.drop_last())
    } else {
        s
    }
}

/// `s` without its leading and trailing white space.
pub open spec fn trimmed(s: Seq<char>) -> Seq<char> {
    trim_end(trim_start(s))
}

/// `s` without its leading and trailing white space, as `str::trim` gives it.
pub fn trim_white(s: &str) -> (t: &str)
    ensures
        t@ == trimmed(s@),
{
    let n = s.unicode_len();
    let mut i: usize = 0;
    assert(s@.skip(0) =~= s@);
    while i < n && white_space(s.get_char(i))
        invariant
            n == s@.len(),
            i <= n,
            trim_start(s@) == trim_start(s@.skip(i as int)),
        decreases n - i,
    {
        assert(s@.skip(i as int).drop_first() =~= s@.skip(i + 1));
        i = i + 1;
    }
    assert(trim_start(s@) == s@.skip(i as int)) by {
        if i < n {
            assert(s@.skip(i as int)[0] == s@[i as int]);
        }
    }
    let mut j: usize = n;
    assert(s@.skip(i as int) =~= s@.subrange(i as int, n as int));
    while j > i && white_space(s.get_char(j - 1))
        invariant
            n == s@.len(),
            i <= j <= n,
            trimmed(s@) == trim_end(s@.subrange(i as int, j as int)),
        decreases j - i,
    {
        assert(s@.subrange(i as int, j as int).drop_last() =~= s@.subrange(i as int, j - 1));
        assert(s@.subrange(i as int, j as int).last() == s@[j - 1]);
        j = j - 1;
    }
    assert(trim_end(s@.subrange(i as int, j as int)) == s@.subrange(i as int, j as int)) by {
        if j > i {
            assert(s@.subrange(i as int, j as int).last() == s@[j - 1]);
        }
    }
    s.substring_char(i, j)
}

/// Reading back a number written in decimal gives the number: `decimal` and
/// `parse_unsigned` undo each other.
pub proof fn lemma_parse_decimal(n: nat)
    ensures
        parse_unsigned(ascii_chars(decimal(n))) == Some(n),
{
    lemma_decimal_value(n);
    lemma_decimal_is_digits(n);
    let t = ascii_chars(decimal(n));
    assert(t.len() > 0 && t[0] != '+') by {
        assert(t[0] == decimal(n)[0] as char);
    }
    assert(unsigned_digits(t) == t);
    assert forall|i: int| 0 <= i < t.len() implies '0' <= #[trigger] t[i] <= '9' by {
        assert(t[i] == decimal(n)[i] as char);
    }
}

proof fn lemma_decimal_value(n: nat)
    ensures
        digits_value(ascii_chars(decimal(n))) == n,
    decreases n,
{
    let b = digit_byte(n % 10);
    assert(b == 48 + n % 10);
    assert((b as char) as int == b as int);
    if n < 10 {
        let t = ascii_chars(decimal(n));
        assert(t.drop_last() =~= Seq::<char>::empty());
        assert(t.last() == b as char);
        assert(digits_value(t.drop_last()) == 0);
    } else {
        lemma_decimal_value(n / 10);
        let t = ascii_chars(decimal(n));
        assert(t.drop_last() =~= ascii_chars(decimal(n / 10)));
        assert(t.last() == b as char);
    }
}

/// Two strings that each sort before or equal to the other are equal.
pub proof fn lemma_lex_le_antisymmetric(a: Seq<char>, b: Seq<char>)
    requires
        lex_le(a, b),
        lex_le(b, a),
    ensures
        a == b,
    decreases a.len(),
{
    if a.len() == 0 {
        assert(b.len() == 0);
        assert(a =~= b);
    } else {
        lemma_lex_le_antisymmetric(a.drop_first(), b.drop_first());
        assert(a =~= b.drop_first().insert(0, b[0]));
        assert(b =~= b.drop_first().insert(0, b[0]));
    }
}

proof fn lemma_trim_start_shape(s: Seq<char>) -> (i: int)
    ensures
        0 <= i <= s.len(),
        trim_start(s) == s.skip(i),
        forall|k: int| 0 <= k < i ==> is_white_space(#[trigger] s[k]),
        i < s.len() ==> !is_white_space(s[i]),
    decreases s.len(),
{
    if s.len() > 0 && is_white_space(s[0]) {
        let j = lemma_trim_start_shape(s.drop_first());
        assert(s.drop_first().skip(j) =~= s.skip(j + 1));
        assert forall|k: int| 0 <= k < j + 1 implies is_white_space(#[trigger] s[k]) by {
            if k > 0 {
                assert(s[k] == s.drop_first()[k - 1]);
            }
        }
        j + 1
    } else {
        assert(s.skip(0) =~= s);
        0
    }
}

proof fn lemma_trim_end_shape(s: Seq<char>) -> (j: int)
    ensures
        0 <= j <= s.len(),
        trim_end(s) == s.take(j),
        forall|k: int| j <= k < s.len() ==> is_white_space(#[trigger] s[k]),
        j > 0 ==> !is_white_space(s[j - 1]),
    decreases s.len(),
{
    if s.len() > 0 && is_white_space(s.last()) {
        let j = lemma_trim_end_shape(s.drop_last());
        assert(s.drop_last().take(j) =~= s.take(j));
        assert forall|k: int| j <= k < s.len() implies is_white_space(#[trigger] s[k]) by {
            if k < s.len() - 1 {
                assert(s[k] == s.drop_last()[k]);
            }
        }
        j
    } else {
        assert(s.take(s.len() as int) =~= s);
        s.len() as int
    }
}

/// Trimming keeps one contiguous stretch of the text: everything before and
/// after it is white space, and it neither starts nor ends with white space.
pub proof fn lemma_trimmed_shape(s: Seq<char>)
    ensures
        exists|i: int, j: int|
            0 <= i <= j <= s.len() && trimmed(s) == s.subrange(i, j) && (forall|k: int|
                0 <= k < i ==> is_white_space(#[trigger] s[k])) && (forall|k: int|
                j <= k < s.len() ==> is_white_space(#[trigger] s[k])),
        trimmed(s).len() > 0 ==> !is_white_space(trimmed(s)[0]) && !is_white_space(
            trimmed(s).last(),
        ),
{
    let i = lemma_trim_start_shape(s);
    let t = s.skip(i);
    let j = lemma_trim_end_shape(t);
    assert(trimmed(s) == t.take(j));
    assert(t.take(j) =~= s.subrange(i, i + j));
    assert forall|k: int| i + j <= k < s.len() implies is_white_space(#[trigger] s[k]) by {
        assert(s[k] == t[k - i]);
    }
    if j > 0 {
        assert(trimmed(s)[0] == s[i]);
        assert(trimmed(s).last() == t[j - 1]);
    }
    assert(0 <= i <= i + j <= s.len() && trimmed(s) == s.subrange(i, i + j) && (forall|k: int|
        0 <= k < i ==> is_white_space(#[trigger] s[k])) && (forall|k: int|
        i + j <= k < s.len() ==> is_white_space(#[trigger] s[k])));
}

} // verus!
