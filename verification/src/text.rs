//! Byte-string helpers shared by the codec and the address parser.
//!
//! All protocol text in this library is ASCII, so it is handled as byte
//! vectors; `Seq<u8>` is the mathematical model throughout.

use vstd::prelude::*;

verus! {

/// ASCII lower-casing of one byte.
pub open spec fn lower_byte(b: u8) -> u8 {
    if 'A' as u8 <= b && b <= 'Z' as u8 {
        (b + 32) as u8
    } else {
        b
    }
}

/// ASCII lower-casing of a byte string.
pub open spec fn lower_bytes(s: Seq<u8>) -> Seq<u8> {
    s.map_values(|b: u8| lower_byte(b))
}

/// Two byte strings are equal up to ASCII case.
pub open spec fn eq_ignore_case(a: Seq<u8>, b: Seq<u8>) -> bool {
    lower_bytes(a) == lower_bytes(b)
}

/// Exact equality of two byte strings.
pub fn bytes_eq(a: &[u8], b: &[u8]) -> (r: bool)
    ensures
        r == (a@ == b@),
{
    if a.len() != b.len() {
        assert(a@.len() != b@.len());
        return false;
    }
    let mut i: usize = 0;
    while i < a.len()
        invariant
            i <= a.len(),
            a.len() == b.len(),
            forall|j: int| 0 <= j < i ==> a@[j] == b@[j],
        decreases a.len() - i,
    {
        if a[i] != b[i] {
            return false;
        }
        i += 1;
    }
    proof {
        assert(a@ =~= b@);
    }
    true
}

/// Case-insensitive equality of two byte strings (ASCII case folding).
pub fn bytes_eq_ignore_case(a: &[u8], b: &[u8]) -> (r: bool)
    ensures
        r == eq_ignore_case(a@, b@),
{
    if a.len() != b.len() {
        assert(lower_bytes(a@).len() != lower_bytes(b@).len());
        return false;
    }
    let mut i: usize = 0;
    while i < a.len()
        invariant
            i <= a.len(),
            a.len() == b.len(),
            forall|j: int| 0 <= j < i ==> lower_byte(a@[j]) == lower_byte(b@[j]),
        decreases a.len() - i,
    {
        let mut x = a[i];
        let mut y = b[i];
        if 'A' as u8 <= x && x <= 'Z' as u8 {
            x = x + 32;
        }
        if 'A' as u8 <= y && y <= 'Z' as u8 {
            y = y + 32;
        }
        if x != y {
            assert(lower_bytes(a@)[i as int] != lower_bytes(b@)[i as int]);
            return false;
        }
        i += 1;
    }
    proof {
        assert(lower_bytes(a@) =~= lower_bytes(b@));
    }
    true
}

/// Copy of `v[from..to]` as a fresh vector.
pub fn subvec(v: &[u8], from: usize, to: usize) -> (r: Vec<u8>)
    requires
        from <= to <= v@.len(),
    ensures
        r@ == v@.subrange(from as int, to as int),
{
    let mut r: Vec<u8> = Vec::new();
    let mut i: usize = from;
    while i < to
        invariant
            from <= i <= to <= v@.len(),
            r@ == v@.subrange(from as int, i as int),
        decreases to - i,
    {
        r.push(v[i]);
        proof {
            assert(r@ =~= v@.subrange(from as int, i + 1 as int));
        }
        i += 1;
    }
    r
}

/// `b` is an ASCII decimal digit.
pub open spec fn is_dec_digit(b: u8) -> bool {
    '0' as u8 <= b && b <= '9' as u8
}

/// A non-empty byte string of decimal digits.
pub open spec fn is_dec_string(s: Seq<u8>) -> bool {
    s.len() > 0 && forall|i: int| 0 <= i < s.len() ==> is_dec_digit(#[trigger] s[i])
}

/// Numeric value of a decimal digit string, read left to right.
pub open spec fn dec_value(s: Seq<u8>) -> int
    decreases s.len(),
{
    if s.len() == 0 {
        0
    } else {
        dec_value(s.drop_last()) * 10 + (s.last() - '0' as u8)
    }
}

/// Canonical decimal spelling of `n`: minimal, no leading zero.
pub open spec fn dec_digits(n: nat) -> Seq<u8>
    decreases n,
{
    if n < 10 {
        seq![(n + '0' as u8) as u8]
    } else {
        dec_digits(n / 10).push(((n % 10) + '0' as u8) as u8)
    }
}

/// The canonical spelling is made of digits and reads back as the number.
pub proof fn lemma_dec_digits_value(n: nat)
    ensures
        is_dec_string(dec_digits(n)),
        dec_value(dec_digits(n)) == n,
    decreases n,
{
    reveal_with_fuel(dec_value, 3);
    if n < 10 {
        assert(dec_digits(n).drop_last() =~= Seq::<u8>::empty());
        assert((n + '0' as u8) as u8 == n + '0' as u8);
        assert(dec_digits(n).last() == (n + '0' as u8) as u8);
    } else {
        lemma_dec_digits_value(n / 10);
        let s = dec_digits(n / 10);
        let d = ((n % 10) + '0' as u8) as u8;
        assert(d == n % 10 + '0' as u8);
        assert(dec_digits(n) == s.push(d));
        assert(dec_digits(n).drop_last() =~= s);
        assert(dec_digits(n).last() == d);
        assert(dec_value(dec_digits(n)) == dec_value(s) * 10 + (d - '0' as u8));
        assert((n / 10) * 10 + n % 10 == n) by (nonlinear_arith);
        assert(forall|i: int|
            0 <= i < dec_digits(n).len() ==> is_dec_digit(#[trigger] dec_digits(n)[i])) by {
            assert(forall|i: int| 0 <= i < s.len() ==> dec_digits(n)[i] == #[trigger] s[i]);
            assert(is_dec_digit(d));
        }
    }
}

/// A digit string's value is non-negative.
pub proof fn lemma_dec_value_nonneg(s: Seq<u8>)
    requires
        forall|i: int| 0 <= i < s.len() ==> is_dec_digit(#[trigger] s[i]),
    ensures
        dec_value(s) >= 0,
    decreases s.len(),
{
    if s.len() > 0 {
        lemma_dec_value_nonneg(s.drop_last());
    }
}

/// Extending a digit string never shrinks its value.
pub proof fn lemma_dec_value_prefix(s: Seq<u8>, i: int)
    requires
        0 <= i <= s.len(),
        forall|j: int| 0 <= j < s.len() ==> is_dec_digit(#[trigger] s[j]),
    ensures
        dec_value(s) >= dec_value(s.subrange(0, i)),
    decreases s.len() - i,
{
    if i < s.len() {
        lemma_dec_value_prefix(s, i + 1);
        let a = s.subrange(0, i);
        let b = s.subrange(0, i + 1);
        assert(b.drop_last() =~= a);
        lemma_dec_value_nonneg(a);
    } else {
        assert(s.subrange(0, i) =~= s);
    }
}

/// Emit the canonical decimal spelling of `n`.
pub fn format_dec(n: u32) -> (r: Vec<u8>)
    ensures
        r@ == dec_digits(n as nat),
    decreases n,
{
    if n < 10 {
        let mut r: Vec<u8> = Vec::new();
        r.push(n as u8 + '0' as u8);
        proof {
            assert(r@ =~= dec_digits(n as nat));
        }
        r
    } else {
        let mut r = format_dec(n / 10);
        r.push((n % 10) as u8 + '0' as u8);
        proof {
            assert(r@ =~= dec_digits(n as nat));
        }
        r
    }
}

/// Parse a decimal digit string, rejecting values above `max`.
///
/// Returns the value exactly when the input is a non-empty all-digit string
/// whose value is at most `max`; returns `None` otherwise.
pub fn parse_dec(v: &[u8], max: u32) -> (r: Option<u32>)
    ensures
        match r {
            Some(n) => is_dec_string(v@) && dec_value(v@) == n && n <= max,
            None => !(is_dec_string(v@) && dec_value(v@) <= max),
        },
{
    if v.len() == 0 {
        return None;
    }
    let mut acc: u64 = 0;
    let mut i: usize = 0;
    while i < v.len()
        invariant
            0 < v@.len(),
            i <= v@.len(),
            acc == dec_value(v@.subrange(0, i as int)),
            acc <= max,
            max <= u32::MAX,
            forall|j: int| 0 <= j < i ==> is_dec_digit(#[trigger] v@[j]),
        decreases v@.len() - i,
    {
        let b = v[i];
        if !('0' as u8 <= b && b <= '9' as u8) {
            return None;
        }
        let d = (b - '0' as u8) as u64;
        acc = acc * 10 + d;
        proof {
            assert(v@.subrange(0, i + 1).drop_last() =~= v@.subrange(0, i as int));
        }
        i += 1;
        if acc > max as u64 {
            proof {
                if is_dec_string(v@) {
                    lemma_dec_value_prefix(v@, i as int);
                    assert(v@.subrange(0, i as int) =~= v@.subrange(0, i as int));
                }
            }
            return None;
        }
    }
    proof {
        assert(v@.subrange(0, v@.len() as int) =~= v@);
    }
    Some(acc as u32)
}

/// `b` is an ASCII hexadecimal digit, either case.
pub open spec fn is_hex_digit(b: u8) -> bool {
    is_dec_digit(b) || ('a' as u8 <= b && b <= 'f' as u8) || ('A' as u8 <= b && b <= 'F' as u8)
}

/// Value of one hexadecimal digit.
pub open spec fn hex_digit_val(b: u8) -> int {
    if is_dec_digit(b) {
        b - '0' as u8
    } else if 'a' as u8 <= b && b <= 'f' as u8 {
        b - 'a' as u8 + 10
    } else {
        b - 'A' as u8 + 10
    }
}

/// A non-empty byte string of hexadecimal digits.
pub open spec fn is_hex_string(s: Seq<u8>) -> bool {
    s.len() > 0 && forall|i: int| 0 <= i < s.len() ==> is_hex_digit(#[trigger] s[i])
}

/// Numeric value of a hexadecimal digit string, read left to right.
pub open spec fn hex_value(s: Seq<u8>) -> int
    decreases s.len(),
{
    if s.len() == 0 {
        0
    } else {
        hex_value(s.drop_last()) * 16 + hex_digit_val(s.last())
    }
}

/// Lower-case spelling of one hexadecimal digit value.
pub open spec fn hex_char(d: nat) -> u8 {
    if d < 10 {
        (d + '0' as u8) as u8
    } else {
        (d - 10 + 'a' as u8) as u8
    }
}

/// Canonical hexadecimal spelling of `n`: minimal, lower case, no leading zero.
pub open spec fn hex_digits(n: nat) -> Seq<u8>
    decreases n,
{
    if n < 16 {
        seq![hex_char(n)]
    } else {
        hex_digits(n / 16).push(hex_char(n % 16))
    }
}

/// The canonical hexadecimal spelling reads back as the number.
pub proof fn lemma_hex_digits_value(n: nat)
    ensures
        is_hex_string(hex_digits(n)),
        hex_value(hex_digits(n)) == n,
    decreases n,
{
    reveal_with_fuel(hex_value, 3);
    if n < 16 {
        assert(hex_digits(n).drop_last() =~= Seq::<u8>::empty());
        assert(hex_digits(n).last() == hex_char(n));
        assert(is_hex_digit(hex_char(n)));
        assert(hex_digit_val(hex_char(n)) == n);
    } else {
        lemma_hex_digits_value(n / 16);
        let s = hex_digits(n / 16);
        let d = hex_char(n % 16);
        assert(hex_digits(n) == s.push(d));
        assert(hex_digits(n).drop_last() =~= s);
        assert(hex_digits(n).last() == d);
        assert(is_hex_digit(d) && hex_digit_val(d) == n % 16);
        assert(hex_value(hex_digits(n)) == hex_value(s) * 16 + hex_digit_val(d));
        assert((n / 16) * 16 + n % 16 == n) by (nonlinear_arith);
        assert(forall|i: int|
            0 <= i < hex_digits(n).len() ==> is_hex_digit(#[trigger] hex_digits(n)[i])) by {
            assert(forall|i: int| 0 <= i < s.len() ==> hex_digits(n)[i] == #[trigger] s[i]);
        }
    }
}

/// A hexadecimal digit string's value is non-negative.
pub proof fn lemma_hex_value_nonneg(s: Seq<u8>)
    requires
        forall|i: int| 0 <= i < s.len() ==> is_hex_digit(#[trigger] s[i]),
    ensures
        hex_value(s) >= 0,
    decreases s.len(),
{
    if s.len() > 0 {
        lemma_hex_value_nonneg(s.drop_last());
    }
}

/// Extending a hexadecimal digit string never shrinks its value.
pub proof fn lemma_hex_value_prefix(s: Seq<u8>, i: int)
    requires
        0 <= i <= s.len(),
        forall|j: int| 0 <= j < s.len() ==> is_hex_digit(#[trigger] s[j]),
    ensures
        hex_value(s) >= hex_value(s.subrange(0, i)),
    decreases s.len() - i,
{
    if i < s.len() {
        lemma_hex_value_prefix(s, i + 1);
        let a = s.subrange(0, i);
        let b = s.subrange(0, i + 1);
        assert(b.drop_last() =~= a);
        lemma_hex_value_nonneg(a);
    } else {
        assert(s.subrange(0, i) =~= s);
    }
}

/// Emit the canonical lower-case hexadecimal spelling of `n`.
pub fn format_hex(n: u16) -> (r: Vec<u8>)
    ensures
        r@ == hex_digits(n as nat),
    decreases n,
{
    if n < 16 {
        let mut r: Vec<u8> = Vec::new();
        let d = n as u8;
        if d < 10 {
            r.push(d + '0' as u8);
        } else {
            r.push(d - 10 + 'a' as u8);
        }
        proof {
            assert(r@ =~= hex_digits(n as nat));
        }
        r
    } else {
        let mut r = format_hex(n / 16);
        let d = (n % 16) as u8;
        if d < 10 {
            r.push(d + '0' as u8);
        } else {
            r.push(d - 10 + 'a' as u8);
        }
        proof {
            assert(r@ =~= hex_digits(n as nat));
        }
        r
    }
}

/// Parse a hexadecimal digit string, either case, rejecting values above `max`.
///
/// Returns the value exactly when the input is a non-empty all-hex string
/// whose value is at most `max`; returns `None` otherwise.
pub fn parse_hex(v: &[u8], max: u32) -> (r: Option<u32>)
    ensures
        match r {
            Some(n) => is_hex_string(v@) && hex_value(v@) == n && n <= max,
            None => !(is_hex_string(v@) && hex_value(v@) <= max),
        },
{
    if v.len() == 0 {
        return None;
    }
    let mut acc: u64 = 0;
    let mut i: usize = 0;
    while i < v.len()
        invariant
            0 < v@.len(),
            i <= v@.len(),
            acc == hex_value(v@.subrange(0, i as int)),
            acc <= max,
            max <= u32::MAX,
            forall|j: int| 0 <= j < i ==> is_hex_digit(#[trigger] v@[j]),
        decreases v@.len() - i,
    {
        let b = v[i];
        let d: u64;
        if '0' as u8 <= b && b <= '9' as u8 {
            d = (b - '0' as u8) as u64;
        } else if 'a' as u8 <= b && b <= 'f' as u8 {
            d = (b - 'a' as u8) as u64 + 10;
        } else if 'A' as u8 <= b && b <= 'F' as u8 {
            d = (b - 'A' as u8) as u64 + 10;
        } else {
            return None;
        }
        acc = acc * 16 + d;
        proof {
            assert(v@.subrange(0, i + 1).drop_last() =~= v@.subrange(0, i as int));
        }
        i += 1;
        if acc > max as u64 {
            proof {
                if is_hex_string(v@) {
                    lemma_hex_value_prefix(v@, i as int);
                }
            }
            return None;
        }
    }
    proof {
        assert(v@.subrange(0, v@.len() as int) =~= v@);
    }
    Some(acc as u32)
}

/// Append a copy of `src` to `dst`.
pub fn append_bytes(dst: &mut Vec<u8>, src: &[u8])
    ensures
        final(dst)@ == old(dst)@ + src@,
{
    let mut i: usize = 0;
    while i < src.len()
        invariant
            i <= src@.len(),
            dst@ == old(dst)@ + src@.subrange(0, i as int),
        decreases src@.len() - i,
    {
        dst.push(src[i]);
        proof {
            assert(dst@ =~= old(dst)@ + src@.subrange(0, i + 1));
        }
        i += 1;
    }
    proof {
        assert(dst@ =~= old(dst)@ + src@);
    }
}

/// Copy of a slice of 16-bit values as a fresh vector.
pub fn copy_u16s(v: &[u16]) -> (r: Vec<u16>)
    ensures
        r@ == v@,
{
    let mut r: Vec<u16> = Vec::new();
    let mut i: usize = 0;
    while i < v.len()
        invariant
            i <= v@.len(),
            r@ == v@.subrange(0, i as int),
        decreases v@.len() - i,
    {
        r.push(v[i]);
        proof {
            assert(r@ =~= v@.subrange(0, i + 1));
        }
        i += 1;
    }
    proof {
        assert(r@ =~= v@);
    }
    r
}

/// Index of the first occurrence of `b` in `v` at or after `from`.
pub fn find_byte(v: &[u8], from: usize, b: u8) -> (r: Option<usize>)
    requires
        from <= v@.len(),
    ensures
        match r {
            Some(i) => from <= i < v@.len() && v@[i as int] == b
                && forall|j: int| from <= j < i ==> v@[j] != b,
            None => forall|j: int| from <= j < v@.len() ==> v@[j] != b,
        },
{
    let mut i: usize = from;
    while i < v.len()
        invariant
            from <= i <= v@.len(),
            forall|j: int| from <= j < i ==> v@[j] != b,
        decreases v@.len() - i,
    {
        if v[i] == b {
            return Some(i);
        }
        i += 1;
    }
    None
}

} // verus!
