//! Small string utilities shared by the pack parser: identifier
//! sanitising, ASCII case folding and tolerant number parsing.

use vstd::prelude::*;

verus! {

/// An ASCII letter or digit.
pub open spec fn is_ascii_alnum(c: char) -> bool {
    (48 <= c as u32 && c as u32 <= 57) || (97 <= c as u32 && c as u32 <= 122) || (65 <= c as u32
        && c as u32 <= 90)
}

/// Characters kept verbatim when sanitising a pack identifier; everything
/// else becomes an underscore.  Dots survive only in fully-qualified names.
pub open spec fn keeps_char(c: char, is_full: bool) -> bool {
    is_ascii_alnum(c) || (is_full && c == '.')
}

/// The sanitised form of an identifier: same length, disallowed
/// characters replaced by underscores.
pub open spec fn safe_name_of(s: Seq<char>, is_full: bool) -> Seq<char> {
    s.map(|_i: int, c: char| if keeps_char(c, is_full) { c } else { '_' })
}

/// Relies on String::push from std: appends one char.
#[verifier::external_body]
pub fn push_char(s: &mut String, c: char)
    ensures
        final(s)@ == old(s)@.push(c),
{
    s.push(c);
}

fn keeps_char_exec(c: char, is_full: bool) -> (r: bool)
    ensures
        r == keeps_char(c, is_full),
{
    let u = c as u32;
    (48 <= u && u <= 57) || (97 <= u && u <= 122) || (65 <= u && u <= 90) || (is_full && u == 46)
}

/// Sanitise an author-supplied category identifier.
pub fn taco_safe_name(value: &str, is_full: bool) -> (r: String)
    ensures
        r@ == safe_name_of(value@, is_full),
{
    let n = value.unicode_len();
    let mut r = String::new();
    for i in 0..n
        invariant
            n == value@.len(),
            r@ == safe_name_of(value@.subrange(0, i as int), is_full),
    {
        let c = value.get_char(i);
        if keeps_char_exec(c, is_full) {
            push_char(&mut r, c);
        } else {
            push_char(&mut r, '_');
        }
        assert(safe_name_of(value@.subrange(0, i + 1), is_full) =~= safe_name_of(
            value@.subrange(0, i as int),
            is_full,
        ).push(if keeps_char(value@[i as int], is_full) {
            value@[i as int]
        } else {
            '_'
        }));
    }
    assert(value@.subrange(0, n as int) =~= value@);
    r
}

/// ASCII lower-casing of a single character; other characters unchanged.
pub open spec fn lower_char(c: char) -> char {
    if 65 <= c as u32 && c as u32 <= 90 {
        ((c as u32 + 32) as u8) as char
    } else {
        c
    }
}

/// ASCII-lower-cased text, character by character.
pub open spec fn lower_of(s: Seq<char>) -> Seq<char> {
    s.map(|_i: int, c: char| lower_char(c))
}

/// ASCII lower-case a name so that element and attribute names compare
/// case-insensitively.
pub fn ascii_lower(value: &str) -> (r: String)
    ensures
        r@ == lower_of(value@),
{
    let n = value.unicode_len();
    let mut r = String::new();
    for i in 0..n
        invariant
            n == value@.len(),
            r@ == lower_of(value@.subrange(0, i as int)),
    {
        let c = value.get_char(i);
        let u = c as u32;
        let lc: char = if 65 <= u && u <= 90 {
            ((u + 32) as u8) as char
        } else {
            c
        };
        assert(lc == lower_char(value@[i as int]));
        push_char(&mut r, lc);
        assert(lower_of(value@.subrange(0, i + 1)) =~= lower_of(
            value@.subrange(0, i as int),
        ).push(lower_char(value@[i as int])));
    }
    assert(value@.subrange(0, n as int) =~= value@);
    r
}

/// Exact text equality against an expected name.
pub fn str_is(a: &str, b: &str) -> (r: bool)
    ensures
        r == (a@ == b@),
{
    let sa = String::from_str(a);
    let sb = String::from_str(b);
    sa == sb
}

/// An ASCII decimal digit.
pub open spec fn is_digit(c: char) -> bool {
    48 <= c as u32 && c as u32 <= 57
}

/// Numeric value of one decimal digit.
pub open spec fn digit_val(c: char) -> int {
    c as u32 - 48
}

/// Every character of the text is a decimal digit.
pub open spec fn all_digits(s: Seq<char>) -> bool {
    forall|i: int| 0 <= i < s.len() ==> is_digit(#[trigger] s[i])
}

/// Value of a digit string read most-significant first.
pub open spec fn dec_val(s: Seq<char>) -> int
    decreases s.len(),
{
    if s.len() == 0 {
        0
    } else {
        dec_val(s.drop_last()) * 10 + digit_val(s.last())
    }
}

/// A tolerant unsigned decimal read: defined exactly when the text is one
/// to fifteen digits (longer runs are treated as unparseable rather than
/// silently overflowing).
pub open spec fn u_dec_of(s: Seq<char>) -> Option<int> {
    if 1 <= s.len() <= 15 && all_digits(s) {
        Some(dec_val(s))
    } else {
        None
    }
}

proof fn lemma_pow10_mono(a: nat, b: nat)
    requires
        a <= b,
    ensures
        1 <= pow10(a) <= pow10(b),
    decreases b,
{
    if a < b {
        lemma_pow10_mono(a, (b - 1) as nat);
    } else {
        if a > 0 {
            lemma_pow10_mono((a - 1) as nat, (a - 1) as nat);
        }
    }
}

proof fn lemma_pow10_15()
    ensures
        pow10(15) == 0x38d7ea4c68000,
        pow10(12) == 0xe8d4a51000,
        pow10(3) == 1000,
        pow10(2) == 100,
        pow10(1) == 10,
{
    assert(pow10(0) == 1);
    assert(pow10(1) == 10);
    assert(pow10(2) == 100);
    assert(pow10(3) == 1000);
    assert(pow10(4) == 10000);
    assert(pow10(5) == 100000);
    assert(pow10(6) == 1000000);
    assert(pow10(7) == 10000000);
    assert(pow10(8) == 100000000);
    assert(pow10(9) == 1000000000);
    assert(pow10(10) == 10000000000);
    assert(pow10(11) == 100000000000);
    assert(pow10(12) == 1000000000000);
    assert(pow10(13) == 10000000000000);
    assert(pow10(14) == 100000000000000);
    assert(pow10(15) == 1000000000000000);
}

/// Digit runs of at most fifteen digits stay safely below `2^51`.
proof fn lemma_dec_val_bound(s: Seq<char>)
    requires
        all_digits(s),
        s.len() <= 15,
    ensures
        0 <= dec_val(s) < 0x8000000000000,
{
    lemma_dec_val_len_bound(s);
    lemma_pow10_mono(s.len() as nat, 15);
    lemma_pow10_15();
}

proof fn lemma_dec_val_len_bound(s: Seq<char>)
    requires
        all_digits(s),
    ensures
        0 <= dec_val(s) < pow10(s.len() as nat),
    decreases s.len(),
{
    if s.len() > 0 {
        lemma_dec_val_len_bound(s.drop_last());
    }
}

/// Ten to the given power.
pub open spec fn pow10(n: nat) -> int
    decreases n,
{
    if n == 0 {
        1
    } else {
        10 * pow10((n - 1) as nat)
    }
}

fn is_digit_exec(c: char) -> (r: bool)
    ensures
        r == is_digit(c),
{
    let u = c as u32;
    48 <= u && u <= 57
}

/// Read an unsigned decimal digit run, or fail on anything else.
pub fn parse_u_dec(value: &str) -> (r: Option<u64>)
    ensures
        match r {
            Some(v) => u_dec_of(value@) == Some(v as int),
            None => u_dec_of(value@) is None,
        },
{
    let n = value.unicode_len();
    if n < 1 || n > 15 {
        return None;
    }
    let mut acc: u64 = 0;
    for i in 0..n
        invariant
            n == value@.len(),
            1 <= n <= 15,
            all_digits(value@.subrange(0, i as int)),
            acc == dec_val(value@.subrange(0, i as int)),
            acc < 0x8000000000000,
    {
        let c = value.get_char(i);
        if !is_digit_exec(c) {
            assert(!all_digits(value@));
            return None;
        }
        proof {
            lemma_dec_val_bound(value@.subrange(0, i as int));
        }
        acc = acc * 10 + ((c as u32) as u64 - 48);
        assert(value@.subrange(0, i + 1).drop_last() =~= value@.subrange(0, i as int));
        assert(acc == dec_val(value@.subrange(0, i + 1)));
        proof {
            lemma_dec_val_bound(value@.subrange(0, i + 1));
        }
    }
    assert(value@.subrange(0, n as int) =~= value@);
    Some(acc)
}

/// A decimal integer with an optional leading minus sign, within the
/// given signed 32-bit range.
pub open spec fn i32_dec_of(s: Seq<char>) -> Option<int> {
    let (neg, body) = if s.len() >= 1 && s[0] == '-' {
        (true, s.subrange(1, s.len() as int))
    } else {
        (false, s)
    };
    match u_dec_of(body) {
        Some(v) => {
            let sv = if neg {
                -v
            } else {
                v
            };
            if i32::MIN <= sv <= i32::MAX {
                Some(sv)
            } else {
                None
            }
        },
        None => None,
    }
}

/// Read a signed 32-bit decimal, as map identifiers are written.
pub fn parse_i32(value: &str) -> (r: Option<i32>)
    ensures
        match r {
            Some(v) => i32_dec_of(value@) == Some(v as int),
            None => i32_dec_of(value@) is None,
        },
{
    let n = value.unicode_len();
    let (neg, body) = if n >= 1 && value.get_char(0) == '-' {
        (true, value.substring_char(1, n))
    } else {
        (false, value.substring_char(0, n))
    };
    assert(!neg ==> body@ =~= value@);
    let mag = match parse_u_dec(body) {
        Some(v) => v,
        None => {
            return None;
        },
    };
    if neg {
        if mag > 0x80000000u64 {
            return None;
        }
        let sv: i64 = -(mag as i64);
        Some(sv as i32)
    } else {
        if mag > 0x7fffffffu64 {
            return None;
        }
        Some(mag as i32)
    }
}

/// A tolerant boolean read: `1` / `true` (any case) and `0` / `false`
/// are recognised, anything else is ignored by the caller.
pub open spec fn bool_of(s: Seq<char>) -> Option<bool> {
    if lower_of(s) == "1"@ || lower_of(s) == "true"@ {
        Some(true)
    } else if lower_of(s) == "0"@ || lower_of(s) == "false"@ {
        Some(false)
    } else {
        None
    }
}

/// Read a boolean attribute value.
pub fn parse_bool(value: &str) -> (r: Option<bool>)
    ensures
        r == bool_of(value@),
{
    let low = ascii_lower(value);
    if low == String::from_str("1") || low == String::from_str("true") {
        Some(true)
    } else if low == String::from_str("0") || low == String::from_str("false") {
        Some(false)
    } else {
        None
    }
}

/// Index of the first dot at or after position `i`, if any.
pub open spec fn find_dot(s: Seq<char>, i: int) -> Option<int>
    decreases s.len() - i,
    when 0 <= i <= s.len()
{
    if i >= s.len() {
        None
    } else if s[i] == '.' {
        Some(i)
    } else {
        find_dot(s, i + 1)
    }
}

/// The first three fractional digits, padded with zeros to exactly three.
pub open spec fn pad3(f: Seq<char>) -> Seq<char> {
    if f.len() >= 3 {
        f.take(3)
    } else {
        f + Seq::new((3 - f.len()) as nat, |_i: int| '0')
    }
}

/// Magnitude of an unsigned decimal with an optional fractional part, in
/// thousandths, truncated toward zero.  Undefined (`None`) when the text
/// is not digits-dot-digits, is empty, or has more than twelve integer
/// digits.
pub open spec fn milli_mag_of(body: Seq<char>) -> Option<int> {
    match find_dot(body, 0) {
        Some(d) => {
            let ip = body.take(d);
            let fp = body.skip(d + 1);
            if all_digits(ip) && all_digits(fp) && ip.len() <= 12 && ip.len() + fp.len() >= 1 {
                Some(dec_val(ip) * 1000 + dec_val(pad3(fp)))
            } else {
                None
            }
        },
        None => if 1 <= body.len() <= 12 && all_digits(body) {
            Some(dec_val(body) * 1000)
        } else {
            None
        },
    }
}

/// A signed decimal number read to thousandths: the fixed-point form in
/// which the engine stores positions, sizes and opacities.  The grammar
/// is digits with one optional dot; exponent forms are treated as
/// unreadable and poison only their element.
pub open spec fn milli_of(s: Seq<char>) -> Option<int> {
    if s.len() >= 1 && s[0] == '-' {
        match milli_mag_of(s.subrange(1, s.len() as int)) {
            Some(v) => Some(-v),
            None => None,
        }
    } else {
        milli_mag_of(s)
    }
}

/// Value of a digit run when it is at most `max_len` digits long.
fn dec_digits(s: &str, max_len: usize) -> (r: Option<u64>)
    requires
        max_len <= 15,
    ensures
        match r {
            Some(v) => all_digits(s@) && s@.len() <= max_len && v == dec_val(s@),
            None => !(all_digits(s@) && s@.len() <= max_len),
        },
{
    let n = s.unicode_len();
    if n > max_len {
        return None;
    }
    let mut acc: u64 = 0;
    for i in 0..n
        invariant
            n == s@.len(),
            n <= max_len <= 15,
            all_digits(s@.subrange(0, i as int)),
            acc == dec_val(s@.subrange(0, i as int)),
            acc < 0x8000000000000,
    {
        let c = s.get_char(i);
        if !is_digit_exec(c) {
            assert(!all_digits(s@));
            return None;
        }
        proof {
            lemma_dec_val_bound(s@.subrange(0, i as int));
        }
        acc = acc * 10 + ((c as u32) as u64 - 48);
        assert(s@.subrange(0, i + 1).drop_last() =~= s@.subrange(0, i as int));
        assert(acc == dec_val(s@.subrange(0, i + 1)));
        proof {
            lemma_dec_val_bound(s@.subrange(0, i + 1));
        }
    }
    assert(s@.subrange(0, n as int) =~= s@);
    Some(acc)
}

proof fn lemma_dec_val_append_zero(f: Seq<char>)
    ensures
        dec_val(f.push('0')) == dec_val(f) * 10,
{
    assert(f.push('0').drop_last() =~= f);
}

/// Position of the first dot in the text, by linear scan.
fn find_dot_exec(s: &str) -> (r: Option<usize>)
    ensures
        match r {
            Some(d) => find_dot(s@, 0) == Some(d as int) && d < s@.len(),
            None => find_dot(s@, 0) is None,
        },
{
    let n = s.unicode_len();
    for i in 0..n
        invariant
            n == s@.len(),
            find_dot(s@, 0) == find_dot(s@, i as int),
    {
        if s.get_char(i) == '.' {
            return Some(i);
        }
    }
    None
}

/// Read a signed fixed-point decimal in thousandths.
pub fn parse_milli(value: &str) -> (r: Option<i64>)
    ensures
        match r {
            Some(v) => milli_of(value@) == Some(v as int) && -0x7fffffffffffff < v
                < 0x7fffffffffffff,
            None => milli_of(value@) is None,
        },
{
    let n = value.unicode_len();
    let (neg, body) = if n >= 1 && value.get_char(0) == '-' {
        (true, value.substring_char(1, n))
    } else {
        (false, value.substring_char(0, n))
    };
    assert(!neg ==> body@ =~= value@);
    let mag: u64 = match parse_milli_mag(body) {
        Some(v) => v,
        None => {
            return None;
        },
    };
    if neg {
        Some(-(mag as i64))
    } else {
        Some(mag as i64)
    }
}

/// Digit runs of at most twelve digits stay below `10^12`.
proof fn lemma_dec_val_tight(s: Seq<char>)
    requires
        all_digits(s),
        s.len() <= 12,
    ensures
        0 <= dec_val(s) < 0xe8d4a51000,
{
    lemma_dec_val_len_bound(s);
    lemma_pow10_mono(s.len() as nat, 12);
    lemma_pow10_15();
}

/// Three digits stay below one thousand.
proof fn lemma_dec_val_small(s: Seq<char>)
    requires
        all_digits(s),
        s.len() <= 3,
    ensures
        0 <= dec_val(s) < 1000,
{
    lemma_dec_val_len_bound(s);
    lemma_pow10_mono(s.len() as nat, 3);
    lemma_pow10_15();
}

/// Read an unsigned fixed-point decimal in thousandths.
fn parse_milli_mag(body: &str) -> (r: Option<u64>)
    ensures
        match r {
            Some(v) => milli_mag_of(body@) == Some(v as int) && v < 0x7fffffffffffff,
            None => milli_mag_of(body@) is None,
        },
{
    let n = body.unicode_len();
    match find_dot_exec(body) {
        Some(d) => {
            let ip = body.substring_char(0, d);
            let fp = body.substring_char(d + 1, n);
            assert(ip@ =~= body@.take(d as int));
            assert(fp@ =~= body@.skip(d + 1));
            let ipv = match dec_digits(ip, 12) {
                Some(v) => v,
                None => {
                    return None;
                },
            };
            let fn_ = fp.unicode_len();
            if d == 0 && fn_ == 0 {
                assert(ip@.len() == 0);
                assert(fp@.len() == 0);
                assert(milli_mag_of(body@) is None);
                return None;
            }
            let fpv: u64;
            if fn_ >= 3 {
                let f3 = fp.substring_char(0, 3);
                assert(f3@ =~= fp@.take(3));
                // the remaining fractional digits must still be digits
                for i in 3..fn_
                    invariant
                        fn_ == fp@.len(),
                        fn_ >= 3,
                        f3@ == fp@.take(3),
                        fp@ == body@.skip(d + 1),
                        ip@ == body@.take(d as int),
                        find_dot(body@, 0) == Some(d as int),
                        d < body@.len(),
                        forall|j: int| 3 <= j < i ==> is_digit(#[trigger] fp@[j]),
                {
                    if !is_digit_exec(fp.get_char(i)) {
                        assert(!all_digits(fp@));
                        return None;
                    }
                }
                fpv = match dec_digits(f3, 3) {
                    Some(v) => v,
                    None => {
                        proof {
                            let j = choose|j: int| 0 <= j < f3@.len() && !is_digit(f3@[j]);
                            assert(fp@[j] == f3@[j]);
                            assert(!all_digits(fp@));
                        }
                        return None;
                    },
                };
                assert forall|j: int| 0 <= j < fp@.len() implies is_digit(#[trigger] fp@[j]) by {
                    if j < 3 {
                        assert(fp@[j] == f3@[j]);
                        assert(is_digit(f3@[j]));
                    }
                }
                assert(pad3(fp@) == f3@);
                proof {
                    lemma_dec_val_small(f3@);
                }
            } else {
                let v = match dec_digits(fp, 3) {
                    Some(v) => v,
                    None => {
                        return None;
                    },
                };
                proof {
                    lemma_dec_val_len_bound(fp@);
                    lemma_pow10_15();
                }
                if fn_ == 0 {
                    fpv = 0;
                    assert(pad3(fp@) =~= fp@.push('0').push('0').push('0'));
                    proof {
                        lemma_dec_val_append_zero(fp@);
                        lemma_dec_val_append_zero(fp@.push('0'));
                        lemma_dec_val_append_zero(fp@.push('0').push('0'));
                    }
                } else if fn_ == 1 {
                    fpv = v * 100;
                    assert(pad3(fp@) =~= fp@.push('0').push('0'));
                    proof {
                        lemma_dec_val_append_zero(fp@);
                        lemma_dec_val_append_zero(fp@.push('0'));
                    }
                } else {
                    fpv = v * 10;
                    assert(pad3(fp@) =~= fp@.push('0'));
                    proof {
                        lemma_dec_val_append_zero(fp@);
                    }
                }
                assert(fpv == dec_val(pad3(fp@)));
                assert(fpv < 1000);
            }
            proof {
                lemma_dec_val_tight(ip@);
            }
            Some(ipv * 1000 + fpv)
        },
        None => {
            if n < 1 {
                return None;
            }
            let v = match dec_digits(body, 12) {
                Some(v) => v,
                None => {
                    return None;
                },
            };
            proof {
                lemma_dec_val_tight(body@);
            }
            Some(v * 1000)
        },
    }
}

/// An ASCII hexadecimal digit.
pub open spec fn is_hex(c: char) -> bool {
    is_digit(c) || (97 <= c as u32 && c as u32 <= 102) || (65 <= c as u32 && c as u32 <= 70)
}

/// Numeric value of one hexadecimal digit.
pub open spec fn hex_digit_val(c: char) -> int {
    if is_digit(c) {
        c as u32 - 48
    } else if 97 <= c as u32 && c as u32 <= 102 {
        c as u32 - 87
    } else {
        c as u32 - 55
    }
}

/// Every character of the text is a hexadecimal digit.
pub open spec fn all_hex(s: Seq<char>) -> bool {
    forall|i: int| 0 <= i < s.len() ==> is_hex(#[trigger] s[i])
}

/// Value of a hexadecimal digit string read most-significant first.
pub open spec fn hex_val(s: Seq<char>) -> int
    decreases s.len(),
{
    if s.len() == 0 {
        0
    } else {
        hex_val(s.drop_last()) * 16 + hex_digit_val(s.last())
    }
}

/// A colour attribute: six hex digits are RGB with full opacity, eight
/// are RGBA; anything else is unrecognised.
pub open spec fn color_of(s: Seq<char>) -> Option<int> {
    if s.len() == 8 && all_hex(s) {
        Some(hex_val(s))
    } else if s.len() == 6 && all_hex(s) {
        Some(hex_val(s) * 256 + 255)
    } else {
        None
    }
}

proof fn lemma_pow16_vals()
    ensures
        pow16(6) == 0x1000000,
        pow16(7) == 0x10000000,
        pow16(8) == 0x100000000,
{
    assert(pow16(0) == 1);
    assert(pow16(1) == 16);
    assert(pow16(2) == 0x100);
    assert(pow16(3) == 0x1000);
    assert(pow16(4) == 0x10000);
    assert(pow16(5) == 0x100000);
    assert(pow16(6) == 0x1000000);
    assert(pow16(7) == 0x10000000);
    assert(pow16(8) == 0x100000000);
}

proof fn lemma_hex_val_bound(s: Seq<char>)
    requires
        all_hex(s),
        s.len() <= 8,
    ensures
        0 <= hex_val(s) < 0x100000000,
{
    lemma_hex_val_bound_gen(s, 8);
    lemma_pow16_vals();
}

proof fn lemma_hex_val_bound7(s: Seq<char>)
    requires
        all_hex(s),
        s.len() <= 7,
    ensures
        0 <= hex_val(s) < 0x10000000,
{
    lemma_hex_val_bound_gen(s, 7);
    lemma_pow16_vals();
}

proof fn lemma_hex_val_bound_gen(s: Seq<char>, k: nat)
    requires
        all_hex(s),
        s.len() <= k,
        k <= 8,
    ensures
        0 <= hex_val(s) < pow16(k),
    decreases s.len(),
{
    if s.len() > 0 {
        lemma_hex_val_bound_gen(s.drop_last(), (k - 1) as nat);
        assert(pow16(k) == 16 * pow16((k - 1) as nat));
    } else {
        lemma_pow16_pos(k);
    }
}

/// Sixteen to the given power.
pub open spec fn pow16(n: nat) -> int
    decreases n,
{
    if n == 0 {
        1
    } else {
        16 * pow16((n - 1) as nat)
    }
}

proof fn lemma_pow16_pos(n: nat)
    ensures
        pow16(n) >= 1,
    decreases n,
{
    if n > 0 {
        lemma_pow16_pos((n - 1) as nat);
    }
}

fn is_hex_exec(c: char) -> (r: bool)
    ensures
        r == is_hex(c),
{
    let u = c as u32;
    (48 <= u && u <= 57) || (97 <= u && u <= 102) || (65 <= u && u <= 70)
}

fn hex_digit_exec(c: char) -> (r: u64)
    requires
        is_hex(c),
    ensures
        r == hex_digit_val(c),
        r < 16,
{
    let u = (c as u32) as u64;
    if 48 <= u && u <= 57 {
        u - 48
    } else if 97 <= u {
        u - 87
    } else {
        u - 55
    }
}

/// Read a colour attribute value into packed RGBA.
pub fn parse_color(value: &str) -> (r: Option<u32>)
    ensures
        match r {
            Some(v) => color_of(value@) == Some(v as int),
            None => color_of(value@) is None,
        },
{
    let n = value.unicode_len();
    if n != 6 && n != 8 {
        return None;
    }
    let mut acc: u64 = 0;
    for i in 0..n
        invariant
            n == value@.len(),
            n == 6 || n == 8,
            all_hex(value@.subrange(0, i as int)),
            acc == hex_val(value@.subrange(0, i as int)),
            acc < 0x100000000,
    {
        let c = value.get_char(i);
        if !is_hex_exec(c) {
            assert(!all_hex(value@));
            return None;
        }
        proof {
            lemma_hex_val_bound7(value@.subrange(0, i as int));
        }
        acc = acc * 16 + hex_digit_exec(c);
        assert(value@.subrange(0, i + 1).drop_last() =~= value@.subrange(0, i as int));
        assert(acc == hex_val(value@.subrange(0, i + 1)));
        proof {
            lemma_hex_val_bound(value@.subrange(0, i + 1));
        }
    }
    assert(value@.subrange(0, n as int) =~= value@);
    if n == 8 {
        Some(acc as u32)
    } else {
        proof {
            lemma_hex_val_bound_gen(value@, 6);
            assert(pow16(6) == 0x1000000) by {
                assert(pow16(0) == 1);
                assert(pow16(1) == 16);
                assert(pow16(2) == 0x100);
                assert(pow16(3) == 0x1000);
                assert(pow16(4) == 0x10000);
                assert(pow16(5) == 0x100000);
            }
        }
        Some((acc as u32) * 256 + 255)
    }
}

} // verus!
