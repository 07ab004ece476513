use vstd::arithmetic::div_mod::lemma_div_denominator;
use vstd::prelude::*;
use vstd::string::*;

verus! {

// ---------------------------------------------------------------------------
// String equality
// ---------------------------------------------------------------------------
/// Character-wise equality of two string slices.
pub fn str_eq(a: &str, b: &str) -> (r: bool)
    ensures
        r == (a@ == b@),
{
    let n = a.unicode_len();
    let m = b.unicode_len();
    if n != m {
        return false;
    }
    let mut i: usize = 0;
    while i < n
        invariant
            n == a@.len(),
            n == b@.len(),
            i <= n,
            forall|j: int| 0 <= j < i ==> a@[j] == b@[j],
        decreases n - i,
    {
        let ca = a.get_char(i);
        let cb = b.get_char(i);
        if ca != cb {
            return false;
        }
        i = i + 1;
    }
    proof {
        assert(a@ =~= b@);
    }
    true
}

// ---------------------------------------------------------------------------
// The numeric literal grammar: decimal, "0x"/"0X" hexadecimal,
// "0b"/"0B" or "#" binary.
// ---------------------------------------------------------------------------
/// The numeric value of one digit character under the given radix, if any.
pub open spec fn spec_digit_val(c: char, radix: u32) -> Option<u32> {
    let d: Option<u32> = if c == '0' {
        Some(0u32)
    } else if c == '1' {
        Some(1u32)
    } else if c == '2' {
        Some(2u32)
    } else if c == '3' {
        Some(3u32)
    } else if c == '4' {
        Some(4u32)
    } else if c == '5' {
        Some(5u32)
    } else if c == '6' {
        Some(6u32)
    } else if c == '7' {
        Some(7u32)
    } else if c == '8' {
        Some(8u32)
    } else if c == '9' {
        Some(9u32)
    } else if c == 'a' || c == 'A' {
        Some(10u32)
    } else if c == 'b' || c == 'B' {
        Some(11u32)
    } else if c == 'c' || c == 'C' {
        Some(12u32)
    } else if c == 'd' || c == 'D' {
        Some(13u32)
    } else if c == 'e' || c == 'E' {
        Some(14u32)
    } else if c == 'f' || c == 'F' {
        Some(15u32)
    } else {
        None
    };
    match d {
        Some(x) => if x < radix {
            Some(x)
        } else {
            None
        },
        None => None,
    }
}

/// Folds a digit string left to right into the unbounded value it denotes,
/// starting from `acc`; `None` on the first character that is no digit of
/// the radix.
pub open spec fn spec_fold_digits(s: Seq<char>, radix: u32, acc: nat) -> Option<nat>
    decreases s.len(),
{
    if s.len() <= 0 {
        Some(acc)
    } else {
        match spec_digit_val(s[0], radix) {
            None => None,
            Some(d) => spec_fold_digits(s.drop_first(), radix, (acc * radix + d) as nat),
        }
    }
}

/// The unbounded value of a non-empty all-digit string under the radix.
pub open spec fn spec_parse_radix(s: Seq<char>, radix: u32) -> Option<nat> {
    if s.len() == 0 {
        None
    } else {
        spec_fold_digits(s, radix, 0)
    }
}

/// The value denoted by a numeric literal: a "0x"/"0X" prefix selects
/// hexadecimal, "0b"/"0B" or "#" selects binary, anything else is decimal.
/// `None` when malformed or when the value does not fit in 32 bits.
pub open spec fn spec_parse_u32_text(s: Seq<char>) -> Option<u32> {
    let body: Option<nat> = if s.len() >= 2 && s[0] == '0' && (s[1] == 'x' || s[1] == 'X') {
        spec_parse_radix(s.skip(2), 16)
    } else if s.len() >= 2 && s[0] == '0' && (s[1] == 'b' || s[1] == 'B') {
        spec_parse_radix(s.skip(2), 2)
    } else if s.len() >= 1 && s[0] == '#' {
        spec_parse_radix(s.skip(1), 2)
    } else {
        spec_parse_radix(s, 10)
    };
    match body {
        Some(v) => if v <= 0xFFFF_FFFF {
            Some(v as u32)
        } else {
            None
        },
        None => None,
    }
}

/// A folded value never sinks below the accumulator it started from.
pub proof fn lemma_fold_ge_acc(s: Seq<char>, radix: u32, acc: nat)
    requires
        radix >= 2,
    ensures
        spec_fold_digits(s, radix, acc) matches Some(v) ==> v >= acc,
    decreases s.len(),
{
    if s.len() > 0 {
        match spec_digit_val(s[0], radix) {
            None => {},
            Some(d) => {
                let acc2 = (acc * radix + d) as nat;
                assert(acc * radix >= acc * 2) by (nonlinear_arith)
                    requires
                        radix >= 2,
                ;
                lemma_fold_ge_acc(s.drop_first(), radix, acc2);
            },
        }
    }
}

/// The numeric value of one digit character, executable form.
pub fn digit_val(c: char, radix: u32) -> (r: Option<u32>)
    ensures
        r == spec_digit_val(c, radix),
        r matches Some(d) ==> d < radix,
{
    let d: Option<u32> = if c == '0' {
        Some(0u32)
    } else if c == '1' {
        Some(1u32)
    } else if c == '2' {
        Some(2u32)
    } else if c == '3' {
        Some(3u32)
    } else if c == '4' {
        Some(4u32)
    } else if c == '5' {
        Some(5u32)
    } else if c == '6' {
        Some(6u32)
    } else if c == '7' {
        Some(7u32)
    } else if c == '8' {
        Some(8u32)
    } else if c == '9' {
        Some(9u32)
    } else if c == 'a' || c == 'A' {
        Some(10u32)
    } else if c == 'b' || c == 'B' {
        Some(11u32)
    } else if c == 'c' || c == 'C' {
        Some(12u32)
    } else if c == 'd' || c == 'D' {
        Some(13u32)
    } else if c == 'e' || c == 'E' {
        Some(14u32)
    } else if c == 'f' || c == 'F' {
        Some(15u32)
    } else {
        None
    };
    match d {
        Some(x) => if x < radix {
            Some(x)
        } else {
            None
        },
        None => None,
    }
}

/// Parses the digits of `s` from position `start` on under the radix,
/// rejecting values that do not fit in 32 bits.
fn parse_radix_digits(s: &str, start: usize, radix: u32) -> (r: Option<u32>)
    requires
        radix == 2 || radix == 10 || radix == 16,
        start as int <= s@.len(),
    ensures
        ({
            let m = spec_parse_radix(s@.skip(start as int), radix);
            match m {
                None => r is None,
                Some(w) => if w <= 0xFFFF_FFFF {
                    r == Some(w as u32)
                } else {
                    r is None
                },
            }
        }),
{
    let n = s.unicode_len();
    if start >= n {
        return None;
    }
    let mut acc: u64 = 0;
    let mut i: usize = start;
    while i < n
        invariant
            start <= i <= n,
            start < n,
            n == s@.len(),
            radix == 2 || radix == 10 || radix == 16,
            acc <= 0xFFFF_FFFFu64,
            spec_fold_digits(s@.skip(start as int), radix, 0) == spec_fold_digits(
                s@.skip(i as int),
                radix,
                acc as nat,
            ),
        decreases n - i,
    {
        let c = s.get_char(i);
        proof {
            assert(s@.skip(i as int)[0] == s@[i as int]);
        }
        let d = match digit_val(c, radix) {
            Some(d) => d,
            None => { return None },
        };
        proof {
            assert(acc * (radix as u64) <= 0xFFFF_FFFFu64 * 16) by (nonlinear_arith)
                requires
                    acc <= 0xFFFF_FFFFu64,
                    radix <= 16,
            ;
            assert(s@.skip(i as int).drop_first() =~= s@.skip(i as int + 1));
        }
        let acc2: u64 = acc * (radix as u64) + (d as u64);
        if acc2 > 0xFFFF_FFFF {
            proof {
                lemma_fold_ge_acc(s@.skip(i as int + 1), radix, acc2 as nat);
            }
            return None;
        }
        acc = acc2;
        i = i + 1;
    }
    proof {
        assert(s@.skip(n as int) =~= Seq::<char>::empty());
    }
    Some(acc as u32)
}

/// Parses a numeric literal of the schema's grammar into a 32-bit value.
pub fn parse_u32_text(s: &str) -> (r: Option<u32>)
    ensures
        r == spec_parse_u32_text(s@),
{
    proof {
        assert(s@.skip(0) =~= s@);
    }
    let n = s.unicode_len();
    if n >= 2 && s.get_char(0) == '0' && (s.get_char(1) == 'x' || s.get_char(1) == 'X') {
        parse_radix_digits(s, 2, 16)
    } else if n >= 2 && s.get_char(0) == '0' && (s.get_char(1) == 'b' || s.get_char(1) == 'B') {
        parse_radix_digits(s, 2, 2)
    } else if n >= 1 && s.get_char(0) == '#' {
        parse_radix_digits(s, 1, 2)
    } else {
        parse_radix_digits(s, 0, 10)
    }
}

// ---------------------------------------------------------------------------
// Boolean literals
// ---------------------------------------------------------------------------
/// The value of a boolean literal: exactly the tokens "true" and "false".
pub open spec fn spec_parse_bool_text(t: Seq<char>) -> Option<bool> {
    if t == "true"@ {
        Some(true)
    } else if t == "false"@ {
        Some(false)
    } else {
        None
    }
}

/// Parses a boolean literal, accepting exactly "true" and "false".
pub fn parse_bool_text(s: &str) -> (r: Option<bool>)
    ensures
        r == spec_parse_bool_text(s@),
{
    if str_eq(s, "true") {
        Some(true)
    } else if str_eq(s, "false") {
        Some(false)
    } else {
        None
    }
}

// ---------------------------------------------------------------------------
// Canonical numeric formatting: fixed-width lowercase hexadecimal
// ---------------------------------------------------------------------------
/// The lowercase hexadecimal digit character for a value below 16.
pub open spec fn spec_hex_digit(d: u32) -> char {
    if d == 0 {
        '0'
    } else if d == 1 {
        '1'
    } else if d == 2 {
        '2'
    } else if d == 3 {
        '3'
    } else if d == 4 {
        '4'
    } else if d == 5 {
        '5'
    } else if d == 6 {
        '6'
    } else if d == 7 {
        '7'
    } else if d == 8 {
        '8'
    } else if d == 9 {
        '9'
    } else if d == 10 {
        'a'
    } else if d == 11 {
        'b'
    } else if d == 12 {
        'c'
    } else if d == 13 {
        'd'
    } else if d == 14 {
        'e'
    } else {
        'f'
    }
}

/// The canonical text of a value: "0x" followed by eight lowercase
/// hexadecimal digits, zero-padded.
pub open spec fn spec_hex8(v: u32) -> Seq<char> {
    seq![
        '0',
        'x',
        spec_hex_digit((v / 0x1000_0000) % 16),
        spec_hex_digit((v / 0x100_0000) % 16),
        spec_hex_digit((v / 0x10_0000) % 16),
        spec_hex_digit((v / 0x1_0000) % 16),
        spec_hex_digit((v / 0x1000) % 16),
        spec_hex_digit((v / 0x100) % 16),
        spec_hex_digit((v / 0x10) % 16),
        spec_hex_digit(v % 16),
    ]
}

/// The one-character string for a hexadecimal digit value.
fn hex_digit_str(d: u32) -> (r: &'static str)
    requires
        d < 16,
    ensures
        r@ == seq![spec_hex_digit(d)],
{
    let r: &'static str = if d == 0 {
        "0"
    } else if d == 1 {
        "1"
    } else if d == 2 {
        "2"
    } else if d == 3 {
        "3"
    } else if d == 4 {
        "4"
    } else if d == 5 {
        "5"
    } else if d == 6 {
        "6"
    } else if d == 7 {
        "7"
    } else if d == 8 {
        "8"
    } else if d == 9 {
        "9"
    } else if d == 10 {
        "a"
    } else if d == 11 {
        "b"
    } else if d == 12 {
        "c"
    } else if d == 13 {
        "d"
    } else if d == 14 {
        "e"
    } else {
        "f"
    };
    proof {
        reveal_strlit("0");
        reveal_strlit("1");
        reveal_strlit("2");
        reveal_strlit("3");
        reveal_strlit("4");
        reveal_strlit("5");
        reveal_strlit("6");
        reveal_strlit("7");
        reveal_strlit("8");
        reveal_strlit("9");
        reveal_strlit("a");
        reveal_strlit("b");
        reveal_strlit("c");
        reveal_strlit("d");
        reveal_strlit("e");
        reveal_strlit("f");
        assert(r@ =~= seq![spec_hex_digit(d)]);
    }
    r
}

/// Formats a value in the schema's canonical numeric form: "0x" and eight
/// zero-padded lowercase hexadecimal digits.
pub fn format_hex8(v: u32) -> (r: String)
    ensures
        r@ == spec_hex8(v),
{
    let mut out = String::from_str("0x");
    out.append(hex_digit_str((v / 0x1000_0000) % 16));
    out.append(hex_digit_str((v / 0x100_0000) % 16));
    out.append(hex_digit_str((v / 0x10_0000) % 16));
    out.append(hex_digit_str((v / 0x1_0000) % 16));
    out.append(hex_digit_str((v / 0x1000) % 16));
    out.append(hex_digit_str((v / 0x100) % 16));
    out.append(hex_digit_str((v / 0x10) % 16));
    out.append(hex_digit_str(v % 16));
    proof {
        reveal_strlit("0x");
        assert(out@ =~= spec_hex8(v));
    }
    out
}

/// Every value's hexadecimal digit is recognized back with its value under
/// radix 16.
proof fn lemma_hex_digit_val(d: u32)
    requires
        d < 16,
    ensures
        spec_digit_val(spec_hex_digit(d), 16) == Some(d),
{
}

/// Parsing the canonical hexadecimal form of a value yields that value:
/// the formatting convention is inside the numeric literal grammar.
pub proof fn lemma_parse_hex8(v: u32)
    ensures
        spec_parse_u32_text(spec_hex8(v)) == Some(v),
{
    let s = spec_hex8(v);
    let digits = s.skip(2);
    let n7: u32 = (v / 0x1000_0000) % 16;
    let n6: u32 = (v / 0x100_0000) % 16;
    let n5: u32 = (v / 0x10_0000) % 16;
    let n4: u32 = (v / 0x1_0000) % 16;
    let n3: u32 = (v / 0x1000) % 16;
    let n2: u32 = (v / 0x100) % 16;
    let n1: u32 = (v / 0x10) % 16;
    let n0: u32 = v % 16;
    assert(digits =~= seq![
        spec_hex_digit(n7),
        spec_hex_digit(n6),
        spec_hex_digit(n5),
        spec_hex_digit(n4),
        spec_hex_digit(n3),
        spec_hex_digit(n2),
        spec_hex_digit(n1),
        spec_hex_digit(n0),
    ]);
    lemma_hex_digit_val(n7);
    lemma_hex_digit_val(n6);
    lemma_hex_digit_val(n5);
    lemma_hex_digit_val(n4);
    lemma_hex_digit_val(n3);
    lemma_hex_digit_val(n2);
    lemma_hex_digit_val(n1);
    lemma_hex_digit_val(n0);
    // The accumulator after each digit is the prefix of v seen so far.
    let a7: nat = n7 as nat;
    let a6: nat = a7 * 16 + n6 as nat;
    let a5: nat = a6 * 16 + n5 as nat;
    let a4: nat = a5 * 16 + n4 as nat;
    let a3: nat = a4 * 16 + n3 as nat;
    let a2: nat = a3 * 16 + n2 as nat;
    let a1: nat = a2 * 16 + n1 as nat;
    let a0: nat = a1 * 16 + n0 as nat;
    assert(spec_fold_digits(digits, 16, 0) == spec_fold_digits(digits.skip(1), 16, a7)) by {
        assert(digits.drop_first() =~= digits.skip(1));
    };
    assert(spec_fold_digits(digits.skip(1), 16, a7) == spec_fold_digits(digits.skip(2), 16, a6))
        by {
        assert(digits.skip(1)[0] == digits[1]);
        assert(digits.skip(1).drop_first() =~= digits.skip(2));
    };
    assert(spec_fold_digits(digits.skip(2), 16, a6) == spec_fold_digits(digits.skip(3), 16, a5))
        by {
        assert(digits.skip(2)[0] == digits[2]);
        assert(digits.skip(2).drop_first() =~= digits.skip(3));
    };
    assert(spec_fold_digits(digits.skip(3), 16, a5) == spec_fold_digits(digits.skip(4), 16, a4))
        by {
        assert(digits.skip(3)[0] == digits[3]);
        assert(digits.skip(3).drop_first() =~= digits.skip(4));
    };
    assert(spec_fold_digits(digits.skip(4), 16, a4) == spec_fold_digits(digits.skip(5), 16, a3))
        by {
        assert(digits.skip(4)[0] == digits[4]);
        assert(digits.skip(4).drop_first() =~= digits.skip(5));
    };
    assert(spec_fold_digits(digits.skip(5), 16, a3) == spec_fold_digits(digits.skip(6), 16, a2))
        by {
        assert(digits.skip(5)[0] == digits[5]);
        assert(digits.skip(5).drop_first() =~= digits.skip(6));
    };
    assert(spec_fold_digits(digits.skip(6), 16, a2) == spec_fold_digits(digits.skip(7), 16, a1))
        by {
        assert(digits.skip(6)[0] == digits[6]);
        assert(digits.skip(6).drop_first() =~= digits.skip(7));
    };
    assert(spec_fold_digits(digits.skip(7), 16, a1) == spec_fold_digits(digits.skip(8), 16, a0))
        by {
        assert(digits.skip(7)[0] == digits[7]);
        assert(digits.skip(7).drop_first() =~= digits.skip(8));
    };
    assert(digits.skip(8) =~= Seq::<char>::empty());
    assert(spec_fold_digits(digits.skip(8), 16, a0) == Some(a0));
    // The accumulators collapse back onto v, one division step at a time.
    assert(a6 == (v as nat) / 0x100_0000) by {
        lemma_div_denominator(v as int, 0x100_0000, 16);
    };
    assert(a5 == (v as nat) / 0x10_0000) by {
        lemma_div_denominator(v as int, 0x10_0000, 16);
    };
    assert(a4 == (v as nat) / 0x1_0000) by {
        lemma_div_denominator(v as int, 0x1_0000, 16);
    };
    assert(a3 == (v as nat) / 0x1000) by {
        lemma_div_denominator(v as int, 0x1000, 16);
    };
    assert(a2 == (v as nat) / 0x100) by {
        lemma_div_denominator(v as int, 0x100, 16);
    };
    assert(a1 == (v as nat) / 0x10) by {
        lemma_div_denominator(v as int, 0x10, 16);
    };
    assert(a0 == v as nat);
}

} // verus!
