//! Packed ARGB colours and their eight-digit lowercase hex spelling.

use vstd::prelude::*;
use vstd::string::StringSliceAdditionalSpecFns;

verus! {

/// Whether a byte is an ASCII hex digit (either case).
pub open spec fn is_hex_byte(b: u8) -> bool {
    (48 <= b <= 57) || (65 <= b <= 70) || (97 <= b <= 102)
}

/// The value of an ASCII hex digit.
pub open spec fn hex_byte_value(b: u8) -> nat {
    if 48 <= b <= 57 {
        (b - 48) as nat
    } else if 65 <= b <= 70 {
        (b - 55) as nat
    } else {
        (b - 87) as nat
    }
}

/// Big-endian value of a run of hex digits.
pub open spec fn hex_value(s: Seq<u8>) -> nat
    decreases s.len(),
{
    if s.len() == 0 {
        0
    } else {
        hex_value(s.drop_last()) * 16 + hex_byte_value(s.last())
    }
}

pub open spec fn pow16(n: nat) -> nat
    decreases n,
{
    if n == 0 {
        1
    } else {
        16 * pow16((n - 1) as nat)
    }
}

/// What `argb_from_hex` reads from a string's bytes: exactly eight hex
/// digits, in either case, give their value; anything else gives nothing.
pub open spec fn argb_of_bytes(b: Seq<u8>) -> Option<u32> {
    if b.len() == 8 && (forall|i: int| 0 <= i < 8 ==> #[trigger] is_hex_byte(b[i])) {
        Some(hex_value(b) as u32)
    } else {
        None
    }
}

/// The lowercase hex digit for a value below 16.
pub open spec fn hex_char(d: nat) -> char {
    if d < 10 {
        ((d + 48) as u8) as char
    } else {
        ((d + 87) as u8) as char
    }
}

/// The `n` low hex digits of `v`, most significant first.
pub open spec fn hex_digits(v: nat, n: nat) -> Seq<char>
    decreases n,
{
    if n == 0 {
        Seq::empty()
    } else {
        hex_digits(v / 16, (n - 1) as nat).push(hex_char(v % 16))
    }
}

proof fn lemma_hex_value_bound(s: Seq<u8>)
    requires
        forall|i: int| 0 <= i < s.len() ==> #[trigger] is_hex_byte(s[i]),
    ensures
        hex_value(s) < pow16(s.len()),
    decreases s.len(),
{
    if s.len() > 0 {
        let p = s.drop_last();
        assert forall|i: int| 0 <= i < p.len() implies #[trigger] is_hex_byte(p[i]) by {
            assert(p[i] == s[i]);
        }
        lemma_hex_value_bound(p);
        assert(is_hex_byte(s[s.len() - 1]));
        let a = hex_value(p);
        let m = pow16(p.len());
        assert(hex_byte_value(s.last()) < 16);
        assert(a * 16 + hex_byte_value(s.last()) < m * 16) by (nonlinear_arith)
            requires
                a < m,
                hex_byte_value(s.last()) < 16,
        ;
    }
}

fn hex_digit_value(b: u8) -> (r: Option<u32>)
    ensures
        is_hex_byte(b) ==> r == Some(hex_byte_value(b) as u32),
        !is_hex_byte(b) ==> r is None,
{
    if 48 <= b && b <= 57 {
        Some((b - 48) as u32)
    } else if 65 <= b && b <= 70 {
        Some((b - 55) as u32)
    } else if 97 <= b && b <= 102 {
        Some((b - 87) as u32)
    } else {
        None
    }
}

/// Read a core colour: eight ASCII hex digits, either case, as packed ARGB.
/// Any other spelling (wrong length, a sign, a non-digit) is `None`.
pub fn argb_from_hex(value: &str) -> (r: Option<u32>)
    ensures
        r == argb_of_bytes(value.spec_bytes()),
{
    let bytes = value.as_bytes();
    if bytes.len() != 8 {
        return None;
    }
    let mut acc: u32 = 0;
    let mut i: usize = 0;
    while i < 8
        invariant
            bytes@ == value.spec_bytes(),
            bytes@.len() == 8,
            0 <= i <= 8,
            forall|j: int| 0 <= j < i ==> #[trigger] is_hex_byte(bytes@[j]),
            acc as nat == hex_value(bytes@.take(i as int)),
            acc < pow16(i as nat),
        decreases 8 - i,
    {
        let d = match hex_digit_value(bytes[i]) {
            Some(d) => d,
            None => {
                return None;
            },
        };
        proof {
            let t = bytes@.take(i as int + 1);
            assert(t.drop_last() =~= bytes@.take(i as int));
            assert(pow16((i + 1) as nat) == 16 * pow16(i as nat));
            assert(pow16(7) == 0x1000_0000) by {
                reveal_with_fuel(pow16, 8);
            }
            assert(pow16(i as nat) <= pow16(7)) by {
                lemma_pow16_mono(i as nat, 7);
            }
            assert((acc as nat) * 16 + (d as nat) < 16 * pow16(i as nat)) by (nonlinear_arith)
                requires
                    acc < pow16(i as nat),
                    d < 16,
            ;
            assert(16 * pow16(i as nat) <= 0x1_0000_0000);
        }
        acc = acc * 16 + d;
        i = i + 1;
    }
    proof {
        assert(bytes@.take(8) =~= bytes@);
    }
    Some(acc)
}

proof fn lemma_pow16_mono(a: nat, b: nat)
    requires
        a <= b,
    ensures
        pow16(a) <= pow16(b),
    decreases b,
{
    if a < b {
        lemma_pow16_mono(a, (b - 1) as nat);
    }
}


/// The one-character string for a hex digit value below 16.
fn hex_digit_str(d: u32) -> (r: &'static str)
    requires
        d < 16,
    ensures
        r@ == seq![hex_char(d as nat)],
{
    match d {
        0 => {
            proof {
                reveal_strlit("0");
            }
            "0"
        },
        1 => {
            proof {
                reveal_strlit("1");
            }
            "1"
        },
        2 => {
            proof {
                reveal_strlit("2");
            }
            "2"
        },
        3 => {
            proof {
                reveal_strlit("3");
            }
            "3"
        },
        4 => {
            proof {
                reveal_strlit("4");
            }
            "4"
        },
        5 => {
            proof {
                reveal_strlit("5");
            }
            "5"
        },
        6 => {
            proof {
                reveal_strlit("6");
            }
            "6"
        },
        7 => {
            proof {
                reveal_strlit("7");
            }
            "7"
        },
        8 => {
            proof {
                reveal_strlit("8");
            }
            "8"
        },
        9 => {
            proof {
                reveal_strlit("9");
            }
            "9"
        },
        10 => {
            proof {
                reveal_strlit("a");
            }
            "a"
        },
        11 => {
            proof {
                reveal_strlit("b");
            }
            "b"
        },
        12 => {
            proof {
                reveal_strlit("c");
            }
            "c"
        },
        13 => {
            proof {
                reveal_strlit("d");
            }
            "d"
        },
        14 => {
            proof {
                reveal_strlit("e");
            }
            "e"
        },
        _ => {
            proof {
                reveal_strlit("f");
            }
            "f"
        },
    }
}

/// Append the `n` low hex digits of `v`, most significant first.
fn push_hex_digits(out: &mut String, v: u32, n: u32)
    ensures
        final(out)@ == old(out)@ + hex_digits(v as nat, n as nat),
    decreases n,
{
    if n > 0 {
        push_hex_digits(out, v / 16, n - 1);
        let piece = hex_digit_str(v % 16);
        out.append(piece);
        proof {
            assert(hex_digits(v as nat, n as nat) == hex_digits((v / 16) as nat, (n - 1) as nat).push(
                hex_char((v % 16) as nat),
            ));
        }
    }
}

/// Spell a packed ARGB colour as eight lowercase hex digits.
pub fn hex_from_argb(value: u32) -> (r: String)
    ensures
        r@ == hex_digits(value as nat, 8),
{
    let mut out = String::new();
    push_hex_digits(&mut out, value, 8);
    proof {
        assert(out@ =~= hex_digits(value as nat, 8));
    }
    out
}

/// An optional core colour as `(packed, present)`; a colour that is not
/// eight hex digits counts as absent.
pub fn optional_color(value: Option<&str>) -> (r: (u32, bool))
    ensures
        r == (match value {
            Some(v) => match argb_of_bytes(v.spec_bytes()) {
                Some(c) => (c, true),
                None => (0u32, false),
            },
            None => (0u32, false),
        }),
{
    match value {
        Some(v) => match argb_from_hex(v) {
            Some(c) => (c, true),
            None => (0, false),
        },
        None => (0, false),
    }
}

proof fn lemma_hex_digits_ascii(v: nat, n: nat)
    ensures
        hex_digits(v, n).len() == n,
        forall|i: int|
            0 <= i < n ==> {
                let c = #[trigger] hex_digits(v, n)[i];
                &&& '\0' <= c <= '\u{7f}'
                &&& is_hex_byte(c as u8)
            },
    decreases n,
{
    if n > 0 {
        lemma_hex_digits_ascii(v / 16, (n - 1) as nat);
        let d = v % 16;
        assert(d < 16);
        let s = hex_digits(v, n);
        assert forall|i: int| 0 <= i < n implies {
            let c = #[trigger] s[i];
            &&& '\0' <= c <= '\u{7f}'
            &&& is_hex_byte(c as u8)
        } by {
            if i < n - 1 {
                assert(s[i] == hex_digits(v / 16, (n - 1) as nat)[i]);
            } else {
                assert(s[i] == hex_char(d));
            }
        }
    }
}

proof fn lemma_hex_value_of_digits(v: nat, n: nat, b: Seq<u8>)
    requires
        b.len() == n,
        forall|i: int| 0 <= i < n ==> b[i] == (#[trigger] hex_digits(v, n)[i]) as u8,
    ensures
        hex_value(b) == v % pow16(n),
    decreases n,
{
    lemma_hex_digits_ascii(v, n);
    if n == 0 {
        assert(v % 1 == 0);
    } else {
        let p = b.drop_last();
        let m = (n - 1) as nat;
        lemma_hex_digits_ascii(v / 16, m);
        assert forall|i: int| 0 <= i < m implies p[i] == (#[trigger] hex_digits(v / 16, m)[i]) as u8 by {
            assert(hex_digits(v, n)[i] == hex_digits(v / 16, m)[i]);
        }
        lemma_hex_value_of_digits(v / 16, m, p);
        let d = v % 16;
        assert(hex_digits(v, n)[n - 1] == hex_char(d));
        assert(b[n - 1] == hex_digits(v, n)[n - 1] as u8);
        assert(b.last() == hex_char(d) as u8);
        assert(hex_byte_value(b.last()) == d);
        lemma_pow16_pos(m);
        let q = pow16(m);
        assert(((v / 16) % q) * 16 + v % 16 == v % (16 * q)) by {
            vstd::arithmetic::div_mod::lemma_breakdown(v as int, 16, q as int);
        }
    }
}

proof fn lemma_pow16_pos(n: nat)
    ensures
        pow16(n) > 0,
    decreases n,
{
    if n > 0 {
        lemma_pow16_pos((n - 1) as nat);
    }
}

/// Reading back the spelling of any packed colour gives that colour again.
pub proof fn lemma_argb_hex_round_trip(value: u32)
    ensures
        argb_of_bytes(vstd::utf8::encode_utf8(hex_digits(value as nat, 8))) == Some(value),
{
    let chars = hex_digits(value as nat, 8);
    lemma_hex_digits_ascii(value as nat, 8);
    assert(vstd::utf8::is_ascii_chars(chars));
    vstd::utf8::is_ascii_chars_encode_utf8(chars);
    let b = vstd::utf8::encode_utf8(chars);
    assert(b.len() == 8);
    assert forall|i: int| 0 <= i < 8 implies b[i] == (#[trigger] chars[i]) as u8 by {}
    assert forall|i: int| 0 <= i < 8 implies #[trigger] is_hex_byte(b[i]) by {
        assert(b[i] == chars[i] as u8);
    }
    lemma_hex_value_of_digits(value as nat, 8, b);
    assert(pow16(8) == 0x1_0000_0000) by {
        reveal_with_fuel(pow16, 9);
    }
}

} // verus!

verus! {

/// A hex digit byte as the lowercase character it is spelled with.
pub open spec fn lower_hex_char(b: u8) -> char {
    if 65 <= b <= 70 {
        ((b + 32) as u8) as char
    } else {
        b as char
    }
}

proof fn lemma_hex_digits_of_value(s: Seq<u8>)
    requires
        forall|i: int| 0 <= i < s.len() ==> #[trigger] is_hex_byte(s[i]),
    ensures
        hex_digits(hex_value(s), s.len()) == s.map_values(|c: u8| lower_hex_char(c)),
    decreases s.len(),
{
    if s.len() > 0 {
        let p = s.drop_last();
        let c = s.last();
        assert forall|i: int| 0 <= i < p.len() implies #[trigger] is_hex_byte(p[i]) by {
            assert(p[i] == s[i]);
        }
        lemma_hex_digits_of_value(p);
        assert(is_hex_byte(s[s.len() - 1]));
        let a = hex_value(p);
        let d = hex_byte_value(c);
        assert(d < 16);
        assert((a * 16 + d) / 16 == a && (a * 16 + d) % 16 == d) by (nonlinear_arith)
            requires
                d < 16,
        ;
        assert(hex_char(d) == lower_hex_char(c));
        assert(s.map_values(|c: u8| lower_hex_char(c)) =~= p.map_values(|c: u8| lower_hex_char(c)).push(
            lower_hex_char(c),
        ));
    }
}

/// Spelling a colour read from eight hex digits gives those digits back,
/// in lowercase.
pub proof fn lemma_hex_read_then_spelled(b: Seq<u8>)
    requires
        argb_of_bytes(b) is Some,
    ensures
        hex_digits(argb_of_bytes(b).unwrap() as nat, 8) == b.map_values(|c: u8| lower_hex_char(c)),
{
    lemma_hex_value_bound(b);
    assert(pow16(8) == 0x1_0000_0000) by {
        reveal_with_fuel(pow16, 9);
    }
    lemma_hex_digits_of_value(b);
}

} // verus!
