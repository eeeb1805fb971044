//! Parsing of hex color strings such as `"#FFFFFF"` into RGBA values.
use vstd::prelude::*;
use vstd::string::StringSliceAdditionalSpecFns;

use crate::{KvError, Rgba};

verus! {

/// An ASCII hex digit, upper or lower case.
pub open spec fn is_hex_digit(b: u8) -> bool {
    (48 <= b <= 57) || (97 <= b <= 102) || (65 <= b <= 70)
}

/// The value of one hex digit.
pub open spec fn hex_digit_val(b: u8) -> int {
    if 48 <= b <= 57 {
        b - 48
    } else if 97 <= b <= 102 {
        b - 87
    } else {
        b - 55
    }
}

/// `s` with every leading `#` removed.
pub open spec fn strip_hashes(s: Seq<u8>) -> Seq<u8>
    decreases s.len(),
{
    if s.len() > 0 && s[0] == 35 {
        strip_hashes(s.drop_first())
    } else {
        s
    }
}

/// A well-formed color string: after stripping leading `#`s, exactly six
/// hex digits remain.
pub open spec fn color_ok(s: Seq<u8>) -> bool {
    let t = strip_hashes(s);
    t.len() == 6 && forall|i: int| 0 <= i < 6 ==> is_hex_digit(#[trigger] t[i])
}

/// One color channel of a well-formed color string: two hex digits, high
/// nibble first.
pub open spec fn color_channel(t: Seq<u8>, i: int) -> int {
    hex_digit_val(t[2 * i]) * 16 + hex_digit_val(t[2 * i + 1])
}

/// `strip_hashes` drops exactly the leading run of `#` bytes ending at `i`.
proof fn lemma_strip_hashes_skip(s: Seq<u8>, i: int)
    requires
        0 <= i <= s.len(),
        forall|j: int| 0 <= j < i ==> s[j] == 35,
        i == s.len() || s[i] != 35,
    ensures
        strip_hashes(s) == s.subrange(i, s.len() as int),
    decreases i,
{
    if i == 0 {
        assert(s.subrange(0, s.len() as int) =~= s);
    } else {
        lemma_strip_hashes_skip(s.drop_first(), i - 1);
        assert(s.drop_first().subrange(i - 1, s.drop_first().len() as int) =~= s.subrange(
            i,
            s.len() as int,
        ));
    }
}

/// The value of one hex digit byte, or `None` when it is not a hex digit.
fn hex_val(b: u8) -> (r: Option<u8>)
    ensures
        r is Some <==> is_hex_digit(b),
        r matches Some(v) ==> v as int == hex_digit_val(b),
{
    if 48 <= b && b <= 57 {
        Some(b - 48)
    } else if 97 <= b && b <= 102 {
        Some(b - 87)
    } else if 65 <= b && b <= 70 {
        Some(b - 55)
    } else {
        None
    }
}

/// Parse a color string of six hex digits, with any number of leading `#`
/// markers allowed, into a fully opaque RGBA color. Anything else is a
/// color-format error.
pub fn parse_color(color: &str) -> (r: Result<Rgba, KvError>)
    ensures
        r is Ok <==> color_ok(color.spec_bytes()),
        r is Err ==> r == Err::<Rgba, KvError>(KvError::ColorFormatError),
        r matches Ok(c) ==> {
            let t = strip_hashes(color.spec_bytes());
            c.r as int == color_channel(t, 0) && c.g as int == color_channel(t, 1) && c.b as int
                == color_channel(t, 2) && c.a == 255
        },
{
    let bs = color.as_bytes();
    let mut a: usize = 0;
    while a < bs.len() && bs[a] == 35
        invariant
            0 <= a <= bs@.len(),
            forall|j: int| 0 <= j < a ==> bs@[j] == 35,
        decreases bs@.len() - a,
    {
        a = a + 1;
    }
    proof {
        lemma_strip_hashes_skip(bs@, a as int);
    }
    let t = &bs[a..bs.len()];
    if t.len() != 6 {
        return Err(KvError::ColorFormatError);
    }
    let digits = [
        hex_val(t[0]),
        hex_val(t[1]),
        hex_val(t[2]),
        hex_val(t[3]),
        hex_val(t[4]),
        hex_val(t[5]),
    ];
    match (digits[0], digits[1], digits[2], digits[3], digits[4], digits[5]) {
        (Some(h0), Some(l0), Some(h1), Some(l1), Some(h2), Some(l2)) => {
            proof {
                assert(forall|i: int| 0 <= i < 6 ==> is_hex_digit(#[trigger] t@[i])) by {
                    assert(is_hex_digit(t@[0]) && is_hex_digit(t@[1]) && is_hex_digit(t@[2])
                        && is_hex_digit(t@[3]) && is_hex_digit(t@[4]) && is_hex_digit(t@[5]));
                }
            }
            Ok(Rgba { r: h0 * 16 + l0, g: h1 * 16 + l1, b: h2 * 16 + l2, a: 255 })
        },
        _ => Err(KvError::ColorFormatError),
    }
}

} // verus!
