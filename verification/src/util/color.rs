//! Color values: RGB and HSV triples, hex-string encoding and decoding, and
//! the HSV-to-RGB conversion.

use vstd::prelude::*;
use vstd::string::StrSliceExecFns;
use vstd::string::StringExecFns;

verus! {

/// The value of a hexadecimal digit character, upper or lower case, or `-1`
/// for any other character.
pub open spec fn hex_digit_val(c: char) -> int {
    if '0' as int <= c as int <= '9' as int {
        c as int - '0' as int
    } else if 'a' as int <= c as int <= 'f' as int {
        10 + c as int - 'a' as int
    } else if 'A' as int <= c as int <= 'F' as int {
        10 + c as int - 'A' as int
    } else {
        -1
    }
}

/// The lower-case character for a hexadecimal digit value.
pub open spec fn hex_char_of(d: int) -> char {
    if d == 0 {
        '0'
    } else if d == 1 {
        '1'
    } else if d == 2 {
        '2'
    } else if d == 3 {
        '3'
    } else if d == 4 {
        '4'
    } else if d == 5 {
        '5'
    } else if d == 6 {
        '6'
    } else if d == 7 {
        '7'
    } else if d == 8 {
        '8'
    } else if d == 9 {
        '9'
    } else if d == 10 {
        'a'
    } else if d == 11 {
        'b'
    } else if d == 12 {
        'c'
    } else if d == 13 {
        'd'
    } else if d == 14 {
        'e'
    } else {
        'f'
    }
}

/// A decodable hex string: even length, hexadecimal digits throughout.
pub open spec fn is_hex_string(s: Seq<char>) -> bool {
    &&& s.len() % 2 == 0
    &&& forall|i: int| 0 <= i < s.len() ==> hex_digit_val(#[trigger] s[i]) >= 0
}

/// The bytes a hex string decodes to: one byte per pair of digits.
pub open spec fn hex_bytes(s: Seq<char>) -> Seq<u8> {
    Seq::new((s.len() / 2) as nat, |i: int| (16 * hex_digit_val(s[2 * i]) + hex_digit_val(s[2 * i + 1])) as u8)
}

/// The value of one hexadecimal digit character, or `None` for any other
/// character.
fn hex_digit_value(c: char) -> (r: Option<u8>)
    ensures
        r is Some <==> hex_digit_val(c) >= 0,
        r matches Some(v) ==> v == hex_digit_val(c) && v <= 15,
{
    let u = c as u32;
    if ('0' as u32) <= u && u <= ('9' as u32) {
        Some((u - ('0' as u32)) as u8)
    } else if ('a' as u32) <= u && u <= ('f' as u32) {
        Some((10 + u - ('a' as u32)) as u8)
    } else if ('A' as u32) <= u && u <= ('F' as u32) {
        Some((10 + u - ('A' as u32)) as u8)
    } else {
        None
    }
}

/// The lower-case character for one hexadecimal digit value.
fn hex_digit_str(d: u8) -> (s: &'static str)
    requires
        d < 16,
    ensures
        s@.len() == 1,
        s@[0] == hex_char_of(d as int),
{
    if d == 0 {
        proof {
            reveal_strlit("0");
        }
        "0"
    } else if d == 1 {
        proof {
            reveal_strlit("1");
        }
        "1"
    } else if d == 2 {
        proof {
            reveal_strlit("2");
        }
        "2"
    } else if d == 3 {
        proof {
            reveal_strlit("3");
        }
        "3"
    } else if d == 4 {
        proof {
            reveal_strlit("4");
        }
        "4"
    } else if d == 5 {
        proof {
            reveal_strlit("5");
        }
        "5"
    } else if d == 6 {
        proof {
            reveal_strlit("6");
        }
        "6"
    } else if d == 7 {
        proof {
            reveal_strlit("7");
        }
        "7"
    } else if d == 8 {
        proof {
            reveal_strlit("8");
        }
        "8"
    } else if d == 9 {
        proof {
            reveal_strlit("9");
        }
        "9"
    } else if d == 10 {
        proof {
            reveal_strlit("a");
        }
        "a"
    } else if d == 11 {
        proof {
            reveal_strlit("b");
        }
        "b"
    } else if d == 12 {
        proof {
            reveal_strlit("c");
        }
        "c"
    } else if d == 13 {
        proof {
            reveal_strlit("d");
        }
        "d"
    } else if d == 14 {
        proof {
            reveal_strlit("e");
        }
        "e"
    } else {
        proof {
            reveal_strlit("f");
        }
        "f"
    }
}

/// Decode a string of hexadecimal digit pairs into bytes.  Returns `None`
/// when the length is odd or any character is no hex digit.
pub fn decode_hex(s: &str) -> (r: Option<Vec<u8>>)
    ensures
        r is Some <==> is_hex_string(s@),
        r matches Some(v) ==> v@ == hex_bytes(s@),
{
    let n = s.unicode_len();
    if n % 2 != 0 {
        return None;
    }
    let half = n / 2;
    let mut bytes: Vec<u8> = Vec::new();
    let mut i: usize = 0;
    while i < half
        invariant
            n == s@.len(),
            n % 2 == 0,
            half == n / 2,
            0 <= i <= half,
            bytes@.len() == i,
            forall|ci: int| 0 <= ci < 2 * i ==> hex_digit_val(#[trigger] s@[ci]) >= 0,
            forall|j: int|
                0 <= j < i ==> (#[trigger] bytes@[j]) == (16 * hex_digit_val(s@[2 * j])
                    + hex_digit_val(s@[2 * j + 1])) as u8,
        decreases half - i,
    {
        let c_hi = s.get_char(2 * i);
        let c_lo = s.get_char(2 * i + 1);
        let hi = match hex_digit_value(c_hi) {
            Some(v) => v,
            None => {
                return None;
            },
        };
        let lo = match hex_digit_value(c_lo) {
            Some(v) => v,
            None => {
                return None;
            },
        };
        bytes.push(16 * hi + lo);
        i = i + 1;
    }
    proof {
        assert forall|ci: int| 0 <= ci < s@.len() implies hex_digit_val(#[trigger] s@[ci]) >= 0 by {
            assert(ci < 2 * half);
        }
        assert(bytes@ =~= hex_bytes(s@));
    }
    Some(bytes)
}

/// Encode bytes as a lower-case hex string, two digits per byte.
pub fn encode_hex(bytes: &[u8]) -> (r: String)
    ensures
        r@.len() == 2 * bytes@.len(),
        forall|j: int|
            0 <= j < bytes@.len() ==> r@[2 * j] == hex_char_of((#[trigger] bytes@[j]) as int / 16)
                && r@[2 * j + 1] == hex_char_of(bytes@[j] as int % 16),
{
    let n = bytes.len();
    let mut out = String::new();
    let mut i: usize = 0;
    while i < n
        invariant
            n == bytes@.len(),
            0 <= i <= n,
            out@.len() == 2 * i,
            forall|j: int|
                0 <= j < i ==> out@[2 * j] == hex_char_of((#[trigger] bytes@[j]) as int / 16)
                    && out@[2 * j + 1] == hex_char_of(bytes@[j] as int % 16),
        decreases n - i,
    {
        let b = *vstd::slice::slice_index_get(bytes, i);
        out.append(hex_digit_str(b / 16));
        out.append(hex_digit_str(b % 16));
        i = i + 1;
    }
    out
}

/// A color as red, green and blue channels.
pub struct RgbColor {
    pub r: u8,
    pub g: u8,
    pub b: u8,
}

impl RgbColor {
    pub fn new(r: u8, g: u8, b: u8) -> (c: RgbColor)
        ensures
            c.r == r,
            c.g == g,
            c.b == b,
    {
        RgbColor { r, g, b }
    }

    /// Parse a `#rrggbb` color string.  The leading `#` and six hex digits
    /// are demanded up front, as the string would otherwise not name a
    /// color.
    pub fn from_hex(hex: &str) -> (c: RgbColor)
        requires
            hex@.len() >= 7,
            hex@[0] == '#',
            forall|i: int| 1 <= i < 7 ==> hex_digit_val(#[trigger] hex@[i]) >= 0,
        ensures
            c.r == 16 * hex_digit_val(hex@[1]) + hex_digit_val(hex@[2]),
            c.g == 16 * hex_digit_val(hex@[3]) + hex_digit_val(hex@[4]),
            c.b == 16 * hex_digit_val(hex@[5]) + hex_digit_val(hex@[6]),
    {
        let digits = hex.substring_char(1, 7);
        match decode_hex(digits) {
            Some(data) => {
                proof {
                    assert(hex_bytes(digits@).len() == 3);
                }
                RgbColor { r: data[0], g: data[1], b: data[2] }
            },
            None => {
                proof {
                    assert(is_hex_string(digits@));
                    assert(false);
                }
                RgbColor { r: 0, g: 0, b: 0 }
            },
        }
    }

    /// The `#rrggbb` string for this color, lower case.
    pub fn to_hex(&self) -> (s: String)
        ensures
            s@.len() == 7,
            s@[0] == '#',
            s@[1] == hex_char_of(self.r as int / 16),
            s@[2] == hex_char_of(self.r as int % 16),
            s@[3] == hex_char_of(self.g as int / 16),
            s@[4] == hex_char_of(self.g as int % 16),
            s@[5] == hex_char_of(self.b as int / 16),
            s@[6] == hex_char_of(self.b as int % 16),
    {
        let channels: [u8; 3] = [self.r, self.g, self.b];
        let digits = encode_hex(channels.as_slice());
        proof {
            reveal_strlit("#");
        }
        let mut s = String::from_str("#");
        s.append(digits.as_str());
        s
    }
}

/// A color as hue, saturation and value channels, each scaled to `0..=255`.
pub struct HsvColor {
    pub h: u8,
    pub s: u8,
    pub v: u8,
}

/// One channel of the HSV-to-RGB conversion, all channels scaled to
/// `0..=255`: the classic formula `v - v*s*clamp(min(k, 4-k), 0, 1)` over
/// `k = (n + 6h) mod 6`, carried out in units of `1/255` and truncated.
pub open spec fn hsv_component(h: int, s: int, v: int, n: int) -> int {
    let k = (255 * n + 6 * h) % 1530;
    let m = if k < 1020 - k {
        k
    } else {
        1020 - k
    };
    let m1 = if m > 255 {
        255
    } else {
        m
    };
    let c = if m1 < 0 {
        0
    } else {
        m1
    };
    v * (65025 - s * c) / 65025
}

impl HsvColor {
    pub fn new(h: u8, s: u8, v: u8) -> (c: HsvColor)
        ensures
            c.h == h,
            c.s == s,
            c.v == v,
    {
        HsvColor { h, s, v }
    }

    /// One output channel, selected by the phase `n`.
    fn space_conversion(&self, n: u32) -> (r: u8)
        requires
            n <= 5,
        ensures
            r == hsv_component(self.h as int, self.s as int, self.v as int, n as int),
    {
        let k: u32 = (255 * n + 6 * (self.h as u32)) % 1530;
        let c: u32 = if k > 1020 {
            0
        } else {
            let m = if k < 1020 - k {
                k
            } else {
                1020 - k
            };
            if m > 255 {
                255
            } else {
                m
            }
        };
        proof {
            assert(0 <= (self.s as int) * (c as int) <= 65025) by (nonlinear_arith)
                requires
                    0 <= self.s <= 255,
                    0 <= c <= 255,
            ;
            assert(0 <= (self.v as int) * (65025 - (self.s as int) * (c as int)) <= 16581375)
                by (nonlinear_arith)
                requires
                    0 <= self.v <= 255,
                    0 <= 65025 - (self.s as int) * (c as int) <= 65025,
            ;
            assert((self.v as int) * (65025 - (self.s as int) * (c as int)) / 65025 <= 255)
                by (nonlinear_arith)
                requires
                    0 <= (self.v as int) * (65025 - (self.s as int) * (c as int)) <= 16581375,
            ;
        }
        let scaled: u32 = (self.v as u32) * (65025 - (self.s as u32) * c);
        (scaled / 65025) as u8
    }

    /// The RGB color with the same appearance.
    pub fn to_rgb(&self) -> (c: RgbColor)
        ensures
            c.r == hsv_component(self.h as int, self.s as int, self.v as int, 5),
            c.g == hsv_component(self.h as int, self.s as int, self.v as int, 3),
            c.b == hsv_component(self.h as int, self.s as int, self.v as int, 1),
    {
        RgbColor {
            r: self.space_conversion(5),
            g: self.space_conversion(3),
            b: self.space_conversion(1),
        }
    }
}

} // verus!
