use vstd::prelude::*;
use vstd::string::StringSliceAdditionalSpecFns;

verus! {

/// A requested avatar background: one solid color (red, green, blue, each
/// 0 to 255, carried in `i32` channels) or the fixed five-band flag
/// gradient.
#[derive(Clone, Copy, Debug)]
pub enum Color {
    Rgb([i32; 3]),
    Trans,
}

/// Crop anchor, used only when the caller explicitly requests a positional
/// crop; when absent, the face-detection path is used instead.
#[derive(Clone, Copy, Debug)]
pub enum Align {
    Top,
    Bottom,
    Center,
}

/// Immutable per-request configuration.
#[derive(Clone, Copy, Debug)]
pub struct Opt {
    pub color: Color,
    pub align: Option<Align>,
    pub dry_run: bool,
    pub show_detect: bool,
}

/// One color channel holds a byte value.
pub open spec fn channel_wf(v: int) -> bool {
    0 <= v <= 255
}

/// Every channel of a solid color holds a byte value.
pub open spec fn color_wf(c: Color) -> bool {
    match c {
        Color::Rgb(v) => channel_wf(v[0] as int) && channel_wf(v[1] as int) && channel_wf(
            v[2] as int,
        ),
        Color::Trans => true,
    }
}

/// ASCII whitespace, as trimmed from the ends of a color string.
pub open spec fn is_space(b: u8) -> bool {
    b == 0x20 || b == 0x09 || b == 0x0a || b == 0x0d || b == 0x0b || b == 0x0c
}

pub open spec fn skip_spaces_front(s: Seq<u8>) -> Seq<u8>
    decreases s.len(),
{
    if s.len() > 0 && is_space(s[0]) {
        skip_spaces_front(s.drop_first())
    } else {
        s
    }
}

pub open spec fn skip_spaces_back(s: Seq<u8>) -> Seq<u8>
    decreases s.len(),
{
    if s.len() > 0 && is_space(s.last()) {
        skip_spaces_back(s.drop_last())
    } else {
        s
    }
}

/// The byte string with ASCII whitespace removed from both ends.
pub open spec fn trim_spaces(s: Seq<u8>) -> Seq<u8> {
    skip_spaces_back(skip_spaces_front(s))
}

/// The byte string with every leading `#` removed.
pub open spec fn strip_hashes(s: Seq<u8>) -> Seq<u8>
    decreases s.len(),
{
    if s.len() > 0 && s[0] == 0x23u8 {
        strip_hashes(s.drop_first())
    } else {
        s
    }
}

pub open spec fn is_hex_digit(b: u8) -> bool {
    (0x30 <= b <= 0x39) || (0x61 <= b <= 0x66) || (0x41 <= b <= 0x46)
}

pub open spec fn hex_digit_val(b: u8) -> nat {
    if 0x30 <= b <= 0x39 {
        (b - 0x30) as nat
    } else if 0x61 <= b <= 0x66 {
        (b - 0x61 + 10) as nat
    } else if 0x41 <= b <= 0x46 {
        (b - 0x41 + 10) as nat
    } else {
        0
    }
}

/// The number written by a string of hexadecimal digits, most significant
/// digit first.
pub open spec fn hex_num(s: Seq<u8>) -> nat
    decreases s.len(),
{
    if s.len() == 0 {
        0
    } else {
        hex_num(s.drop_last()) * 16 + hex_digit_val(s.last())
    }
}

/// The digit part of a hexadecimal number string: everything after one
/// optional leading plus sign.
pub open spec fn hex_digits_part(s: Seq<u8>) -> Seq<u8> {
    if s.len() > 0 && s[0] == 0x2bu8 {
        s.drop_first()
    } else {
        s
    }
}

/// Whether the whole byte string parses as a hexadecimal `u32`: an optional
/// plus sign, then at least one hexadecimal digit, with a value that fits.
pub open spec fn hex_parses(s: Seq<u8>) -> bool {
    let d = hex_digits_part(s);
    &&& d.len() > 0
    &&& forall|i: int| 0 <= i < d.len() ==> is_hex_digit(#[trigger] d[i])
    &&& hex_num(d) <= u32::MAX
}

/// The color number a user string denotes: its hexadecimal value, or white
/// (`0xffffff`) when it does not parse.
pub open spec fn color_number(s: Seq<u8>) -> u32 {
    let t = strip_hashes(trim_spaces(s));
    if hex_parses(t) {
        hex_num(hex_digits_part(t)) as u32
    } else {
        0xffffffu32
    }
}

/// The four big-endian bytes of a `u32`.
pub open spec fn be_byte(v: u32, i: int) -> u8 {
    if i == 0 {
        (v / 0x1000000) as u8
    } else if i == 1 {
        ((v / 0x10000) % 0x100) as u8
    } else if i == 2 {
        ((v / 0x100) % 0x100) as u8
    } else {
        (v % 0x100) as u8
    }
}

fn slice_trim_front(b: &[u8]) -> (r: &[u8])
    ensures
        r@ == skip_spaces_front(b@),
    decreases b@.len(),
{
    if b.len() > 0 {
        let c = b[0];
        if c == 0x20 || c == 0x09 || c == 0x0a || c == 0x0d || c == 0x0b || c == 0x0c {
            assert(b@[0] == c);
            let t = slice_trim_front(&b[1..b.len()]);
            assert(b@.subrange(1, b@.len() as int) == b@.drop_first());
            return t;
        }
    }
    b
}

fn slice_trim_back(b: &[u8]) -> (r: &[u8])
    ensures
        r@ == skip_spaces_back(b@),
    decreases b@.len(),
{
    if b.len() > 0 {
        let c = b[b.len() - 1];
        if c == 0x20 || c == 0x09 || c == 0x0a || c == 0x0d || c == 0x0b || c == 0x0c {
            assert(b@.last() == c);
            let t = slice_trim_back(&b[0..b.len() - 1]);
            assert(b@.subrange(0, b@.len() - 1) == b@.drop_last());
            return t;
        }
    }
    b
}

fn slice_strip_hashes(b: &[u8]) -> (r: &[u8])
    ensures
        r@ == strip_hashes(b@),
    decreases b@.len(),
{
    if b.len() > 0 && b[0] == 0x23 {
        let t = slice_strip_hashes(&b[1..b.len()]);
        assert(b@.subrange(1, b@.len() as int) == b@.drop_first());
        t
    } else {
        b
    }
}

/// The value of one hexadecimal digit byte, if it is one.
fn hex_val(b: u8) -> (r: Option<u8>)
    ensures
        r is Some <==> is_hex_digit(b),
        r matches Some(v) ==> v == hex_digit_val(b),
{
    if 0x30 <= b && b <= 0x39 {
        Some(b - 0x30)
    } else if 0x61 <= b && b <= 0x66 {
        Some(b - 0x61 + 10)
    } else if 0x41 <= b && b <= 0x46 {
        Some(b - 0x41 + 10)
    } else {
        None
    }
}

/// Parses a byte string as a hexadecimal `u32`: an optional plus sign, then
/// at least one digit; rejects empty strings, stray characters, and values
/// that do not fit.
fn parse_hex_u32(b: &[u8]) -> (r: Option<u32>)
    ensures
        r is Some <==> hex_parses(b@),
        r matches Some(v) ==> v == hex_num(hex_digits_part(b@)),
{
    let d: &[u8] = if b.len() > 0 && b[0] == 0x2b {
        let t = &b[1..b.len()];
        assert(t@ == b@.drop_first());
        assert(t@ == hex_digits_part(b@));
        t
    } else {
        assert(b@ == hex_digits_part(b@));
        b
    };
    if d.len() == 0 {
        return None;
    }
    let ghost ds = d@;
    let mut acc: u32 = 0;
    let mut i: usize = 0;
    let mut over: bool = false;
    while i < d.len()
        invariant
            0 <= i <= ds.len(),
            d@ == ds,
            ds == hex_digits_part(b@),
            forall|j: int| 0 <= j < i ==> is_hex_digit(#[trigger] ds[j]),
            !over ==> acc == hex_num(ds.take(i as int)),
            over ==> hex_num(ds.take(i as int)) > u32::MAX,
        decreases ds.len() - i,
    {
        let c = d[i];
        match hex_val(c) {
            None => {
                assert(!is_hex_digit(ds[i as int]));
                return None;
            },
            Some(v) => {
                proof {
                    assert(ds.take(i + 1).drop_last() == ds.take(i as int));
                    assert(ds.take(i + 1).last() == ds[i as int]);
                    assert(hex_num(ds.take(i + 1)) == hex_num(ds.take(i as int)) * 16
                        + hex_digit_val(ds[i as int]));
                }
                if over || acc > 0x0fffffff {
                    over = true;
                } else {
                    acc = acc * 16 + (v as u32);
                }
            },
        }
        i += 1;
    }
    proof {
        assert(ds.take(ds.len() as int) == ds);
    }
    if over {
        None
    } else {
        Some(acc)
    }
}

/// Reads a user-supplied background color string: ASCII whitespace is
/// trimmed, leading `#` marks are dropped, and the rest is read as a
/// hexadecimal number, defaulting to white when it does not parse.  The
/// result is the number's four big-endian bytes.
pub fn str_to_color(s: &str) -> (r: [u8; 4])
    ensures
        forall|i: int| 0 <= i < 4 ==> r[i] == be_byte(color_number(s.spec_bytes()), i),
{
    let b = s.as_bytes();
    let t = slice_strip_hashes(slice_trim_back(slice_trim_front(b)));
    let v: u32 = match parse_hex_u32(t) {
        Some(v) => v,
        None => 0xffffff,
    };
    let r = [(v / 0x1000000) as u8, ((v / 0x10000) % 0x100) as u8, ((v / 0x100) % 0x100) as u8, (v
        % 0x100) as u8];
    r
}

} // verus!
