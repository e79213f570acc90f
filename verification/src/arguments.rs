//! The validated configuration surface: colors, bar geometry, font,
//! terminal program and the search-path flag, with the documented
//! defaults applied to whatever the command line left unset, and the
//! hex color-code parser.

use vstd::prelude::*;

verus! {

/// Default color of the bar background.
pub const DEFAULT_COLOR0: u64 = 0x2e2c2c;

/// Default color of the selected suggestion background.
pub const DEFAULT_COLOR1: u64 = 0x1286a1;

/// Default color of the typed text.
pub const DEFAULT_COLOR2: u64 = 0xffffff;

/// Default color of the suggestion text.
pub const DEFAULT_COLOR3: u64 = 0xffffff;

/// Default color of the scan progress bar.
pub const DEFAULT_COLOR4: u64 = 0x242222;

/// Default height of the bar in pixels.
pub const DEFAULT_HEIGHT: u32 = 22;

/// The bytes of `"DejaVu Sans Mono"`, the default font.
pub open spec fn default_font() -> Seq<u8> {
    seq![
        'D' as u8,
        'e' as u8,
        'j' as u8,
        'a' as u8,
        'V' as u8,
        'u' as u8,
        ' ' as u8,
        'S' as u8,
        'a' as u8,
        'n' as u8,
        's' as u8,
        ' ' as u8,
        'M' as u8,
        'o' as u8,
        'n' as u8,
        'o' as u8,
    ]
}

/// The bytes of `"i3-sensible-terminal"`, the default terminal program.
pub open spec fn default_terminal() -> Seq<u8> {
    seq![
        'i' as u8,
        '3' as u8,
        '-' as u8,
        's' as u8,
        'e' as u8,
        'n' as u8,
        's' as u8,
        'i' as u8,
        'b' as u8,
        'l' as u8,
        'e' as u8,
        '-' as u8,
        't' as u8,
        'e' as u8,
        'r' as u8,
        'm' as u8,
        'i' as u8,
        'n' as u8,
        'a' as u8,
        'l' as u8,
    ]
}

fn default_font_vec() -> (v: Vec<u8>)
    ensures
        v@ == default_font(),
{
    let v: Vec<u8> = vec![
        'D' as u8,
        'e' as u8,
        'j' as u8,
        'a' as u8,
        'V' as u8,
        'u' as u8,
        ' ' as u8,
        'S' as u8,
        'a' as u8,
        'n' as u8,
        's' as u8,
        ' ' as u8,
        'M' as u8,
        'o' as u8,
        'n' as u8,
        'o' as u8,
    ];
    proof {
        assert(v@ =~= default_font());
    }
    v
}

fn default_terminal_vec() -> (v: Vec<u8>)
    ensures
        v@ == default_terminal(),
{
    let v: Vec<u8> = vec![
        'i' as u8,
        '3' as u8,
        '-' as u8,
        's' as u8,
        'e' as u8,
        'n' as u8,
        's' as u8,
        'i' as u8,
        'b' as u8,
        'l' as u8,
        'e' as u8,
        '-' as u8,
        't' as u8,
        'e' as u8,
        'r' as u8,
        'm' as u8,
        'i' as u8,
        'n' as u8,
        'a' as u8,
        'l' as u8,
    ];
    proof {
        assert(v@ =~= default_terminal());
    }
    v
}

/// The validated configuration the launcher core runs with.
pub struct Args {
    /// Color of the bar background.
    pub color0: u64,
    /// Color of the selected suggestion background.
    pub color1: u64,
    /// Color of the typed text.
    pub color2: u64,
    /// Color of the suggestion text.
    pub color3: u64,
    /// Color of the scan progress bar.
    pub color4: u64,
    /// Height of the bar in pixels.
    pub height: u32,
    /// Show the bar at the bottom of the screen.
    pub bottom: bool,
    /// Font name used on the bar.
    pub font: Vec<u8>,
    /// Terminal program for entries that require one.
    pub terminal: Vec<u8>,
    /// Also scan the executable search path.
    pub path: bool,
}

/// Builds the configuration from whatever the command line provided,
/// filling every unset value with its documented default.
pub fn get_args(
    color0: Option<u64>,
    color1: Option<u64>,
    color2: Option<u64>,
    color3: Option<u64>,
    color4: Option<u64>,
    height: Option<u32>,
    bottom: bool,
    font: Option<Vec<u8>>,
    terminal: Option<Vec<u8>>,
    path: bool,
) -> (args: Args)
    ensures
        args.color0 == match color0 {
            Some(c) => c,
            None => DEFAULT_COLOR0,
        },
        args.color1 == match color1 {
            Some(c) => c,
            None => DEFAULT_COLOR1,
        },
        args.color2 == match color2 {
            Some(c) => c,
            None => DEFAULT_COLOR2,
        },
        args.color3 == match color3 {
            Some(c) => c,
            None => DEFAULT_COLOR3,
        },
        args.color4 == match color4 {
            Some(c) => c,
            None => DEFAULT_COLOR4,
        },
        args.height == match height {
            Some(h) => h,
            None => DEFAULT_HEIGHT,
        },
        args.bottom == bottom,
        args.font@ == match font {
            Some(f) => f@,
            None => default_font(),
        },
        args.terminal@ == match terminal {
            Some(t) => t@,
            None => default_terminal(),
        },
        args.path == path,
{
    Args {
        color0: match color0 {
            Some(c) => c,
            None => DEFAULT_COLOR0,
        },
        color1: match color1 {
            Some(c) => c,
            None => DEFAULT_COLOR1,
        },
        color2: match color2 {
            Some(c) => c,
            None => DEFAULT_COLOR2,
        },
        color3: match color3 {
            Some(c) => c,
            None => DEFAULT_COLOR3,
        },
        color4: match color4 {
            Some(c) => c,
            None => DEFAULT_COLOR4,
        },
        height: match height {
            Some(h) => h,
            None => DEFAULT_HEIGHT,
        },
        bottom,
        font: match font {
            Some(f) => f,
            None => default_font_vec(),
        },
        terminal: match terminal {
            Some(t) => t,
            None => default_terminal_vec(),
        },
        path,
    }
}

/// Why a color code was refused.
#[derive(Clone, Copy, Debug, PartialEq, Eq, Structural)]
pub enum ColorError {
    /// The code does not start with `#`.
    MissingHash,
    /// The code is not `#` followed by exactly six digits.
    WrongLength,
    /// A digit is not hexadecimal.
    InvalidDigit,
}

/// A hexadecimal digit.
pub open spec fn is_hex_digit(b: u8) -> bool {
    ('0' as u8 <= b <= '9' as u8) || ('a' as u8 <= b <= 'f' as u8) || (
    'A' as u8 <= b <= 'F' as u8)
}

/// The value of one hexadecimal digit.
pub open spec fn hex_val(b: u8) -> int {
    if '0' as u8 <= b <= '9' as u8 {
        b - '0' as u8
    } else if 'a' as u8 <= b <= 'f' as u8 {
        b - 'a' as u8 + 10
    } else if 'A' as u8 <= b <= 'F' as u8 {
        b - 'A' as u8 + 10
    } else {
        0
    }
}

/// The value of a string of hexadecimal digits, most significant first.
pub open spec fn hex_value(s: Seq<u8>) -> int
    decreases s.len(),
{
    if s.len() == 0 {
        0
    } else {
        hex_value(s.drop_last()) * 16 + hex_val(s.last())
    }
}

spec fn pow16(n: int) -> int
    decreases n,
{
    if n <= 0 {
        1
    } else {
        16 * pow16(n - 1)
    }
}

fn hex_digit(b: u8) -> (r: Option<u64>)
    ensures
        match r {
            Some(d) => is_hex_digit(b) && d == hex_val(b),
            None => !is_hex_digit(b),
        },
{
    if '0' as u8 <= b && b <= '9' as u8 {
        Some((b - '0' as u8) as u64)
    } else if 'a' as u8 <= b && b <= 'f' as u8 {
        Some((b - 'a' as u8) as u64 + 10)
    } else if 'A' as u8 <= b && b <= 'F' as u8 {
        Some((b - 'A' as u8) as u64 + 10)
    } else {
        None
    }
}

/// Parses a `#RRGGBB` color code: `Ok` exactly on a `#` followed by six
/// hexadecimal digits, whose value it returns; each malformed shape is
/// refused with the error naming the first check it failed.
pub fn parse_color(s: &Vec<u8>) -> (r: Result<u64, ColorError>)
    ensures
        match r {
            Ok(v) => {
                &&& s@.len() == 7
                &&& s@[0] == '#' as u8
                &&& forall|k: int| 1 <= k < 7 ==> is_hex_digit(s@[k])
                &&& v == hex_value(s@.skip(1))
            },
            Err(e) => match e {
                ColorError::MissingHash => s@.len() == 0 || s@[0] != '#' as u8,
                ColorError::WrongLength => s@[0] == '#' as u8 && s@.len() != 7,
                ColorError::InvalidDigit => {
                    &&& s@[0] == '#' as u8
                    &&& s@.len() == 7
                    &&& exists|k: int| 1 <= k < 7 && !is_hex_digit(s@[k])
                },
            },
        },
{
    if s.len() == 0 || s[0] != '#' as u8 {
        return Err(ColorError::MissingHash);
    }
    if s.len() != 7 {
        return Err(ColorError::WrongLength);
    }
    let mut v: u64 = 0;
    let mut i: usize = 1;
    proof {
        assert(s@.subrange(1, 1) =~= Seq::<u8>::empty());
    }
    while i < 7
        invariant
            1 <= i <= 7,
            s@.len() == 7,
            s@[0] == '#' as u8,
            forall|k: int| 1 <= k < i ==> is_hex_digit(s@[k]),
            v == hex_value(s@.subrange(1, i as int)),
            v < pow16(i - 1),
        decreases 7 - i,
    {
        match hex_digit(s[i]) {
            Some(d) => {
                proof {
                    let part = s@.subrange(1, i + 1);
                    assert(part.drop_last() =~= s@.subrange(1, i as int));
                    assert(part.last() == s@[i as int]);
                    assert(pow16(0) == 1);
                    assert(pow16(1) == 16);
                    assert(pow16(2) == 256);
                    assert(pow16(3) == 4096);
                    assert(pow16(4) == 65536);
                    assert(pow16(5) == 1048576);
                    assert(pow16(6) == 16777216);
                    assert(d < 16);
                }
                v = v * 16 + d;
                i += 1;
            },
            None => {
                assert(1 <= i < 7 && !is_hex_digit(s@[i as int]));
                return Err(ColorError::InvalidDigit);
            },
        }
    }
    proof {
        assert(s@.subrange(1, 7) =~= s@.skip(1));
    }
    Ok(v)
}

} // verus!
