use vstd::prelude::*;
use vstd::string::*;
use crate::blend_diff::BlendMode;
use crate::fraction::{Fraction, Ratio};
use crate::lcs_diff::default_rate;
use crate::pixel::Pixel;
use crate::raster::Image;

verus! {

/// The names of the diff modes, as they are written on the command line.
pub const DIFF_MODES: [&'static str; 3] = ["solid-color", "lcs", "blend"];

/// The names of the blend modes, as they are written on the command line.
pub const BLEND_MODES: [&'static str; 4] = ["bias", "hue", "overlay", "identity"];

/// Which comparison is made.
#[derive(Copy, Clone, Debug, PartialEq, Eq, Structural)]
pub enum DiffMode {
    /// Every pair of pixels is blended.
    Blend,
    /// Every changed pixel is marked with one colour.
    MarkWithColor,
    /// The images are compared row by row.
    LCS,
}

/// The diff mode that a name stands for, if any.
pub open spec fn diff_mode_named(name: Seq<char>) -> Option<DiffMode> {
    if name == "solid-color"@ {
        Some(DiffMode::MarkWithColor)
    } else if name == "lcs"@ {
        Some(DiffMode::LCS)
    } else if name == "blend"@ {
        Some(DiffMode::Blend)
    } else {
        None
    }
}

/// The blend mode that a name stands for, if any.
pub open spec fn blend_mode_named(name: Seq<char>) -> Option<BlendMode> {
    if name == "bias"@ {
        Some(BlendMode::BIAS)
    } else if name == "hue"@ {
        Some(BlendMode::HUE)
    } else if name == "overlay"@ {
        Some(BlendMode::Overlay)
    } else if name == "identity"@ {
        Some(BlendMode::Identity)
    } else {
        None
    }
}

/// The complaint about a name that stands for no mode.
pub open spec fn nothing_matching(name: Seq<char>) -> Seq<char> {
    "Nothing matching "@ + name
}

/// Are two texts the same?
fn same_text(a: &str, b: &str) -> (same: bool)
    ensures
        same == (a@ == b@),
{
    let x = String::from_str(a);
    let y = String::from_str(b);
    x == y
}

/// Writes the complaint about a name that stands for no mode.
fn complain(input: &str) -> (text: String)
    ensures
        text@ == nothing_matching(input@),
{
    let mut text = String::from_str("Nothing matching ");
    text.append(input);
    text
}

/// Reads the name of a diff mode.
pub fn get_mode_from_string(input: &str) -> (out: Result<DiffMode, String>)
    ensures
        match out {
            Ok(mode) => diff_mode_named(input@) == Some(mode),
            Err(text) => diff_mode_named(input@) is None && text@ == nothing_matching(input@),
        },
{
    if same_text(input, "solid-color") {
        Ok(DiffMode::MarkWithColor)
    } else if same_text(input, "lcs") {
        Ok(DiffMode::LCS)
    } else if same_text(input, "blend") {
        Ok(DiffMode::Blend)
    } else {
        Err(complain(input))
    }
}

/// Reads the name of a blend mode.
pub fn string_into_blend_mode(input: &str) -> (out: Result<BlendMode, String>)
    ensures
        match out {
            Ok(mode) => blend_mode_named(input@) == Some(mode),
            Err(text) => blend_mode_named(input@) is None && text@ == nothing_matching(input@),
        },
{
    if same_text(input, "bias") {
        Ok(BlendMode::BIAS)
    } else if same_text(input, "hue") {
        Ok(BlendMode::HUE)
    } else if same_text(input, "overlay") {
        Ok(BlendMode::Overlay)
    } else if same_text(input, "identity") {
        Ok(BlendMode::Identity)
    } else {
        Err(complain(input))
    }
}

/// Why a text is no 8-bit number.
#[derive(Copy, Clone, Debug, PartialEq, Eq, Structural)]
pub enum NumberFault {
    /// The text is empty.
    Empty,
    /// The text holds something that is no decimal digit, or a sign alone.
    InvalidDigit,
    /// The number is larger than 255.
    TooLarge,
}

/// The words for a fault.
pub open spec fn fault_message(fault: NumberFault) -> Seq<char> {
    match fault {
        NumberFault::Empty => "cannot parse integer from empty string"@,
        NumberFault::InvalidDigit => "invalid digit found in string"@,
        NumberFault::TooLarge => "number too large to fit in target type"@,
    }
}

/// Is the character one of the two square brackets?
pub open spec fn is_bracket(c: char) -> bool {
    c == '[' || c == ']'
}

/// Is the character white space?
pub open spec fn is_space(c: char) -> bool {
    let u = c as u32;
    ||| 0x09 <= u <= 0x0d
    ||| u == 0x20
    ||| u == 0x85
    ||| u == 0xa0
    ||| u == 0x1680
    ||| 0x2000 <= u <= 0x200a
    ||| u == 0x2028
    ||| u == 0x2029
    ||| u == 0x202f
    ||| u == 0x205f
    ||| u == 0x3000
}

/// The fields of a colour text. Square brackets are passed over, a comma
/// starts a new field, and any other character joins the last field.
pub open spec fn color_fields(s: Seq<char>) -> Seq<Seq<char>>
    decreases s.len(),
{
    if s.len() == 0 {
        seq![Seq::<char>::empty()]
    } else {
        let before = color_fields(s.drop_last());
        let c = s.last();
        if is_bracket(c) {
            before
        } else if c == ',' {
            before.push(Seq::<char>::empty())
        } else {
            before.update(before.len() - 1, before.last().push(c))
        }
    }
}

/// A text without the white space at its start.
pub open spec fn trim_start(s: Seq<char>) -> Seq<char>
    decreases s.len(),
{
    if s.len() > 0 && is_space(s[0]) {
        trim_start(s.drop_first())
    } else {
        s
    }
}

/// A text without the white space at its end.
pub open spec fn trim_end(s: Seq<char>) -> Seq<char>
    decreases s.len(),
{
    if s.len() > 0 && is_space(s.last()) {
        trim_end(s.drop_last())
    } else {
        s
    }
}

/// A text without the white space at either end.
pub open spec fn trimmed(s: Seq<char>) -> Seq<char> {
    trim_end(trim_start(s))
}

/// The value of a decimal digit.
pub open spec fn digit_value(c: char) -> Option<int> {
    let u = c as u32;
    if 0x30 <= u <= 0x39 {
        Some(u - 0x30)
    } else {
        None
    }
}

/// The number that the first `n` characters spell in decimal, read from
/// the left; the fault of the first character that has one.
pub open spec fn digits_value(s: Seq<char>, n: int) -> Result<int, NumberFault>
    decreases n,
{
    if n <= 0 {
        Ok(0)
    } else {
        match digits_value(s, n - 1) {
            Err(fault) => Err(fault),
            Ok(v) => match digit_value(s[n - 1]) {
                None => Err(NumberFault::InvalidDigit),
                Some(d) => if 10 * v + d > 255 {
                    Err(NumberFault::TooLarge)
                } else {
                    Ok(10 * v + d)
                },
            },
        }
    }
}

/// The 8-bit number that a text spells: decimal digits, with a plus sign
/// before them or without.
pub open spec fn channel_value(s: Seq<char>) -> Result<u8, NumberFault> {
    if s.len() == 0 {
        Err(NumberFault::Empty)
    } else if s.len() == 1 && (s[0] == '+' || s[0] == '-') {
        Err(NumberFault::InvalidDigit)
    } else {
        let digits = if s[0] == '+' {
            s.drop_first()
        } else {
            s
        };
        match digits_value(digits, digits.len() as int) {
            Ok(v) => Ok(v as u8),
            Err(fault) => Err(fault),
        }
    }
}

/// The numbers of the first `n` fields, each trimmed; the fault of the
/// first field that has one.
pub open spec fn channel_values(fields: Seq<Seq<char>>, n: int) -> Result<Seq<u8>, NumberFault>
    decreases n,
{
    if n <= 0 {
        Ok(Seq::empty())
    } else {
        match channel_values(fields, n - 1) {
            Err(fault) => Err(fault),
            Ok(values) => match channel_value(trimmed(fields[n - 1])) {
                Err(fault) => Err(fault),
                Ok(v) => Ok(values.push(v)),
            },
        }
    }
}

/// The colour of a list of channel values: the first four, red first;
/// a channel without a value is zero.
pub open spec fn color_of(values: Seq<u8>) -> Pixel {
    Pixel {
        r: if values.len() > 0 {
            values[0]
        } else {
            0
        },
        g: if values.len() > 1 {
            values[1]
        } else {
            0
        },
        b: if values.len() > 2 {
            values[2]
        } else {
            0
        },
        a: if values.len() > 3 {
            values[3]
        } else {
            0
        },
    }
}

/// The colour that a text such as `[0,255,0,0]` spells. Every field must
/// be a number, also those after the fourth.
pub open spec fn parse_color(s: Seq<char>) -> Result<Pixel, NumberFault> {
    let fields = color_fields(s);
    match channel_values(fields, fields.len() as int) {
        Ok(values) => Ok(color_of(values)),
        Err(fault) => Err(fault),
    }
}

/// The texts of a list of fields.
pub open spec fn field_texts(fields: Seq<Vec<char>>) -> Seq<Seq<char>> {
    Seq::new(fields.len(), |k: int| fields[k]@)
}

/// Is the character white space?
fn char_is_space(c: char) -> (yes: bool)
    ensures
        yes == is_space(c),
{
    let u: u32 = c as u32;
    (0x09 <= u && u <= 0x0d) || u == 0x20 || u == 0x85 || u == 0xa0 || u == 0x1680 || (0x2000 <= u
        && u <= 0x200a) || u == 0x2028 || u == 0x2029 || u == 0x202f || u == 0x205f || u == 0x3000
}

/// Splits a colour text into its fields.
fn split_fields(input: &str) -> (fields: Vec<Vec<char>>)
    ensures
        field_texts(fields@) == color_fields(input@),
{
    let count: usize = input.unicode_len();
    let mut fields: Vec<Vec<char>> = Vec::new();
    let mut current: Vec<char> = Vec::new();
    let mut i: usize = 0;
    assert(input@.subrange(0, 0) =~= Seq::<char>::empty());
    assert(field_texts(fields@).push(current@) =~= seq![Seq::<char>::empty()]);
    while i < count
        invariant
            i <= count,
            count == input@.len(),
            color_fields(input@.subrange(0, i as int)) == field_texts(fields@).push(current@),
        decreases count - i,
    {
        let c = input.get_char(i);
        let ghost before = color_fields(input@.subrange(0, i as int));
        proof {
            let next = input@.subrange(0, i + 1);
            assert(next.drop_last() =~= input@.subrange(0, i as int));
            assert(next.last() == c);
        }
        if c == '[' || c == ']' {
        } else if c == ',' {
            fields.push(current);
            current = Vec::new();
            assert(field_texts(fields@) =~= before);
        } else {
            current.push(c);
            assert(field_texts(fields@).push(current@) =~= before.update(
                before.len() - 1,
                before.last().push(c),
            ));
        }
        i += 1;
    }
    assert(input@.subrange(0, count as int) =~= input@);
    let ghost all = field_texts(fields@).push(current@);
    fields.push(current);
    assert(field_texts(fields@) =~= all);
    fields
}

/// Finds where a field starts and ends once its white space is cut off.
fn trim_bounds(field: &Vec<char>) -> (bounds: (usize, usize))
    ensures
        bounds.0 <= bounds.1 <= field@.len(),
        field@.subrange(bounds.0 as int, bounds.1 as int) == trimmed(field@),
{
    let len: usize = field.len();
    let mut lo: usize = 0;
    assert(field@.subrange(0, len as int) =~= field@);
    while lo < len && char_is_space(field[lo])
        invariant
            lo <= len,
            len == field@.len(),
            trim_start(field@) == trim_start(field@.subrange(lo as int, len as int)),
        decreases len - lo,
    {
        proof {
            let rest = field@.subrange(lo as int, len as int);
            assert(rest.drop_first() =~= field@.subrange(lo + 1, len as int));
        }
        lo += 1;
    }
    let mut hi: usize = len;
    while hi > lo && char_is_space(field[hi - 1])
        invariant
            lo <= hi <= len,
            len == field@.len(),
            trim_start(field@) == field@.subrange(lo as int, len as int),
            trimmed(field@) == trim_end(field@.subrange(lo as int, hi as int)),
        decreases hi - lo,
    {
        proof {
            let rest = field@.subrange(lo as int, hi as int);
            assert(rest.drop_last() =~= field@.subrange(lo as int, hi - 1));
        }
        hi -= 1;
    }
    (lo, hi)
}

/// Reads a field as an 8-bit number.
fn parse_channel(field: &Vec<char>) -> (out: Result<u8, NumberFault>)
    ensures
        out == channel_value(trimmed(field@)),
{
    let (lo, hi) = trim_bounds(field);
    let ghost text = field@.subrange(lo as int, hi as int);
    if lo == hi {
        return Err(NumberFault::Empty);
    }
    let first = field[lo];
    assert(text[0] == first);
    if hi - lo == 1 && (first == '+' || first == '-') {
        return Err(NumberFault::InvalidDigit);
    }
    let start: usize = if first == '+' {
        lo + 1
    } else {
        lo
    };
    let ghost digits = field@.subrange(start as int, hi as int);
    assert(digits =~= if text[0] == '+' {
        text.drop_first()
    } else {
        text
    });
    let ghost whole = digits_value(digits, digits.len() as int);
    assert(channel_value(trimmed(field@)) == match whole {
        Ok(v) => Ok::<u8, NumberFault>(v as u8),
        Err(fault) => Err::<u8, NumberFault>(fault),
    });
    let mut value: u32 = 0;
    let mut k: usize = start;
    while k < hi
        invariant
            start <= k <= hi <= field@.len(),
            digits == field@.subrange(start as int, hi as int),
            whole == digits_value(digits, digits.len() as int),
            channel_value(trimmed(field@)) == match whole {
                Ok(v) => Ok::<u8, NumberFault>(v as u8),
                Err(fault) => Err::<u8, NumberFault>(fault),
            },
            value <= 255,
            digits_value(digits, k - start) == Ok::<int, NumberFault>(value as int),
        decreases hi - k,
    {
        let u: u32 = field[k] as u32;
        assert(digits[k - start] == field@[k as int]);
        if !(0x30 <= u && u <= 0x39) {
            proof {
                lemma_digits_fault_persists(digits, k - start + 1, digits.len() as int);
            }
            return Err(NumberFault::InvalidDigit);
        }
        let next: u32 = 10 * value + (u - 0x30);
        if next > 255 {
            proof {
                lemma_digits_fault_persists(digits, k - start + 1, digits.len() as int);
            }
            return Err(NumberFault::TooLarge);
        }
        value = next;
        k += 1;
    }
    Ok(value as u8)
}

/// Once a character has a fault, every longer text has that fault.
proof fn lemma_digits_fault_persists(s: Seq<char>, m: int, n: int)
    requires
        0 <= m <= n,
        digits_value(s, m) is Err,
    ensures
        digits_value(s, n) == digits_value(s, m),
    decreases n - m,
{
    if n > m {
        lemma_digits_fault_persists(s, m, n - 1);
    }
}

/// Once a field has a fault, every longer list of fields has that fault.
proof fn lemma_fields_fault_persists(fields: Seq<Seq<char>>, m: int, n: int)
    requires
        0 <= m <= n,
        channel_values(fields, m) is Err,
    ensures
        channel_values(fields, n) == channel_values(fields, m),
    decreases n - m,
{
    if n > m {
        lemma_fields_fault_persists(fields, m, n - 1);
    }
}

/// Writes the words for a fault.
fn fault_text(fault: NumberFault) -> (text: String)
    ensures
        text@ == fault_message(fault),
{
    match fault {
        NumberFault::Empty => String::from_str("cannot parse integer from empty string"),
        NumberFault::InvalidDigit => String::from_str("invalid digit found in string"),
        NumberFault::TooLarge => String::from_str("number too large to fit in target type"),
    }
}

/// Reads a colour from a text such as `[0,255,0,0]`: up to four numbers
/// from 0 to 255, separated by commas. Square brackets anywhere and white
/// space around a number are passed over. A channel that is not given is
/// zero. The first field that is no such number decides the error.
pub fn rgba_from_string(input: &str) -> (out: Result<Pixel, String>)
    ensures
        match out {
            Ok(color) => parse_color(input@) == Ok::<Pixel, NumberFault>(color),
            Err(text) => parse_color(input@) matches Err(fault) && text@ == fault_message(fault),
        },
{
    let fields = split_fields(input);
    let ghost texts = color_fields(input@);
    let mut parts: Vec<u8> = Vec::new();
    let mut k: usize = 0;
    while k < fields.len()
        invariant
            k <= fields.len(),
            texts == field_texts(fields@),
            texts == color_fields(input@),
            channel_values(texts, k as int) == Ok::<Seq<u8>, NumberFault>(parts@),
        decreases fields.len() - k,
    {
        assert(texts[k as int] == fields@[k as int]@);
        match parse_channel(&fields[k]) {
            Ok(v) => {
                parts.push(v);
            },
            Err(fault) => {
                proof {
                    lemma_fields_fault_persists(texts, k + 1, texts.len() as int);
                }
                return Err(fault_text(fault));
            },
        }
        k += 1;
    }
    let r: u8 = if parts.len() > 0 {
        parts[0]
    } else {
        0
    };
    let g: u8 = if parts.len() > 1 {
        parts[1]
    } else {
        0
    };
    let b: u8 = if parts.len() > 2 {
        parts[2]
    } else {
        0
    };
    let a: u8 = if parts.len() > 3 {
        parts[3]
    } else {
        0
    };
    Ok(Pixel { r, g, b, a })
}

/// What one run compares, and how.
#[derive(Debug)]
pub struct Config {
    /// The first image.
    pub image1: Image,
    /// The second image.
    pub image2: Image,
    /// Where the diff image goes; without it the run measures a ratio.
    pub filename: Option<String>,
    /// The diff mode, if one was named.
    pub mode: Option<DiffMode>,
    /// The blend mode.
    pub blend_mode: BlendMode,
    /// The colour that marks changed pixels.
    pub color: Pixel,
    /// How strongly changed rows are mixed toward their marker colour.
    pub rate: Fraction,
}

/// The diff mode that an argument names: none where there is no
/// argument, a complaint where the argument names no mode.
pub open spec fn diff_mode_argument(mode: Option<&str>) -> Result<Option<DiffMode>, Seq<char>> {
    match mode {
        None => Ok(None),
        Some(m) => match diff_mode_named(m@) {
            Some(d) => Ok(Some(d)),
            None => Err(nothing_matching(m@)),
        },
    }
}

/// The blend mode that an argument names: `Overlay` where there is no
/// argument, a complaint where the argument names no mode.
pub open spec fn blend_mode_argument(blend: Option<&str>) -> Result<BlendMode, Seq<char>> {
    match blend {
        None => Ok(BlendMode::Overlay),
        Some(b) => match blend_mode_named(b@) {
            Some(d) => Ok(d),
            None => Err(nothing_matching(b@)),
        },
    }
}

/// The settings that three texts of a command line spell: a diff mode, a
/// blend mode and a mark colour. The first text that spells nothing
/// decides the complaint: the mode, then the blend mode, then the colour.
pub open spec fn settings_named(mode: Option<&str>, blend: Option<&str>, color: &str) -> Result<
    (Option<DiffMode>, BlendMode, Pixel),
    Seq<char>,
> {
    match diff_mode_argument(mode) {
        Err(text) => Err(text),
        Ok(diff_mode) => match blend_mode_argument(blend) {
            Err(text) => Err(text),
            Ok(blend_mode) => match parse_color(color@) {
                Err(fault) => Err(fault_message(fault)),
                Ok(pixel) => Ok((diff_mode, blend_mode, pixel)),
            },
        },
    }
}

impl Config {
    /// Puts a configuration together from two loaded images and the texts
    /// of the command line. The mix rate is 100 / 256.
    pub fn from_arguments(
        image1: Image,
        image2: Image,
        filename: Option<String>,
        mode: Option<&str>,
        blend: Option<&str>,
        color: &str,
    ) -> (out: Result<Config, String>)
        ensures
            match out {
                Ok(config) => {
                    &&& settings_named(mode, blend, color) == Ok::<
                        (Option<DiffMode>, BlendMode, Pixel),
                        Seq<char>,
                    >((config.mode, config.blend_mode, config.color))
                    &&& config.image1 == image1
                    &&& config.image2 == image2
                    &&& config.filename == filename
                    &&& config.rate@ == (Ratio { num: 100, den: 256 })
                },
                Err(text) => settings_named(mode, blend, color) == Err::<
                    (Option<DiffMode>, BlendMode, Pixel),
                    Seq<char>,
                >(text@),
            },
    {
        let mode: Option<DiffMode> = match mode {
            Some(val) => match get_mode_from_string(val) {
                Ok(mode) => Some(mode),
                Err(err) => {
                    return Err(err);
                },
            },
            None => None,
        };
        let blend_mode: BlendMode = match blend {
            Some(bias) => match string_into_blend_mode(bias) {
                Ok(mode) => mode,
                Err(err) => {
                    return Err(err);
                },
            },
            None => BlendMode::Overlay,
        };
        let color = match rgba_from_string(color) {
            Ok(color) => color,
            Err(err) => {
                return Err(err);
            },
        };
        Ok(Config { image1, image2, filename, blend_mode, mode, color, rate: default_rate() })
    }
}

} // verus!
