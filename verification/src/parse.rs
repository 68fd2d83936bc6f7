//! Parsing and validation of command line values.
use vstd::prelude::*;
use vstd::utf8::encode_utf8;
use crate::error::{CliError, outcome};
use crate::external::{hex_decode, hex_decode_spec, lemma_hex_decode_len};
use crate::number::{parse_u32, push_decimal};
use crate::text::{
    decimal, parse_unsigned_spec, split_on, split_once_char, split_once_spec, split_seq, strip_leading,
    trim, trim_start_char, trimmed, views,
};

verus! {

/// Largest accepted `--sample-rate`, in Hz.
pub const MAX_SAMPLE_RATE: u32 = 768_000;

/// Largest width or height of a composed sheet, in pixels.
pub const MAX_CANVAS_DIM: u32 = 16_384;

pub open spec fn u32_value(s: Seq<char>) -> Option<nat> {
    parse_unsigned_spec(s, u32::MAX as nat)
}

pub open spec fn positive_message(name: Seq<char>) -> Seq<char> {
    name + " must be greater than 0"@
}

/// Fails with exit code 2 when `value` is zero.
pub fn validate_positive_u32(name: &str, value: u32) -> (r: Result<(), CliError>)
    ensures
        value != 0 ==> r is Ok,
        value == 0 ==> outcome(r) == Err::<(), _>((2i32, positive_message(name@))),
{
    if value == 0 {
        let mut m = String::from_str(name);
        m.append(" must be greater than 0");
        return Err(CliError::new(2, m));
    }
    Ok(())
}

/// Fails with exit code 2 when the timeout is zero seconds.
pub fn validate_timeout(seconds: u64) -> (r: Result<(), CliError>)
    ensures
        seconds != 0 ==> r is Ok,
        seconds == 0 ==> outcome(r) == Err::<(), _>((2i32, "--timeout-seconds must be greater than 0"@)),
{
    if seconds == 0 {
        return Err(CliError::with_text(2, "--timeout-seconds must be greater than 0"));
    }
    Ok(())
}

pub open spec fn sample_rate_range_message() -> Seq<char> {
    "--sample-rate must be between 1 and "@ + decimal(MAX_SAMPLE_RATE as nat)
}

/// Accepts sample rates from 1 Hz to `MAX_SAMPLE_RATE`.
pub fn validate_sample_rate(value: u32) -> (r: Result<(), CliError>)
    ensures
        1 <= value <= MAX_SAMPLE_RATE ==> r is Ok,
        value == 0 ==> outcome(r) == Err::<(), _>((2i32, positive_message("--sample-rate"@))),
        value > MAX_SAMPLE_RATE ==> outcome(r) == Err::<(), _>((2i32, sample_rate_range_message())),
{
    validate_positive_u32("--sample-rate", value)?;
    if value > MAX_SAMPLE_RATE {
        let mut m = String::from_str("--sample-rate must be between 1 and ");
        push_decimal(&mut m, MAX_SAMPLE_RATE as u64);
        return Err(CliError::new(2, m));
    }
    Ok(())
}

pub open spec fn axis_message(axis: Seq<char>, count: u32, cell: u32) -> Seq<char> {
    "sheet "@ + axis + " ("@ + decimal(count as nat) + " x "@ + decimal(cell as nat) + "px) exceeds the "@
        + decimal(MAX_CANVAS_DIM as nat) + "px limit"@
}

fn axis_error(axis: &str, count: u32, cell: u32) -> (e: CliError)
    ensures
        e.code == 2,
        e.message@ == axis_message(axis@, count, cell),
{
    let mut m = String::from_str("sheet ");
    m.append(axis);
    m.append(" (");
    push_decimal(&mut m, count as u64);
    m.append(" x ");
    push_decimal(&mut m, cell as u64);
    m.append("px) exceeds the ");
    push_decimal(&mut m, MAX_CANVAS_DIM as u64);
    m.append("px limit");
    CliError::new(2, m)
}

/// The size of a sheet of `cols` x `rows` cells of `cell_w` x `cell_h`
/// pixels, refused when either side would exceed `MAX_CANVAS_DIM`.
pub fn checked_canvas_dims(cols: u32, rows: u32, cell_w: u32, cell_h: u32) -> (r: Result<(u32, u32), CliError>)
    ensures
        cols * cell_w > MAX_CANVAS_DIM ==> outcome(r) == Err::<(u32, u32), _>(
            (2i32, axis_message("width"@, cols, cell_w)),
        ),
        cols * cell_w <= MAX_CANVAS_DIM && rows * cell_h > MAX_CANVAS_DIM ==> outcome(r) == Err::<
            (u32, u32),
            _,
        >((2i32, axis_message("height"@, rows, cell_h))),
        cols * cell_w <= MAX_CANVAS_DIM && rows * cell_h <= MAX_CANVAS_DIM ==> (r matches Ok((w, h)) && w
            == cols * cell_w && h == rows * cell_h),
{
    let width = match cols.checked_mul(cell_w) {
        Some(w) if w <= MAX_CANVAS_DIM => w,
        _ => return Err(axis_error("width", cols, cell_w)),
    };
    let height = match rows.checked_mul(cell_h) {
        Some(h) if h <= MAX_CANVAS_DIM => h,
        _ => return Err(axis_error("height", rows, cell_h)),
    };
    Ok((width, height))
}

/// What `parse_size` gives for `s`: `WIDTHxHEIGHT`, both positive.
pub open spec fn size_outcome(s: Seq<char>) -> Result<(u32, u32), (i32, Seq<char>)> {
    match split_once_spec(s, 'x') {
        None => Err((2, "size must be WIDTHxHEIGHT"@)),
        Some((w, h)) => match (u32_value(w), u32_value(h)) {
            (None, _) => Err((2, "invalid width"@)),
            (Some(_), None) => Err((2, "invalid height"@)),
            (Some(w), Some(h)) => if w == 0 {
                Err((2, positive_message("width"@)))
            } else if h == 0 {
                Err((2, positive_message("height"@)))
            } else {
                Ok((w as u32, h as u32))
            },
        },
    }
}

/// Parses `WIDTHxHEIGHT`, splitting at the first `x`.
pub fn parse_size(s: &str) -> (r: Result<(u32, u32), CliError>)
    ensures
        outcome(r) == size_outcome(s@),
{
    let (w, h) = match split_once_char(s, 'x') {
        Some(p) => p,
        None => return Err(CliError::with_text(2, "size must be WIDTHxHEIGHT")),
    };
    let w = match parse_u32(w) {
        Some(v) => v,
        None => return Err(CliError::with_text(2, "invalid width")),
    };
    let h = match parse_u32(h) {
        Some(v) => v,
        None => return Err(CliError::with_text(2, "invalid height")),
    };
    validate_positive_u32("width", w)?;
    validate_positive_u32("height", h)?;
    Ok((w, h))
}

/// What `parse_box` gives for `s`: `x,y,w,h` with `w` and `h` positive.
pub open spec fn box_outcome(s: Seq<char>) -> Result<(u32, u32, u32, u32), (i32, Seq<char>)> {
    let parts = split_seq(s, seq![',']);
    if parts.len() != 4 {
        Err((2, "box must be x,y,w,h"@))
    } else {
        match (u32_value(parts[0]), u32_value(parts[1]), u32_value(parts[2]), u32_value(parts[3])) {
            (None, _, _, _) => Err((2, "invalid box x"@)),
            (Some(_), None, _, _) => Err((2, "invalid box y"@)),
            (Some(_), Some(_), None, _) => Err((2, "invalid box w"@)),
            (Some(_), Some(_), Some(_), None) => Err((2, "invalid box h"@)),
            (Some(x), Some(y), Some(w), Some(h)) => if w == 0 {
                Err((2, positive_message("box w"@)))
            } else if h == 0 {
                Err((2, positive_message("box h"@)))
            } else {
                Ok((x as u32, y as u32, w as u32, h as u32))
            },
        }
    }
}

/// Parses a crop box `x,y,w,h` in pixels.
pub fn parse_box(s: &str) -> (r: Result<(u32, u32, u32, u32), CliError>)
    ensures
        outcome(r) == box_outcome(s@),
{
    let seps = [','];
    let parts = split_on(s, &seps);
    assert(seps@ =~= seq![',']);
    if parts.len() != 4 {
        return Err(CliError::with_text(2, "box must be x,y,w,h"));
    }
    assert(parts@[0]@ == views(parts@)[0]);
    assert(parts@[1]@ == views(parts@)[1]);
    assert(parts@[2]@ == views(parts@)[2]);
    assert(parts@[3]@ == views(parts@)[3]);
    let x = match parse_u32(parts[0]) {
        Some(v) => v,
        None => return Err(CliError::with_text(2, "invalid box x")),
    };
    let y = match parse_u32(parts[1]) {
        Some(v) => v,
        None => return Err(CliError::with_text(2, "invalid box y")),
    };
    let w = match parse_u32(parts[2]) {
        Some(v) => v,
        None => return Err(CliError::with_text(2, "invalid box w")),
    };
    let h = match parse_u32(parts[3]) {
        Some(v) => v,
        None => return Err(CliError::with_text(2, "invalid box h")),
    };
    validate_positive_u32("box w", w)?;
    validate_positive_u32("box h", h)?;
    Ok((x, y, w, h))
}

/// What `parse_grid` gives for `s`: `COLSxROWS`, both non-zero.
pub open spec fn grid_outcome(s: Seq<char>) -> Result<(u32, u32), (i32, Seq<char>)> {
    match split_once_spec(s, 'x') {
        None => Err((2, "grid must be COLSxROWS"@)),
        Some((c, r)) => match (u32_value(c), u32_value(r)) {
            (None, _) => Err((2, "invalid grid cols"@)),
            (Some(_), None) => Err((2, "invalid grid rows"@)),
            (Some(c), Some(r)) => if c == 0 || r == 0 {
                Err((2, "grid dimensions must be non-zero"@))
            } else {
                Ok((c as u32, r as u32))
            },
        },
    }
}

/// Parses a sprite sheet grid `COLSxROWS`.
pub fn parse_grid(s: &str) -> (r: Result<(u32, u32), CliError>)
    ensures
        outcome(r) == grid_outcome(s@),
{
    let (c, r) = match split_once_char(s, 'x') {
        Some(p) => p,
        None => return Err(CliError::with_text(2, "grid must be COLSxROWS")),
    };
    let cols = match parse_u32(c) {
        Some(v) => v,
        None => return Err(CliError::with_text(2, "invalid grid cols")),
    };
    let rows = match parse_u32(r) {
        Some(v) => v,
        None => return Err(CliError::with_text(2, "invalid grid rows")),
    };
    if cols == 0 || rows == 0 {
        return Err(CliError::with_text(2, "grid dimensions must be non-zero"));
    }
    Ok((cols, rows))
}

/// The text that `parse_hex_color` decodes: `s` trimmed, without leading `#`.
pub open spec fn hex_color_digits(s: Seq<char>) -> Seq<char> {
    strip_leading(trimmed(s), '#')
}

/// What `parse_hex_color` gives for `s`: the three bytes of `#RRGGBB`.
pub open spec fn hex_color_outcome(s: Seq<char>) -> Result<Seq<u8>, (i32, Seq<char>)> {
    let bytes = encode_utf8(hex_color_digits(s));
    if bytes.len() != 6 {
        Err((2, "color must be #RRGGBB"@))
    } else {
        match hex_decode_spec(bytes) {
            Some(v) => Ok(v),
            None => Err((2, "invalid hex color"@)),
        }
    }
}

/// Parses a color `#RRGGBB` (surrounding white space and any number of
/// leading `#` are ignored).
pub fn parse_hex_color(s: &str) -> (r: Result<[u8; 3], CliError>)
    ensures
        match hex_color_outcome(s@) {
            Ok(v) => r matches Ok(c) && c@ == v,
            Err(e) => r matches Err(x) && (x.code, x.message@) == e,
        },
{
    let h = trim_start_char(trim(s), '#');
    let hb = h.as_bytes();
    if hb.len() != 6 {
        return Err(CliError::with_text(2, "color must be #RRGGBB"));
    }
    let bytes = match hex_decode(hb) {
        Ok(b) => b,
        Err(_) => return Err(CliError::with_text(2, "invalid hex color")),
    };
    proof {
        lemma_hex_decode_len(hb@);
    }
    let c = [bytes[0], bytes[1], bytes[2]];
    assert(c@ =~= bytes@);
    Ok(c)
}

} // verus!
