//! Geometry of sprite sheets and contact sheets.
use vstd::prelude::*;
use crate::error::{CliError, outcome};
use crate::number::{lemma_padded_decimal_value, push_decimal, push_padded};
use crate::parse::{checked_canvas_dims, MAX_CANVAS_DIM, axis_message};
use crate::pixels::{composite, covers, crop, is_crop, overlay, Rgba8Image};
use vstd::arithmetic::div_mod::{lemma_fundamental_div_mod, lemma_fundamental_div_mod_converse, lemma_mod_bound};
use crate::text::{decimal, lemma_middle_eq, zero_padded};

verus! {

/// The file name of frame `index` of a sliced sheet: `frame_000.png`, ...
pub open spec fn frame_name_spec(index: nat) -> Seq<char> {
    "frame_"@ + zero_padded(decimal(index), 3) + ".png"@
}

pub fn frame_file_name(index: u64) -> (r: String)
    ensures
        r@ == frame_name_spec(index as nat),
{
    let mut s = String::from_str("frame_");
    push_padded(&mut s, index, 3);
    s.append(".png");
    s
}

/// The warning given when a sheet does not divide evenly into its grid.
pub open spec fn remainder_warning_spec(w: u32, h: u32, cols: u32, rows: u32) -> Seq<char> {
    decimal(w as nat) + "x"@ + decimal(h as nat) + " image does not divide evenly by a "@ + decimal(
        cols as nat,
    ) + "x"@ + decimal(rows as nat) + " grid; "@ + decimal((w % cols) as nat) + "px column / "@
        + decimal((h % rows) as nat) + "px row remainder is dropped"@
}

/// The frames of a sprite sheet cut along a grid, with the warning to give
/// when the sheet does not divide evenly.
#[derive(Debug)]
pub struct SheetSlices {
    pub warning: Option<String>,
    pub frames: Vec<Rgba8Image>,
}

proof fn lemma_cell_fits(c: int, cols: int, w: int)
    requires
        0 <= c < cols,
        0 < cols,
        0 <= w,
    ensures
        c * (w / cols) + w / cols <= w,
        c * (w / cols) >= 0,
{
    assert((c + 1) * (w / cols) <= cols * (w / cols)) by (nonlinear_arith)
        requires
            c + 1 <= cols,
            w / cols >= 0,
    ;
    assert(cols * (w / cols) <= w) by (nonlinear_arith)
        requires
            cols > 0,
            w >= 0,
    ;
    assert(c * (w / cols) >= 0) by (nonlinear_arith)
        requires
            c >= 0,
            w / cols >= 0,
    ;
    assert((c + 1) * (w / cols) == c * (w / cols) + w / cols) by (nonlinear_arith);
}

/// Cuts a sheet into `cols` x `rows` frames of `width / cols` x
/// `height / rows` pixels, row by row; any remainder at the right and
/// bottom is dropped with a warning. Exit code 2 when a cell would be
/// empty.
pub fn slice_sheet(img: &Rgba8Image, cols: u32, rows: u32) -> (r: Result<SheetSlices, CliError>)
    requires
        img.wf(),
        cols > 0,
        rows > 0,
    ensures
        (img.w() / (cols as nat) == 0 || img.h() / (rows as nat) == 0) ==> outcome(r) == Err::<SheetSlices, _>(
            (2i32, "grid is larger than image"@),
        ),
        (img.w() / (cols as nat) > 0 && img.h() / (rows as nat) > 0) ==> (r matches Ok(s) && {
            let cw = img.w() / (cols as nat);
            let ch = img.h() / (rows as nat);
            &&& s.frames@.len() == cols * rows
            &&& forall|row: int, col: int|
                0 <= row < rows && 0 <= col < cols ==> is_crop(
                    *img,
                    #[trigger] s.frames@[row * cols + col],
                    col * cw,
                    row * ch,
                    cw as int,
                    ch as int,
                )
            &&& (img.w() % (cols as nat) != 0 || img.h() % (rows as nat) != 0) ==> (s.warning matches Some(m)
                && m@ == remainder_warning_spec(img.w() as u32, img.h() as u32, cols, rows))
            &&& (img.w() % (cols as nat) == 0 && img.h() % (rows as nat) == 0) ==> s.warning is None
        }),
{
    let w = img.width();
    let h = img.height();
    let cell_w = w / cols;
    let cell_h = h / rows;
    if cell_w == 0 || cell_h == 0 {
        return Err(CliError::with_text(2, "grid is larger than image"));
    }
    let mut frames: Vec<Rgba8Image> = Vec::new();
    let mut r: u32 = 0;
    while r < rows
        invariant
            img.wf(),
            w == img.w(),
            h == img.h(),
            cols > 0,
            rows > 0,
            cell_w == w / cols,
            cell_h == h / rows,
            r <= rows,
            frames@.len() == r * cols,
            forall|row: int, col: int|
                0 <= row < r && 0 <= col < cols ==> is_crop(
                    *img,
                    #[trigger] frames@[row * cols + col],
                    col * cell_w,
                    row * cell_h,
                    cell_w as int,
                    cell_h as int,
                ),
        decreases rows - r,
    {
        let mut c: u32 = 0;
        proof {
            lemma_cell_fits(r as int, rows as int, h as int);
        }
        while c < cols
            invariant
                img.wf(),
                w == img.w(),
                h == img.h(),
                cols > 0,
                rows > 0,
                cell_w == w / cols,
                cell_h == h / rows,
                r < rows,
                r * cell_h + cell_h <= h,
                r * cell_h >= 0,
                c <= cols,
                frames@.len() == r * cols + c,
                forall|row: int, col: int|
                    0 <= row < r && 0 <= col < cols ==> is_crop(
                        *img,
                        #[trigger] frames@[row * cols + col],
                        col * cell_w,
                        row * cell_h,
                        cell_w as int,
                        cell_h as int,
                    ),
                forall|col: int|
                    0 <= col < c ==> is_crop(
                        *img,
                        #[trigger] frames@[r * cols + col],
                        col * cell_w,
                        r * cell_h,
                        cell_w as int,
                        cell_h as int,
                    ),
            decreases cols - c,
        {
            proof {
                lemma_cell_fits(c as int, cols as int, w as int);
            }
            let x = c * cell_w;
            let y = r * cell_h;
            let frame = crop(img, x, y, cell_w, cell_h);
            let ghost before = frames@;
            frames.push(frame);
            proof {
                assert forall|row: int, col: int| 0 <= row < r && 0 <= col < cols implies is_crop(
                    *img,
                    #[trigger] frames@[row * cols + col],
                    col * cell_w,
                    row * cell_h,
                    cell_w as int,
                    cell_h as int,
                ) by {
                    assert(row * cols + col < r * cols) by (nonlinear_arith)
                        requires
                            row < r,
                            col < cols,
                    ;
                    assert(row * cols + col >= 0) by (nonlinear_arith)
                        requires
                            row >= 0,
                            col >= 0,
                            cols > 0,
                    ;
                    assert(frames@[row * cols + col] == before[row * cols + col]);
                }
            }
            c = c + 1;
        }
        assert((r + 1) * cols == r * cols + cols) by (nonlinear_arith);
        proof {
            assert forall|row: int, col: int| 0 <= row < r + 1 && 0 <= col < cols implies is_crop(
                *img,
                #[trigger] frames@[row * cols + col],
                col * cell_w,
                row * cell_h,
                cell_w as int,
                cell_h as int,
            ) by {
                if row == r {
                    assert(is_crop(*img, frames@[r * cols + col], col * cell_w, r * cell_h, cell_w as int, cell_h as int));
                }
            }
        }
        r = r + 1;
    }
    let warning = if w % cols != 0 || h % rows != 0 {
        let mut m = String::new();
        push_decimal(&mut m, w as u64);
        m.append("x");
        push_decimal(&mut m, h as u64);
        m.append(" image does not divide evenly by a ");
        push_decimal(&mut m, cols as u64);
        m.append("x");
        push_decimal(&mut m, rows as u64);
        m.append(" grid; ");
        push_decimal(&mut m, (w % cols) as u64);
        m.append("px column / ");
        push_decimal(&mut m, (h % rows) as u64);
        m.append("px row remainder is dropped");
        assert(m@ =~= remainder_warning_spec(w, h, cols, rows));
        Some(m)
    } else {
        None
    };
    assert(rows * cols == cols * rows) by (nonlinear_arith);
    Ok(SheetSlices { warning, frames })
}

/// Where frame `i` goes on a packed sheet of `cols` columns of `fw` x `fh`
/// frames: left to right, then top to bottom.
pub open spec fn pack_position(i: int, cols: int, fw: int, fh: int) -> (int, int) {
    ((i % cols) * fw, (i / cols) * fh)
}

/// The sheet that packs `count` frames of `fw` x `fh` pixels in `cols`
/// columns.
#[derive(Debug)]
pub struct PackLayout {
    pub sheet_width: u32,
    pub sheet_height: u32,
    pub positions: Vec<(u32, u32)>,
}

pub open spec fn ceil_div(n: nat, d: nat) -> nat {
    ((n + d - 1) as nat) / d
}

proof fn lemma_pack_position(i: int, cols: int, rows: int, count: int, fw: int, fh: int)
    requires
        0 <= i < count,
        cols > 0,
        rows == (count + cols - 1) / cols,
        fw >= 0,
        fh >= 0,
    ensures
        0 <= (i % cols) * fw,
        (i % cols) * fw + fw <= cols * fw,
        0 <= (i / cols) * fh,
        (i / cols) * fh + fh <= rows * fh,
{
    assert(0 <= i % cols < cols) by (nonlinear_arith)
        requires
            cols > 0,
    ;
    assert(i / cols < rows) by (nonlinear_arith)
        requires
            0 <= i < count,
            cols > 0,
            rows == (count + cols - 1) / cols,
    ;
    assert(i / cols >= 0) by (nonlinear_arith)
        requires
            i >= 0,
            cols > 0,
    ;
    assert((i % cols) * fw + fw <= cols * fw) by (nonlinear_arith)
        requires
            i % cols < cols,
            fw >= 0,
    ;
    assert((i / cols) * fh + fh <= rows * fh) by (nonlinear_arith)
        requires
            i / cols < rows,
            fh >= 0,
    ;
    assert(0 <= (i % cols) * fw) by (nonlinear_arith)
        requires
            i % cols >= 0,
            fw >= 0,
    ;
    assert(0 <= (i / cols) * fh) by (nonlinear_arith)
        requires
            i / cols >= 0,
            fh >= 0,
    ;
}

/// Lays out `count` frames of `fw` x `fh` pixels in `cols` columns and as
/// many rows as needed, refusing sheets larger than `MAX_CANVAS_DIM`.
pub fn pack_layout(count: u32, cols: u32, fw: u32, fh: u32) -> (r: Result<PackLayout, CliError>)
    requires
        cols > 0,
    ensures
        ({
            let rows = ceil_div(count as nat, cols as nat);
            &&& cols * fw > MAX_CANVAS_DIM ==> outcome(r) == Err::<PackLayout, _>(
                (2i32, axis_message("width"@, cols, fw)),
            )
            &&& cols * fw <= MAX_CANVAS_DIM && rows * fh > MAX_CANVAS_DIM ==> outcome(r) == Err::<PackLayout, _>(
                (2i32, axis_message("height"@, rows as u32, fh)),
            )
            &&& cols * fw <= MAX_CANVAS_DIM && rows * fh <= MAX_CANVAS_DIM ==> (r matches Ok(l) && {
                &&& l.sheet_width == cols * fw
                &&& l.sheet_height == rows * fh
                &&& l.positions@.len() == count
                &&& forall|i: int|
                    0 <= i < count ==> #[trigger] l.positions@[i] == (
                    pack_position(i, cols as int, fw as int, fh as int).0 as u32,
                    pack_position(i, cols as int, fw as int, fh as int).1 as u32,
                )
                &&& forall|i: int|
                    #![trigger pack_position(i, cols as int, fw as int, fh as int)]
                    0 <= i < count ==> {
                    let p = pack_position(i, cols as int, fw as int, fh as int);
                    p.0 + fw <= l.sheet_width && p.1 + fh <= l.sheet_height && p.0 >= 0 && p.1 >= 0
                }
            })
        }),
{
    proof {
        if count % cols != 0 {
            assert(count / cols < u32::MAX) by (nonlinear_arith)
                requires
                    count % cols != 0,
                    cols > 0,
                    count <= u32::MAX,
            ;
        }
    }
    let rows = count / cols + if count % cols != 0 {
        1u32
    } else {
        0u32
    };
    assert(rows == ceil_div(count as nat, cols as nat)) by (nonlinear_arith)
        requires
            cols > 0,
            rows == count / cols + if count % cols != 0 {
                1int
            } else {
                0int
            },
    ;
    let (sheet_w, sheet_h) = checked_canvas_dims(cols, rows, fw, fh)?;
    let mut positions: Vec<(u32, u32)> = Vec::new();
    let mut i: u32 = 0;
    while i < count
        invariant
            cols > 0,
            rows == ceil_div(count as nat, cols as nat),
            sheet_w == cols * fw,
            sheet_h == rows * fh,
            sheet_w <= MAX_CANVAS_DIM,
            sheet_h <= MAX_CANVAS_DIM,
            i <= count,
            positions@.len() == i,
            forall|k: int|
                0 <= k < i ==> #[trigger] positions@[k] == (
                pack_position(k, cols as int, fw as int, fh as int).0 as u32,
                pack_position(k, cols as int, fw as int, fh as int).1 as u32,
            ),
        decreases count - i,
    {
        proof {
            lemma_pack_position(i as int, cols as int, rows as int, count as int, fw as int, fh as int);
        }
        let x = (i % cols) * fw;
        let y = (i / cols) * fh;
        positions.push((x, y));
        i = i + 1;
    }
    proof {
        assert forall|k: int|
            #![trigger pack_position(k, cols as int, fw as int, fh as int)]
            0 <= k < count implies {
            let p = pack_position(k, cols as int, fw as int, fh as int);
            p.0 + fw <= sheet_w && p.1 + fh <= sheet_h && p.0 >= 0 && p.1 >= 0
        } by {
            lemma_pack_position(k, cols as int, rows as int, count as int, fw as int, fh as int);
        }
    }
    Ok(PackLayout { sheet_width: sheet_w, sheet_height: sheet_h, positions })
}

/// Packed frames never overlap: two different frames occupy disjoint
/// rectangles.
pub proof fn law_pack_disjoint(i: int, j: int, cols: int, fw: int, fh: int)
    requires
        0 <= i,
        0 <= j,
        i != j,
        cols > 0,
        fw > 0,
        fh > 0,
    ensures
        ({
            let (xi, yi) = pack_position(i, cols, fw, fh);
            let (xj, yj) = pack_position(j, cols, fw, fh);
            xi + fw <= xj || xj + fw <= xi || yi + fh <= yj || yj + fh <= yi
        }),
{
    let ci = i % cols;
    let ri = i / cols;
    let cj = j % cols;
    let rj = j / cols;
    assert(i == ri * cols + ci && j == rj * cols + cj) by (nonlinear_arith)
        requires
            cols > 0,
            ci == i % cols,
            ri == i / cols,
            cj == j % cols,
            rj == j / cols,
    ;
    if ci == cj {
        assert(ri != rj);
        if ri < rj {
            assert(ri * fh + fh <= rj * fh) by (nonlinear_arith)
                requires
                    ri < rj,
                    fh > 0,
            ;
        } else {
            assert(rj * fh + fh <= ri * fh) by (nonlinear_arith)
                requires
                    rj < ri,
                    fh > 0,
            ;
        }
    } else if ci < cj {
        assert(ci * fw + fw <= cj * fw) by (nonlinear_arith)
            requires
                ci < cj,
                fw > 0,
        ;
    } else {
        assert(cj * fw + fw <= ci * fw) by (nonlinear_arith)
            requires
                cj < ci,
                fw > 0,
        ;
    }
}

/// Every frame of a pack must have the size of the first; exit code 3
/// naming the file otherwise.
pub fn check_frame_size(file: &str, w: u32, h: u32, frame_w: u32, frame_h: u32) -> (r: Result<(), CliError>)
    ensures
        (w == frame_w && h == frame_h) ==> r is Ok,
        !(w == frame_w && h == frame_h) ==> outcome(r) == Err::<(), _>((3i32, "frame size mismatch: "@ + file@)),
{
    if w != frame_w || h != frame_h {
        let mut m = String::from_str("frame size mismatch: ");
        m.append(file);
        return Err(CliError::new(3, m));
    }
    Ok(())
}

/// A contact sheet needs a positive column count and cells larger than the
/// 12 pixel margin.
pub fn validate_contact_sheet(cols: u32, cell: u32) -> (r: Result<(), CliError>)
    ensures
        cols == 0 ==> outcome(r) == Err::<(), _>((2i32, "--cols"@ + " must be greater than 0"@)),
        cols > 0 && cell <= 12 ==> outcome(r) == Err::<(), _>((2i32, "--cell must be greater than 12"@)),
        cols > 0 && cell > 12 ==> r is Ok,
{
    crate::parse::validate_positive_u32("--cols", cols)?;
    if cell <= 12 {
        return Err(CliError::with_text(2, "--cell must be greater than 12"));
    }
    Ok(())
}

/// Where the thumbnail of image `i` goes on a contact sheet: centered in
/// its cell, cells left to right then top to bottom.
pub fn contact_cell_origin(i: u32, cols: u32, cell: u32, tw: u32, th: u32) -> (r: (u32, u32))
    requires
        cols > 0,
        tw <= cell,
        th <= cell,
        (i / cols + 1) * cell <= u32::MAX,
        cols * cell <= u32::MAX,
    ensures
        r.0 == (i % cols) * cell + (cell - tw) / 2,
        r.1 == (i / cols) * cell + (cell - th) / 2,
        r.0 + tw <= (i % cols + 1) * cell,
        r.1 + th <= (i / cols + 1) * cell,
{
    let col = i % cols;
    let row = i / cols;
    proof {
        assert(col * cell + cell <= cols * cell) by (nonlinear_arith)
            requires
                col < cols,
        ;
        assert(row * cell + cell == (row + 1) * cell) by (nonlinear_arith);
        assert(col * cell + cell == (col + 1) * cell) by (nonlinear_arith);
    }
    let x = col * cell + (cell - tw) / 2;
    let y = row * cell + (cell - th) / 2;
    (x, y)
}

/// The run of samples that one column of a waveform picture summarises:
/// an equal share of the samples, at least one.
pub fn sample_window(x: u32, len: usize, width: u32) -> (r: (usize, usize))
    requires
        x < width,
        len > 0,
        (x + 1) * len <= usize::MAX,
    ensures
        r.0 == x * len / (width as int),
        r.1 == ({
            let b = (x + 1) * len / (width as int);
            let b = if b > r.0 + 1 { b } else { r.0 + 1 };
            if b < len { b } else { len as int }
        }),
        r.0 < r.1 <= len,
{
    proof {
        assert(x * len <= (x + 1) * len) by (nonlinear_arith)
            requires
                len > 0,
        ;
        assert(x * len / (width as int) < len) by (nonlinear_arith)
            requires
                x < width,
                len > 0,
        ;
    }
    let a = (x as usize * len) / width as usize;
    let mut b = ((x + 1) as usize * len) / width as usize;
    if b < a + 1 {
        b = a + 1;
    }
    if b > len {
        b = len;
    }
    (a, b)
}

/// A crop box must lie inside the image (exit code 2 otherwise).
pub fn check_crop_box(x: u32, y: u32, w: u32, h: u32, width: u32, height: u32) -> (r: Result<(), CliError>)
    ensures
        (x + w <= width && y + h <= height) ==> r is Ok,
        !(x + w <= width && y + h <= height) ==> outcome(r) == Err::<(), _>((2i32, "crop box exceeds image bounds"@)),
{
    let max_x = match x.checked_add(w) {
        Some(v) => v,
        None => return Err(CliError::with_text(2, "crop box exceeds image bounds")),
    };
    let max_y = match y.checked_add(h) {
        Some(v) => v,
        None => return Err(CliError::with_text(2, "crop box exceeds image bounds")),
    };
    if max_x > width || max_y > height {
        return Err(CliError::with_text(2, "crop box exceeds image bounds"));
    }
    Ok(())
}

/// Different frames of a sliced sheet get different file names.
pub proof fn law_frame_names_distinct(i: nat, j: nat)
    requires
        i != j,
    ensures
        frame_name_spec(i) != frame_name_spec(j),
{
    if frame_name_spec(i) == frame_name_spec(j) {
        lemma_middle_eq("frame_"@, zero_padded(decimal(i), 3), zero_padded(decimal(j), 3), ".png"@);
        lemma_padded_decimal_value(i, 3);
        lemma_padded_decimal_value(j, 3);
    }
}

/// Slicing and packing agree: the frame cut from row `row` and column `col`
/// of a sheet is frame number `row * cols + col`, and packing frames of the
/// same size in `cols` columns puts that frame back at the place it was cut
/// from.
pub proof fn law_slice_pack_roundtrip(row: int, col: int, cols: int, fw: int, fh: int)
    requires
        0 <= row,
        0 <= col < cols,
    ensures
        pack_position(row * cols + col, cols, fw, fh) == (col * fw, row * fh),
{
    assert((row * cols + col) % cols == col && (row * cols + col) / cols == row) by (nonlinear_arith)
        requires
            0 <= row,
            0 <= col < cols,
    ;
}

/// A fully transparent pixel.
pub open spec fn transparent() -> [u8; 4] {
    [0u8, 0u8, 0u8, 0u8]
}

/// The number of the frame of a sheet in `cols` columns of `fw` x `fh`
/// cells that pixel `(i, j)` falls in (frames counted row by row).
pub open spec fn cell_index(i: int, j: int, cols: int, fw: int, fh: int) -> int {
    (j / fh) * cols + i / fw
}

/// What a sheet packed from `frames` (each `fw` x `fh`) in `cols` columns
/// on a transparent canvas shows at `(i, j)`: its frame's pixel drawn over
/// transparency, or transparency where no frame lies.
pub open spec fn packed_pixel(frames: Seq<Rgba8Image>, cols: int, fw: int, fh: int, i: int, j: int) -> [u8; 4] {
    let m = cell_index(i, j, cols, fw, fh);
    if 0 <= m < frames.len() {
        composite(transparent(), frames[m].pixel(i % fw, j % fh))
    } else {
        transparent()
    }
}

/// Every pixel of `sheet` is what packing `frames` puts there.
pub open spec fn is_packed_sheet(sheet: Rgba8Image, frames: Seq<Rgba8Image>, cols: int, fw: int, fh: int) -> bool {
    forall|i: int, j: int| sheet.in_bounds(i, j) ==> #[trigger] sheet.pixel(i, j) == packed_pixel(frames, cols, fw, fh, i, j)
}

proof fn lemma_cell(i: int, j: int, m: int, cols: int, fw: int, fh: int)
    requires
        cols > 0,
        fw > 0,
        fh > 0,
        0 <= i < cols * fw,
        0 <= j,
        0 <= m,
    ensures
        ({
            let (px, py) = pack_position(m, cols, fw, fh);
            (px <= i < px + fw && py <= j < py + fh) <==> cell_index(i, j, cols, fw, fh) == m
        }),
        cell_index(i, j, cols, fw, fh) == m ==> i - pack_position(m, cols, fw, fh).0 == i % fw && j
            - pack_position(m, cols, fw, fh).1 == j % fh,
{
    let a = i / fw;
    let b = i % fw;
    let c = j / fh;
    let e = j % fh;
    lemma_fundamental_div_mod(i, fw);
    lemma_fundamental_div_mod(j, fh);
    lemma_fundamental_div_mod(m, cols);
    assert(0 <= b < fw && 0 <= e < fh) by {
        lemma_mod_bound(i, fw);
        lemma_mod_bound(j, fh);
    }
    assert(0 <= a < cols) by (nonlinear_arith)
        requires
            i == fw * a + b,
            0 <= b < fw,
            0 <= i < cols * fw,
            fw > 0,
    ;
    assert(0 <= c) by (nonlinear_arith)
        requires
            j == fh * c + e,
            0 <= e < fh,
            0 <= j,
            fh > 0,
    ;
    let mc = m % cols;
    let mr = m / cols;
    assert(0 <= mc < cols) by {
        lemma_mod_bound(m, cols);
    }
    if cell_index(i, j, cols, fw, fh) == m {
        assert(m == c * cols + a);
        lemma_fundamental_div_mod_converse(m, cols, c, a);
        assert(mc == a && mr == c);
        assert(mc * fw + b == i) by (nonlinear_arith)
            requires
                i == fw * a + b,
                mc == a,
        ;
        assert(mr * fh + e == j) by (nonlinear_arith)
            requires
                j == fh * c + e,
                mr == c,
        ;
    }
    let (px, py) = pack_position(m, cols, fw, fh);
    if px <= i < px + fw && py <= j < py + fh {
        assert(px == mc * fw && py == mr * fh);
        lemma_fundamental_div_mod_converse(i, fw, mc, i - mc * fw);
        lemma_fundamental_div_mod_converse(j, fh, mr, j - mr * fh);
        assert(m == mr * cols + mc) by (nonlinear_arith)
            requires
                m == cols * (m / cols) + m % cols,
                mr == m / cols,
                mc == m % cols,
        ;
    }
}

/// Packs `frames`, all of the first one's size, into a sheet of `cols`
/// columns: each frame is drawn (as `overlay` draws it) onto a transparent
/// canvas at its place in the layout of `pack_layout`, which also decides
/// the errors.
pub fn pack_sheet(frames: &Vec<Rgba8Image>, cols: u32) -> (r: Result<Rgba8Image, CliError>)
    requires
        cols > 0,
        0 < frames@.len() <= u32::MAX,
        forall|m: int|
            0 <= m < frames@.len() ==> (#[trigger] frames@[m]).wf() && frames@[m].w() == frames@[0].w()
                && frames@[m].h() == frames@[0].h(),
    ensures
        ({
            let fw = frames@[0].w();
            let fh = frames@[0].h();
            let rows = ceil_div(frames@.len(), cols as nat);
            &&& cols * fw > MAX_CANVAS_DIM ==> outcome(r) == Err::<Rgba8Image, _>(
                (2i32, axis_message("width"@, cols, fw as u32)),
            )
            &&& cols * fw <= MAX_CANVAS_DIM && rows * fh > MAX_CANVAS_DIM ==> outcome(r) == Err::<Rgba8Image, _>(
                (2i32, axis_message("height"@, rows as u32, fh as u32)),
            )
            &&& cols * fw <= MAX_CANVAS_DIM && rows * fh <= MAX_CANVAS_DIM ==> (r matches Ok(sheet) && {
                &&& sheet.wf()
                &&& sheet.w() == cols * fw
                &&& sheet.h() == rows * fh
                &&& is_packed_sheet(sheet, frames@, cols as int, fw as int, fh as int)
            })
        }),
{
    let (fw, fh) = frames[0].dimensions();
    let count = frames.len() as u32;
    let layout = pack_layout(count, cols, fw, fh)?;
    let ghost rows = ceil_div(count as nat, cols as nat);
    let mut sheet = Rgba8Image::from_pixel(layout.sheet_width, layout.sheet_height, [0u8, 0u8, 0u8, 0u8]);
    let mut m: usize = 0;
    while m < frames.len()
        invariant
            cols > 0,
            count == frames@.len(),
            fw == frames@[0].w(),
            fh == frames@[0].h(),
            forall|k: int|
                0 <= k < frames@.len() ==> (#[trigger] frames@[k]).wf() && frames@[k].w() == fw && frames@[k].h() == fh,
            layout.positions@.len() == count,
            forall|k: int|
                0 <= k < count ==> #[trigger] layout.positions@[k] == (
                    pack_position(k, cols as int, fw as int, fh as int).0 as u32,
                    pack_position(k, cols as int, fw as int, fh as int).1 as u32,
                ),
            forall|k: int|
                #![trigger pack_position(k, cols as int, fw as int, fh as int)]
                0 <= k < count ==> {
                    let p = pack_position(k, cols as int, fw as int, fh as int);
                    p.0 + fw <= layout.sheet_width && p.1 + fh <= layout.sheet_height && p.0 >= 0 && p.1 >= 0
                },
            layout.sheet_height == rows * fh,
            sheet.wf(),
            sheet.w() == layout.sheet_width,
            sheet.h() == layout.sheet_height,
            layout.sheet_width == cols * fw,
            m <= frames@.len(),
            forall|i: int, j: int|
                sheet.in_bounds(i, j) ==> #[trigger] sheet.pixel(i, j) == ({
                    let c = cell_index(i, j, cols as int, fw as int, fh as int);
                    if 0 <= c < m {
                        composite(transparent(), frames@[c].pixel(i % (fw as int), j % (fh as int)))
                    } else {
                        transparent()
                    }
                }),
        decreases frames@.len() - m,
    {
        let (px, py) = layout.positions[m];
        let ghost before = sheet;
        overlay(&mut sheet, &frames[m], px, py);
        proof {
            let pp = pack_position(m as int, cols as int, fw as int, fh as int);
            assert(layout.positions@[m as int] == (pp.0 as u32, pp.1 as u32));
            assert(pp.0 >= 0 && pp.1 >= 0);
            assert forall|i: int, j: int| sheet.in_bounds(i, j) implies #[trigger] sheet.pixel(i, j) == ({
                let c = cell_index(i, j, cols as int, fw as int, fh as int);
                if 0 <= c < m + 1 {
                    composite(transparent(), frames@[c].pixel(i % (fw as int), j % (fh as int)))
                } else {
                    transparent()
                }
            }) by {
                assert(before.in_bounds(i, j));
                assert(fw > 0) by (nonlinear_arith)
                    requires
                        0 <= i < cols * fw,
                ;
                assert(fh > 0) by {
                    if fh == 0 {
                        assert(before.h() == 0) by (nonlinear_arith)
                            requires
                                before.h() == layout.sheet_height,
                                layout.sheet_height == rows * fh,
                                fh == 0,
                        ;
                    }
                }
                lemma_cell(i, j, m as int, cols as int, fw as int, fh as int);
                assert(px as int == pp.0 && py as int == pp.1);
                let c = cell_index(i, j, cols as int, fw as int, fh as int);
                let prev = before.pixel(i, j);
                assert(prev == if 0 <= c < m {
                    composite(transparent(), frames@[c].pixel(i % (fw as int), j % (fh as int)))
                } else {
                    transparent()
                });
                if c == m {
                    assert(covers(frames@[m as int], px, py, i, j));
                    assert(sheet.pixel(i, j) == composite(prev, frames@[m as int].pixel(i - px, j - py)));
                } else {
                    assert(!covers(frames@[m as int], px, py, i, j));
                }
            }
        }
        m = m + 1;
    }
    Ok(sheet)
}

/// Packing and slicing undo each other: when `cols * rows` frames of one
/// size are packed into a sheet and that sheet is sliced along the same
/// grid, slice `m` is frame `m` drawn over transparency; a fully opaque
/// pixel comes back unchanged and a fully transparent one as transparent
/// black.
pub proof fn law_pack_then_slice(frames: Seq<Rgba8Image>, sheet: Rgba8Image, sliced: Seq<Rgba8Image>, cols: int, rows: int)
    requires
        cols > 0,
        rows > 0,
        frames.len() == cols * rows,
        forall|m: int|
            0 <= m < frames.len() ==> (#[trigger] frames[m]).wf() && frames[m].w() == frames[0].w() && frames[m].h()
                == frames[0].h(),
        sheet.wf(),
        sheet.w() == cols * frames[0].w(),
        sheet.h() == rows * frames[0].h(),
        is_packed_sheet(sheet, frames, cols, frames[0].w() as int, frames[0].h() as int),
        sliced.len() == cols * rows,
        forall|row: int, col: int|
            0 <= row < rows && 0 <= col < cols ==> is_crop(
                sheet,
                #[trigger] sliced[row * cols + col],
                col * (sheet.w() / (cols as nat)),
                row * (sheet.h() / (rows as nat)),
                (sheet.w() / (cols as nat)) as int,
                (sheet.h() / (rows as nat)) as int,
            ),
    ensures
        forall|m: int| 0 <= m < frames.len() ==> (#[trigger] sliced[m]).w() == frames[m].w() && sliced[m].h() == frames[m].h(),
        forall|m: int, x: int, y: int|
            0 <= m < frames.len() && frames[m].in_bounds(x, y) ==> #[trigger] sliced[m].pixel(x, y) == composite(
                transparent(),
                frames[m].pixel(x, y),
            ),
{
    let fw = frames[0].w() as int;
    let fh = frames[0].h() as int;
    assert(sheet.w() / (cols as nat) == fw) by {
        assert(sheet.w() == fw * cols + 0) by (nonlinear_arith)
            requires
                sheet.w() == cols * fw,
        ;
        lemma_fundamental_div_mod_converse(sheet.w() as int, cols, fw, 0);
    }
    assert(sheet.h() / (rows as nat) == fh) by {
        assert(sheet.h() == fh * rows + 0) by (nonlinear_arith)
            requires
                sheet.h() == rows * fh,
        ;
        lemma_fundamental_div_mod_converse(sheet.h() as int, rows, fh, 0);
    }
    assert forall|m: int| 0 <= m < frames.len() implies (#[trigger] sliced[m]).w() == frames[m].w() && sliced[m].h() == frames[m].h() by {
        let row = m / cols;
        let col = m % cols;
        lemma_fundamental_div_mod(m, cols);
        lemma_mod_bound(m, cols);
        assert(m == row * cols + col) by (nonlinear_arith)
            requires
                m == cols * (m / cols) + m % cols,
                row == m / cols,
                col == m % cols,
        ;
        assert(0 <= row < rows) by (nonlinear_arith)
            requires
                m == row * cols + col,
                0 <= col < cols,
                0 <= m < cols * rows,
        ;
        assert(is_crop(sheet, sliced[row * cols + col], col * fw, row * fh, fw, fh));
    }
    assert forall|m: int, x: int, y: int| 0 <= m < frames.len() && frames[m].in_bounds(x, y) implies #[trigger] sliced[m].pixel(x, y)
        == composite(transparent(), frames[m].pixel(x, y)) by {
        let row = m / cols;
        let col = m % cols;
        lemma_fundamental_div_mod(m, cols);
        lemma_mod_bound(m, cols);
        assert(m == row * cols + col) by (nonlinear_arith)
            requires
                m == cols * (m / cols) + m % cols,
                row == m / cols,
                col == m % cols,
        ;
        assert(0 <= row < rows) by (nonlinear_arith)
            requires
                m == row * cols + col,
                0 <= col < cols,
                0 <= m < cols * rows,
        ;
        assert(is_crop(sheet, sliced[row * cols + col], col * fw, row * fh, fw, fh));
        assert(sliced[m].in_bounds(x, y));
        let i = col * fw + x;
        let j = row * fh + y;
        assert(sliced[m].pixel(x, y) == sheet.pixel(i, j));
        assert(0 <= i < cols * fw && 0 <= j < rows * fh) by (nonlinear_arith)
            requires
                0 <= col < cols,
                0 <= row < rows,
                0 <= x < fw,
                0 <= y < fh,
                i == col * fw + x,
                j == row * fh + y,
        ;
        assert(sheet.in_bounds(i, j));
        lemma_cell(i, j, m, cols, fw, fh);
        assert(pack_position(m, cols, fw, fh) == (col * fw, row * fh));
        assert(cell_index(i, j, cols, fw, fh) == m);
        assert(i % fw == x && j % fh == y);
    }
}

} // verus!
