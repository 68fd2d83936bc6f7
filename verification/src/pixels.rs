//! Analyses of RGBA8 pixel buffers: the alpha bounding box, flat images,
//! key-color backgrounds and corner key detection.
use vstd::prelude::*;
use crate::error::{CliError, outcome};

verus! {

/// An RGBA image with 8 bits per channel, stored row by row.
#[derive(Debug)]
pub struct Rgba8Image {
    width: u32,
    height: u32,
    rows: Vec<Vec<[u8; 4]>>,
}

/// Squared Euclidean distance between the color of a pixel and a key color,
/// over the red, green and blue channels.
pub open spec fn distance_sq(p: [u8; 4], key: [u8; 3]) -> int {
    let dr = p[0] - key[0];
    let dg = p[1] - key[1];
    let db = p[2] - key[2];
    dr * dr + dg * dg + db * db
}

/// The pixel is within `tolerance` of the key color. Comparing squared
/// distances is exact: for integer channels, `sqrt(d) <= t` exactly when
/// `d <= t * t`.
pub open spec fn near_key(p: [u8; 4], key: [u8; 3], tolerance: int) -> bool {
    distance_sq(p, key) <= tolerance * tolerance
}

pub fn color_distance_sq(p: [u8; 4], key: [u8; 3]) -> (r: u32)
    ensures
        r == distance_sq(p, key),
{
    let dr = p[0] as i32 - key[0] as i32;
    let dg = p[1] as i32 - key[1] as i32;
    let db = p[2] as i32 - key[2] as i32;
    assert(0 <= dr * dr <= 65025) by (nonlinear_arith)
        requires
            -255 <= dr <= 255,
    ;
    assert(0 <= dg * dg <= 65025) by (nonlinear_arith)
        requires
            -255 <= dg <= 255,
    ;
    assert(0 <= db * db <= 65025) by (nonlinear_arith)
        requires
            -255 <= db <= 255,
    ;
    (dr * dr + dg * dg + db * db) as u32
}

/// Equality of two pixels, channel by channel.
pub fn same_pixel(a: [u8; 4], b: [u8; 4]) -> (r: bool)
    ensures
        r == (a == b),
{
    let r = a[0] == b[0] && a[1] == b[1] && a[2] == b[2] && a[3] == b[3];
    proof {
        broadcast use vstd::array::axiom_array_ext_equal;

        if r {
            assert(a =~= b);
        }
    }
    r
}

impl Rgba8Image {
    /// The rows have `height` entries of `width` pixels each.
    pub closed spec fn wf(&self) -> bool {
        &&& self.rows@.len() == self.height
        &&& forall|y: int| 0 <= y < self.rows@.len() ==> (#[trigger] self.rows@[y])@.len() == self.width
    }

    pub closed spec fn w(&self) -> nat {
        self.width as nat
    }

    pub closed spec fn h(&self) -> nat {
        self.height as nat
    }

    /// The pixel in column `x` of row `y`.
    pub closed spec fn pixel(&self, x: int, y: int) -> [u8; 4] {
        self.rows@[y]@[x]
    }

    pub open spec fn in_bounds(&self, x: int, y: int) -> bool {
        0 <= x < self.w() && 0 <= y < self.h()
    }

    /// An image of `width` x `height` pixels that all have the value `p`.
    pub fn from_pixel(width: u32, height: u32, p: [u8; 4]) -> (r: Self)
        ensures
            r.wf(),
            r.w() == width,
            r.h() == height,
            forall|x: int, y: int| r.in_bounds(x, y) ==> r.pixel(x, y) == p,
    {
        let mut rows: Vec<Vec<[u8; 4]>> = Vec::new();
        let mut y: u32 = 0;
        while y < height
            invariant
                y <= height,
                rows@.len() == y,
                forall|j: int| 0 <= j < y ==> (#[trigger] rows@[j])@.len() == width,
                forall|i: int, j: int| 0 <= i < width && 0 <= j < y ==> #[trigger] rows@[j]@[i] == p,
            decreases height - y,
        {
            let mut row: Vec<[u8; 4]> = Vec::new();
            let mut x: u32 = 0;
            while x < width
                invariant
                    x <= width,
                    row@.len() == x,
                    forall|i: int| 0 <= i < x ==> row@[i] == p,
                decreases width - x,
            {
                row.push(p);
                x = x + 1;
            }
            rows.push(row);
            y = y + 1;
        }
        Rgba8Image { width, height, rows }
    }

    /// The image with the given rows, when they all have `width` pixels and
    /// there are `height` of them.
    pub fn from_rows(width: u32, height: u32, rows: Vec<Vec<[u8; 4]>>) -> (r: Option<Self>)
        ensures
            r is Some <==> (rows@.len() == height && forall|y: int| 0 <= y < rows@.len() ==> (
            #[trigger] rows@[y])@.len() == width),
            r matches Some(img) ==> img.wf() && img.w() == width && img.h() == height && forall|x: int, y: int|
                img.in_bounds(x, y) ==> img.pixel(x, y) == rows@[y]@[x],
    {
        if rows.len() != height as usize {
            return None;
        }
        let mut y: usize = 0;
        while y < rows.len()
            invariant
                y <= rows@.len(),
                forall|j: int| 0 <= j < y ==> (#[trigger] rows@[j])@.len() == width,
            decreases rows@.len() - y,
        {
            if rows[y].len() != width as usize {
                return None;
            }
            y = y + 1;
        }
        Some(Rgba8Image { width, height, rows })
    }

    /// The rows of pixels, top to bottom.
    pub fn into_rows(self) -> (r: Vec<Vec<[u8; 4]>>)
        requires
            self.wf(),
        ensures
            r@.len() == self.h(),
            forall|y: int| 0 <= y < self.h() ==> (#[trigger] r@[y])@.len() == self.w(),
            forall|x: int, y: int| self.in_bounds(x, y) ==> r@[y]@[x] == self.pixel(x, y),
    {
        self.rows
    }

    pub fn width(&self) -> (r: u32)
        ensures
            r == self.w(),
    {
        self.width
    }

    pub fn height(&self) -> (r: u32)
        ensures
            r == self.h(),
    {
        self.height
    }

    pub fn dimensions(&self) -> (r: (u32, u32))
        ensures
            r == (self.w() as u32, self.h() as u32),
            r.0 == self.w(),
            r.1 == self.h(),
    {
        (self.width, self.height)
    }

    pub fn get_pixel(&self, x: u32, y: u32) -> (r: [u8; 4])
        requires
            self.wf(),
            self.in_bounds(x as int, y as int),
        ensures
            r == self.pixel(x as int, y as int),
    {
        self.rows[y as usize][x as usize]
    }

    /// Sets the pixel in column `x` of row `y`; all others keep their value.
    pub fn put_pixel(&mut self, x: u32, y: u32, p: [u8; 4])
        requires
            old(self).wf(),
            old(self).in_bounds(x as int, y as int),
        ensures
            final(self).wf(),
            final(self).w() == old(self).w(),
            final(self).h() == old(self).h(),
            final(self).pixel(x as int, y as int) == p,
            forall|i: int, j: int|
                #![trigger final(self).pixel(i, j)]
                final(self).in_bounds(i, j) && (i, j) != (x as int, y as int) ==> final(self).pixel(i, j)
                    == old(self).pixel(i, j),
    {
        let mut row = self.rows[y as usize].clone();
        row.set(x as usize, p);
        self.rows.set(y as usize, row);
    }
}

/// The image has at least one pixel whose alpha is not zero.
pub open spec fn has_opaque(img: Rgba8Image) -> bool {
    exists|x: int, y: int| img.in_bounds(x, y) && (#[trigger] img.pixel(x, y))[3] > 0
}

/// `(x0, y0, x1, y1)` is the smallest rectangle, corners included, that
/// holds every pixel with non-zero alpha.
pub open spec fn is_alpha_bounds(img: Rgba8Image, b: (u32, u32, u32, u32)) -> bool {
    let (x0, y0, x1, y1) = b;
    &&& x0 <= x1 < img.w()
    &&& y0 <= y1 < img.h()
    &&& forall|x: int, y: int|
        img.in_bounds(x, y) && (#[trigger] img.pixel(x, y))[3] > 0 ==> x0 <= x <= x1 && y0 <= y <= y1
    &&& exists|y: int| 0 <= y < img.h() && (#[trigger] img.pixel(x0 as int, y))[3] > 0
    &&& exists|y: int| 0 <= y < img.h() && (#[trigger] img.pixel(x1 as int, y))[3] > 0
    &&& exists|x: int| 0 <= x < img.w() && (#[trigger] img.pixel(x, y0 as int))[3] > 0
    &&& exists|x: int| 0 <= x < img.w() && (#[trigger] img.pixel(x, y1 as int))[3] > 0
}

/// `c` is the `w` x `h` region of `img` whose top left corner is `(x, y)`.
pub open spec fn is_crop(img: Rgba8Image, c: Rgba8Image, x: int, y: int, w: int, h: int) -> bool {
    &&& c.wf()
    &&& c.w() == w
    &&& c.h() == h
    &&& forall|i: int, j: int| c.in_bounds(i, j) ==> #[trigger] c.pixel(i, j) == img.pixel(x + i, y + j)
}

/// The alpha bounding box of an image is unique.
pub proof fn law_alpha_bounds_unique(img: Rgba8Image, a: (u32, u32, u32, u32), b: (u32, u32, u32, u32))
    requires
        is_alpha_bounds(img, a),
        is_alpha_bounds(img, b),
    ensures
        a == b,
{
    let (ax0, ay0, ax1, ay1) = a;
    let (bx0, by0, bx1, by1) = b;
    let y = choose|y: int| 0 <= y < img.h() && (#[trigger] img.pixel(ax0 as int, y))[3] > 0;
    let y2 = choose|y: int| 0 <= y < img.h() && (#[trigger] img.pixel(bx0 as int, y))[3] > 0;
    assert(img.in_bounds(ax0 as int, y));
    assert(img.in_bounds(bx0 as int, y2));
    let y3 = choose|y: int| 0 <= y < img.h() && (#[trigger] img.pixel(ax1 as int, y))[3] > 0;
    let y4 = choose|y: int| 0 <= y < img.h() && (#[trigger] img.pixel(bx1 as int, y))[3] > 0;
    assert(img.in_bounds(ax1 as int, y3));
    assert(img.in_bounds(bx1 as int, y4));
    let x = choose|x: int| 0 <= x < img.w() && (#[trigger] img.pixel(x, ay0 as int))[3] > 0;
    let x2 = choose|x: int| 0 <= x < img.w() && (#[trigger] img.pixel(x, by0 as int))[3] > 0;
    assert(img.in_bounds(x, ay0 as int));
    assert(img.in_bounds(x2, by0 as int));
    let x3 = choose|x: int| 0 <= x < img.w() && (#[trigger] img.pixel(x, ay1 as int))[3] > 0;
    let x4 = choose|x: int| 0 <= x < img.w() && (#[trigger] img.pixel(x, by1 as int))[3] > 0;
    assert(img.in_bounds(x3, ay1 as int));
    assert(img.in_bounds(x4, by1 as int));
}

/// The `w` x `h` region of `img` at `(x, y)`, which must lie inside it.
pub fn crop(img: &Rgba8Image, x: u32, y: u32, w: u32, h: u32) -> (r: Rgba8Image)
    requires
        img.wf(),
        x + w <= img.w(),
        y + h <= img.h(),
    ensures
        is_crop(*img, r, x as int, y as int, w as int, h as int),
{
    let mut rows: Vec<Vec<[u8; 4]>> = Vec::new();
    let mut j: u32 = 0;
    while j < h
        invariant
            img.wf(),
            x + w <= img.w(),
            y + h <= img.h(),
            j <= h,
            rows@.len() == j,
            forall|jj: int| 0 <= jj < j ==> (#[trigger] rows@[jj])@.len() == w,
            forall|ii: int, jj: int|
                0 <= ii < w && 0 <= jj < j ==> #[trigger] rows@[jj]@[ii] == img.pixel(x + ii, y + jj),
        decreases h - j,
    {
        let mut row: Vec<[u8; 4]> = Vec::new();
        let mut i: u32 = 0;
        while i < w
            invariant
                img.wf(),
                x + w <= img.w(),
                y + h <= img.h(),
                j < h,
                i <= w,
                row@.len() == i,
                forall|ii: int| 0 <= ii < i ==> (#[trigger] row@[ii]) == img.pixel(x + ii, y + j),
            decreases w - i,
        {
            row.push(img.get_pixel(x + i, y + j));
            i = i + 1;
        }
        rows.push(row);
        j = j + 1;
    }
    Rgba8Image { width: w, height: h, rows }
}

/// The bounding box of the pixels with non-zero alpha, if there are any.
pub fn alpha_bounds(img: &Rgba8Image) -> (r: Option<(u32, u32, u32, u32)>)
    requires
        img.wf(),
    ensures
        r is None <==> !has_opaque(*img),
        r matches Some(b) ==> is_alpha_bounds(*img, b),
{
    let w = img.width();
    let h = img.height();
    let mut min_x = w;
    let mut min_y = h;
    let mut max_x: u32 = 0;
    let mut max_y: u32 = 0;
    let mut found = false;
    let ghost mut wx0: int = 0;
    let ghost mut wy0: int = 0;
    let ghost mut wx1: int = 0;
    let ghost mut wy1: int = 0;
    let mut y: u32 = 0;
    while y < h
        invariant
            img.wf(),
            w == img.w(),
            h == img.h(),
            y <= h,
            !found ==> forall|xx: int, yy: int|
                0 <= xx < w && 0 <= yy < y ==> (#[trigger] img.pixel(xx, yy))[3] == 0,
            !found ==> min_x == w && min_y == h && max_x == 0 && max_y == 0,
            found ==> min_x <= max_x < w && min_y <= max_y < y,
            found ==> forall|xx: int, yy: int|
                0 <= xx < w && 0 <= yy < y && (#[trigger] img.pixel(xx, yy))[3] > 0 ==> min_x <= xx <= max_x
                    && min_y <= yy <= max_y,
            found ==> 0 <= wy0 < h && img.pixel(min_x as int, wy0)[3] > 0,
            found ==> 0 <= wy1 < h && img.pixel(max_x as int, wy1)[3] > 0,
            found ==> 0 <= wx0 < w && img.pixel(wx0, min_y as int)[3] > 0,
            found ==> 0 <= wx1 < w && img.pixel(wx1, max_y as int)[3] > 0,
        decreases h - y,
    {
        let mut x: u32 = 0;
        while x < w
            invariant
                img.wf(),
                w == img.w(),
                h == img.h(),
                y < h,
                x <= w,
                !found ==> forall|xx: int, yy: int|
                    0 <= xx < w && 0 <= yy < y ==> (#[trigger] img.pixel(xx, yy))[3] == 0,
                !found ==> forall|xx: int| 0 <= xx < x ==> (#[trigger] img.pixel(xx, y as int))[3] == 0,
                !found ==> min_x == w && min_y == h && max_x == 0 && max_y == 0,
                found ==> min_x <= max_x < w && min_y <= max_y <= y,
                found ==> forall|xx: int, yy: int|
                    0 <= xx < w && 0 <= yy < y && (#[trigger] img.pixel(xx, yy))[3] > 0 ==> min_x <= xx
                        <= max_x && min_y <= yy <= max_y,
                found ==> forall|xx: int|
                    0 <= xx < x && (#[trigger] img.pixel(xx, y as int))[3] > 0 ==> min_x <= xx <= max_x
                        && min_y <= y <= max_y,
                found ==> 0 <= wy0 < h && img.pixel(min_x as int, wy0)[3] > 0,
                found ==> 0 <= wy1 < h && img.pixel(max_x as int, wy1)[3] > 0,
                found ==> 0 <= wx0 < w && img.pixel(wx0, min_y as int)[3] > 0,
                found ==> 0 <= wx1 < w && img.pixel(wx1, max_y as int)[3] > 0,
            decreases w - x,
        {
            let p = img.get_pixel(x, y);
            if p[3] > 0 {
                if !found || x < min_x {
                    min_x = x;
                    proof {
                        wy0 = y as int;
                    }
                }
                if !found || y < min_y {
                    min_y = y;
                    proof {
                        wx0 = x as int;
                    }
                }
                if !found || x > max_x {
                    max_x = x;
                    proof {
                        wy1 = y as int;
                    }
                }
                if !found || y > max_y {
                    max_y = y;
                    proof {
                        wx1 = x as int;
                    }
                }
                found = true;
            }
            x = x + 1;
        }
        y = y + 1;
    }
    if !found {
        assert(!has_opaque(*img));
        return None;
    }
    let b = (min_x, min_y, max_x, max_y);
    assert(img.pixel(min_x as int, wy0)[3] > 0);
    assert(img.pixel(max_x as int, wy1)[3] > 0);
    assert(img.pixel(wx0, min_y as int)[3] > 0);
    assert(img.pixel(wx1, max_y as int)[3] > 0);
    Some(b)
}

/// The image cropped to the bounding box of its pixels with non-zero alpha;
/// `None` when every pixel is fully transparent.
pub fn trim_alpha(img: &Rgba8Image) -> (r: Option<Rgba8Image>)
    requires
        img.wf(),
    ensures
        r is None <==> !has_opaque(*img),
        r matches Some(c) ==> exists|b: (u32, u32, u32, u32)|
            is_alpha_bounds(*img, b) && is_crop(*img, c, b.0 as int, b.1 as int, b.2 - b.0 + 1, b.3 - b.1 + 1),
{
    match alpha_bounds(img) {
        None => None,
        Some(b) => {
            let (x0, y0, x1, y1) = b;
            let c = crop(img, x0, y0, x1 - x0 + 1, y1 - y0 + 1);
            assert(is_alpha_bounds(*img, b) && is_crop(*img, c, b.0 as int, b.1 as int, b.2 - b.0 + 1, b.3 - b.1 + 1));
            Some(c)
        },
    }
}

/// Every pixel has the same RGBA value; true for an image without pixels.
pub open spec fn uniform(img: Rgba8Image) -> bool {
    forall|x: int, y: int| img.in_bounds(x, y) ==> #[trigger] img.pixel(x, y) == img.pixel(0, 0)
}

/// True when every pixel is identical (one flat color), which flags a
/// blank or failed render.
pub fn image_is_uniform(img: &Rgba8Image) -> (r: bool)
    requires
        img.wf(),
    ensures
        r == uniform(*img),
{
    let w = img.width();
    let h = img.height();
    if w == 0 || h == 0 {
        return true;
    }
    let first = img.get_pixel(0, 0);
    let mut y: u32 = 0;
    while y < h
        invariant
            img.wf(),
            w == img.w(),
            h == img.h(),
            w > 0,
            y <= h,
            first == img.pixel(0, 0),
            forall|xx: int, yy: int| 0 <= xx < w && 0 <= yy < y ==> #[trigger] img.pixel(xx, yy) == first,
        decreases h - y,
    {
        let mut x: u32 = 0;
        while x < w
            invariant
                img.wf(),
                w == img.w(),
                h == img.h(),
                y < h,
                x <= w,
                first == img.pixel(0, 0),
                forall|xx: int, yy: int| 0 <= xx < w && 0 <= yy < y ==> #[trigger] img.pixel(xx, yy) == first,
                forall|xx: int| 0 <= xx < x ==> #[trigger] img.pixel(xx, y as int) == first,
            decreases w - x,
        {
            let p = img.get_pixel(x, y);
            if !same_pixel(p, first) {
                assert(!uniform(*img)) by {
                    assert(img.in_bounds(x as int, y as int));
                }
                return false;
            }
            x = x + 1;
        }
        y = y + 1;
    }
    true
}


/// The number of pixels of `s` within `tolerance` of the key color.
pub open spec fn count_near(s: Seq<[u8; 4]>, key: [u8; 3], tolerance: int) -> nat
    decreases s.len(),
{
    if s.len() == 0 {
        0
    } else {
        count_near(s.drop_last(), key, tolerance) + if near_key(s.last(), key, tolerance) {
            1nat
        } else {
            0nat
        }
    }
}

pub open spec fn count_near_rows(rows: Seq<Seq<[u8; 4]>>, key: [u8; 3], tolerance: int) -> nat
    decreases rows.len(),
{
    if rows.len() == 0 {
        0
    } else {
        count_near_rows(rows.drop_last(), key, tolerance) + count_near(rows.last(), key, tolerance)
    }
}

proof fn lemma_count_near_bound(s: Seq<[u8; 4]>, key: [u8; 3], tolerance: int)
    ensures
        count_near(s, key, tolerance) <= s.len(),
    decreases s.len(),
{
    if s.len() > 0 {
        lemma_count_near_bound(s.drop_last(), key, tolerance);
    }
}

impl Rgba8Image {
    pub closed spec fn row_views(&self) -> Seq<Seq<[u8; 4]>> {
        self.rows@.map_values(|r: Vec<[u8; 4]>| r@)
    }

    /// The number of pixels within `tolerance` of the key color.
    pub closed spec fn near_count(&self, key: [u8; 3], tolerance: int) -> nat {
        count_near_rows(self.row_views(), key, tolerance)
    }
}

proof fn lemma_count_near_uniform(s: Seq<[u8; 4]>, key: [u8; 3], tolerance: int, near: bool)
    requires
        forall|i: int| 0 <= i < s.len() ==> near_key(#[trigger] s[i], key, tolerance) == near,
    ensures
        count_near(s, key, tolerance) == if near { s.len() } else { 0 },
    decreases s.len(),
{
    if s.len() > 0 {
        let p = s.drop_last();
        assert forall|i: int| 0 <= i < p.len() implies near_key(#[trigger] p[i], key, tolerance) == near by {
            assert(p[i] == s[i]);
        }
        lemma_count_near_uniform(p, key, tolerance, near);
        assert(near_key(s[s.len() - 1], key, tolerance) == near);
    }
}

proof fn lemma_count_near_rows_uniform(rows: Seq<Seq<[u8; 4]>>, w: nat, key: [u8; 3], tolerance: int, near: bool)
    requires
        forall|y: int| 0 <= y < rows.len() ==> (#[trigger] rows[y]).len() == w,
        forall|y: int, x: int| 0 <= y < rows.len() && 0 <= x < w ==> near_key(#[trigger] rows[y][x], key, tolerance) == near,
    ensures
        count_near_rows(rows, key, tolerance) == if near { rows.len() * w } else { 0 },
    decreases rows.len(),
{
    if rows.len() > 0 {
        let p = rows.drop_last();
        assert forall|y: int, x: int| 0 <= y < p.len() && 0 <= x < w implies near_key(#[trigger] p[y][x], key, tolerance) == near by {
            assert(p[y] == rows[y]);
            assert(rows[y][x] == p[y][x]);
        }
        assert forall|y: int| 0 <= y < p.len() implies (#[trigger] p[y]).len() == w by {
            assert(p[y] == rows[y]);
        }
        lemma_count_near_rows_uniform(p, w, key, tolerance, near);
        let last = rows[rows.len() - 1];
        assert forall|i: int| 0 <= i < last.len() implies near_key(#[trigger] last[i], key, tolerance) == near by {
            assert(rows[rows.len() - 1][i] == last[i]);
        }
        lemma_count_near_uniform(last, key, tolerance, near);
        assert((rows.len() - 1) * w + w == rows.len() * w) by (nonlinear_arith);
    }
}

/// When no pixel is within `tolerance` of the key, none is counted.
pub proof fn lemma_near_count_none(img: Rgba8Image, key: [u8; 3], tolerance: int)
    requires
        img.wf(),
        forall|x: int, y: int| img.in_bounds(x, y) ==> !near_key(#[trigger] img.pixel(x, y), key, tolerance),
    ensures
        img.near_count(key, tolerance) == 0,
{
    let rows = img.row_views();
    assert forall|y: int, x: int| 0 <= y < rows.len() && 0 <= x < img.w() implies near_key(#[trigger] rows[y][x], key, tolerance) == false by {
        assert(rows[y] == img.rows@[y]@);
        assert(img.pixel(x, y) == rows[y][x]);
    }
    assert forall|y: int| 0 <= y < rows.len() implies (#[trigger] rows[y]).len() == img.w() by {
        assert(rows[y] == img.rows@[y]@);
    }
    lemma_count_near_rows_uniform(rows, img.w(), key, tolerance, false);
}

/// When every pixel is within `tolerance` of the key, all are counted.
pub proof fn lemma_near_count_all(img: Rgba8Image, key: [u8; 3], tolerance: int)
    requires
        img.wf(),
        forall|x: int, y: int| img.in_bounds(x, y) ==> near_key(#[trigger] img.pixel(x, y), key, tolerance),
    ensures
        img.near_count(key, tolerance) == img.w() * img.h(),
{
    let rows = img.row_views();
    assert forall|y: int, x: int| 0 <= y < rows.len() && 0 <= x < img.w() implies near_key(#[trigger] rows[y][x], key, tolerance) == true by {
        assert(rows[y] == img.rows@[y]@);
        assert(img.pixel(x, y) == rows[y][x]);
    }
    assert forall|y: int| 0 <= y < rows.len() implies (#[trigger] rows[y]).len() == img.w() by {
        assert(rows[y] == img.rows@[y]@);
    }
    lemma_count_near_rows_uniform(rows, img.w(), key, tolerance, true);
    assert(rows.len() * img.w() == img.w() * img.h()) by (nonlinear_arith)
        requires
            rows.len() == img.h(),
    ;
}

/// Counts the pixels within `tolerance` of the key color.
pub fn count_near_key(img: &Rgba8Image, key: [u8; 3], tolerance: u32) -> (r: u64)
    requires
        img.wf(),
    ensures
        r == img.near_count(key, tolerance as int),
        r <= img.w() * img.h(),
{
    let w = img.width();
    let h = img.height();
    assert(tolerance as u64 * tolerance as u64 <= u64::MAX) by (nonlinear_arith)
        requires
            tolerance <= u32::MAX,
    ;
    let tol_sq: u64 = tolerance as u64 * tolerance as u64;
    let ghost rv = img.row_views();
    let mut count: u64 = 0;
    let mut y: u32 = 0;
    assert(rv.take(0) =~= Seq::<Seq<[u8; 4]>>::empty());
    while y < h
        invariant
            img.wf(),
            w == img.w(),
            h == img.h(),
            rv == img.row_views(),
            rv.len() == h,
            tol_sq == tolerance * tolerance,
            y <= h,
            count == count_near_rows(rv.take(y as int), key, tolerance as int),
            count <= y * w,
        decreases h - y,
    {
        let mut x: u32 = 0;
        let mut row_count: u64 = 0;
        let ghost row = rv[y as int];
        assert(row.len() == w);
        assert(row.take(0) =~= Seq::<[u8; 4]>::empty());
        while x < w
            invariant
                img.wf(),
                w == img.w(),
                h == img.h(),
                rv == img.row_views(),
                y < h,
                row == rv[y as int],
                row.len() == w,
                tol_sq == tolerance * tolerance,
                x <= w,
                row_count == count_near(row.take(x as int), key, tolerance as int),
                row_count <= x,
            decreases w - x,
        {
            let p = img.get_pixel(x, y);
            assert(p == row[x as int]);
            assert(row.take(x + 1).drop_last() =~= row.take(x as int));
            let d = color_distance_sq(p, key);
            if (d as u64) <= tol_sq {
                row_count = row_count + 1;
            }
            x = x + 1;
        }
        assert(row.take(w as int) =~= row);
        assert(rv.take(y + 1).drop_last() =~= rv.take(y as int));
        proof {
            assert(count + row_count <= (y + 1) * w) by (nonlinear_arith)
                requires
                    count <= y * w,
                    row_count <= w,
            ;
            assert((y + 1) * w <= h * w) by (nonlinear_arith)
                requires
                    y < h,
            ;
            assert(h * w <= u64::MAX) by (nonlinear_arith)
                requires
                    h <= u32::MAX,
                    w <= u32::MAX,
            ;
        }
        count = count + row_count;
        y = y + 1;
    }
    assert(rv.take(h as int) =~= rv);
    assert(h * w == w * h) by (nonlinear_arith);
    count
}

/// The red, green and blue channels of a pixel.
pub open spec fn rgb(p: [u8; 4]) -> [u8; 3] {
    [p[0], p[1], p[2]]
}

/// The four corner pixels: top left, top right, bottom left, bottom right.
pub open spec fn corners(img: Rgba8Image) -> Seq<[u8; 4]> {
    seq![
        img.pixel(0, 0),
        img.pixel(img.w() - 1, 0),
        img.pixel(0, img.h() - 1),
        img.pixel(img.w() - 1, img.h() - 1),
    ]
}

fn corner_pixels(img: &Rgba8Image) -> (r: [[u8; 4]; 4])
    requires
        img.wf(),
        img.w() > 0,
        img.h() > 0,
    ensures
        r@ == corners(*img),
{
    let w = img.width();
    let h = img.height();
    let r = [img.get_pixel(0, 0), img.get_pixel(w - 1, 0), img.get_pixel(0, h - 1), img.get_pixel(w - 1, h - 1)];
    assert(r@ =~= corners(*img));
    r
}

fn pixel_rgb(p: [u8; 4]) -> (r: [u8; 3])
    ensures
        r == rgb(p),
{
    [p[0], p[1], p[2]]
}

/// Whether a generated green-source image shows a key-color background:
/// either all four corners are within 24 of the key, or at least 5% of
/// all pixels are.
pub open spec fn key_background_spec(img: Rgba8Image, key: [u8; 3]) -> bool {
    if img.w() == 0 || img.h() == 0 {
        false
    } else {
        let cs = corners(img);
        (near_key(cs[0], key, 24) && near_key(cs[1], key, 24) && near_key(cs[2], key, 24) && near_key(
            cs[3],
            key,
            24,
        )) || img.near_count(key, 24) * 20 >= img.w() * img.h()
    }
}

pub fn green_source_has_key_background(img: &Rgba8Image, key: [u8; 3]) -> (r: bool)
    requires
        img.wf(),
    ensures
        r == key_background_spec(*img, key),
{
    let w = img.width();
    let h = img.height();
    if w == 0 || h == 0 {
        return false;
    }
    let cs = corner_pixels(img);
    if color_distance_sq(cs[0], key) <= 576 && color_distance_sq(cs[1], key) <= 576 && color_distance_sq(
        cs[2],
        key,
    ) <= 576 && color_distance_sq(cs[3], key) <= 576 {
        return true;
    }
    let keyed = count_near_key(img, key, 24);
    assert((w as u128) * (h as u128) <= u64::MAX) by (nonlinear_arith)
        requires
            w <= u32::MAX,
            h <= u32::MAX,
    ;
    (keyed as u128) * 20 >= (w as u128) * (h as u128)
}

/// How many of the pixels `cs` are within 24 of the color `key`.
pub open spec fn votes(cs: Seq<[u8; 4]>, key: [u8; 3]) -> nat
    decreases cs.len(),
{
    if cs.len() == 0 {
        0
    } else {
        votes(cs.drop_last(), key) + if near_key(cs.last(), key, 24) {
            1nat
        } else {
            0nat
        }
    }
}

/// Corner `k` is the first corner whose color the most corners share.
pub open spec fn is_majority_corner(cs: Seq<[u8; 4]>, k: int) -> bool {
    &&& 0 <= k < cs.len()
    &&& forall|j: int| 0 <= j < k ==> votes(cs, rgb(#[trigger] cs[j])) < votes(cs, rgb(cs[k]))
    &&& forall|j: int| k < j < cs.len() ==> votes(cs, rgb(#[trigger] cs[j])) <= votes(cs, rgb(cs[k]))
}

fn count_votes(cs: &[[u8; 4]; 4], key: [u8; 3]) -> (r: u32)
    ensures
        r == votes(cs@, key),
        r <= 4,
{
    let mut n: u32 = 0;
    let mut i: usize = 0;
    assert(cs@.take(0) =~= Seq::<[u8; 4]>::empty());
    while i < 4
        invariant
            i <= 4,
            cs@.len() == 4,
            n == votes(cs@.take(i as int), key),
            n <= i,
        decreases 4 - i,
    {
        assert(cs@.take(i + 1).drop_last() =~= cs@.take(i as int));
        assert(cs@.take(i + 1).last() == cs@[i as int]);
        if color_distance_sq(cs[i], key) <= 576 {
            n = n + 1;
        }
        i = i + 1;
    }
    assert(cs@.take(4) =~= cs@);
    n
}

/// The background color of a frame for automatic keying: the color of the
/// corner that the most corners match (within 24); on a tie, the earlier
/// corner in the order top left, top right, bottom left, bottom right.
pub fn detect_key_color(img: &Rgba8Image) -> (r: Result<[u8; 3], CliError>)
    requires
        img.wf(),
    ensures
        img.w() == 0 || img.h() == 0 ==> outcome(r) == Err::<[u8; 3], _>((3i32, "first frame is empty"@)),
        img.w() > 0 && img.h() > 0 ==> (r matches Ok(c) && exists|k: int|
            is_majority_corner(corners(*img), k) && c == rgb(#[trigger] corners(*img)[k])),
{
    let w = img.width();
    let h = img.height();
    if w == 0 || h == 0 {
        return Err(CliError::with_text(3, "first frame is empty"));
    }
    let cs = corner_pixels(img);
    let mut best = cs[0];
    let mut best_count: u32 = 0;
    let ghost mut best_k: int = 0;
    let mut i: usize = 0;
    while i < 4
        invariant
            cs@.len() == 4,
            i <= 4,
            i == 0 ==> best_count == 0 && best == cs@[0],
            i > 0 ==> 0 <= best_k < i && best == cs@[best_k] && best_count == votes(cs@, rgb(cs@[best_k])),
            i > 0 ==> forall|j: int| 0 <= j < best_k ==> votes(cs@, rgb(#[trigger] cs@[j])) < best_count,
            i > 0 ==> forall|j: int| best_k < j < i ==> votes(cs@, rgb(#[trigger] cs@[j])) <= best_count,
        decreases 4 - i,
    {
        let key = pixel_rgb(cs[i]);
        let count = count_votes(&cs, key);
        if count > best_count {
            best_count = count;
            best = cs[i];
            proof {
                best_k = i as int;
            }
        } else {
            proof {
                if i == 0 {
                    lemma_votes_self(cs@, 0);
                }
            }
        }
        i = i + 1;
    }
    let c = pixel_rgb(best);
    assert(is_majority_corner(cs@, best_k));
    Ok(c)
}

proof fn lemma_votes_self(cs: Seq<[u8; 4]>, k: int)
    requires
        0 <= k < cs.len(),
    ensures
        votes(cs, rgb(cs[k])) >= 1,
    decreases cs.len(),
{
    if k < cs.len() - 1 {
        lemma_votes_self(cs.drop_last(), k);
        assert(cs.drop_last()[k] == cs[k]);
    } else {
        let p = cs[k];
        assert(rgb(p)[0] == p[0] && rgb(p)[1] == p[1] && rgb(p)[2] == p[2]) by {
            broadcast use vstd::array::group_array_axioms;
        }
        assert(distance_sq(p, rgb(p)) == 0);
    }
}

/// A pixel after keying: alpha 0 when within `tolerance` of the key color,
/// unchanged otherwise.
pub open spec fn keyed_pixel(p: [u8; 4], key: [u8; 3], tolerance: int) -> [u8; 4] {
    if near_key(p, key, tolerance) {
        [p[0], p[1], p[2], 0]
    } else {
        p
    }
}

/// Makes every pixel within 42 of the key color fully transparent, as the
/// frames extracted from a video are keyed.
pub fn key_out(img: &Rgba8Image, key: [u8; 3]) -> (r: Rgba8Image)
    requires
        img.wf(),
    ensures
        r.wf(),
        r.w() == img.w(),
        r.h() == img.h(),
        forall|x: int, y: int| img.in_bounds(x, y) ==> #[trigger] r.pixel(x, y) == keyed_pixel(img.pixel(x, y), key, 42),
{
    let w = img.width();
    let h = img.height();
    let mut rows: Vec<Vec<[u8; 4]>> = Vec::new();
    let mut y: u32 = 0;
    while y < h
        invariant
            img.wf(),
            w == img.w(),
            h == img.h(),
            y <= h,
            rows@.len() == y,
            forall|j: int| 0 <= j < y ==> (#[trigger] rows@[j])@.len() == w,
            forall|i: int, j: int|
                0 <= i < w && 0 <= j < y ==> #[trigger] rows@[j]@[i] == keyed_pixel(img.pixel(i, j), key, 42),
        decreases h - y,
    {
        let mut row: Vec<[u8; 4]> = Vec::new();
        let mut x: u32 = 0;
        while x < w
            invariant
                img.wf(),
                w == img.w(),
                h == img.h(),
                y < h,
                x <= w,
                row@.len() == x,
                forall|i: int| 0 <= i < x ==> #[trigger] row@[i] == keyed_pixel(img.pixel(i, y as int), key, 42),
            decreases w - x,
        {
            let p = img.get_pixel(x, y);
            if color_distance_sq(p, key) <= 1764 {
                row.push([p[0], p[1], p[2], 0]);
            } else {
                row.push(p);
            }
            x = x + 1;
        }
        rows.push(row);
        y = y + 1;
    }
    Rgba8Image { width: w, height: h, rows }
}

/// What `image::load_from_memory` makes of some bytes, taken as RGBA8:
/// the width, the height and the rows of pixels, or the text of the error.
pub uninterp spec fn decoded_image(data: Seq<u8>) -> Result<(u32, u32, Seq<Seq<[u8; 4]>>), Seq<char>>;

/// `image::load_from_memory` followed by `to_rgba8`: the picture the bytes
/// encode in RGBA8 (read row by row, `height` rows of `width` pixels), or
/// the `Display` text of the decoding error. The result depends on the bytes
/// alone and is named `decoded_image`.
#[verifier::external_body]
pub(crate) fn decode_image(data: &[u8]) -> (r: Result<Rgba8Image, String>)
    ensures
        match r {
            Ok(img) => img.wf() && decoded_image(data@) == Ok::<_, Seq<char>>((img.w() as u32, img.h() as u32, img.row_views())),
            Err(m) => decoded_image(data@) == Err::<(u32, u32, Seq<Seq<[u8; 4]>>), _>(m@),
        },
{
    match image::load_from_memory(data) {
        Ok(decoded) => {
            let rgba = decoded.to_rgba8();
            let (width, height) = rgba.dimensions();
            let rows = (0..height).map(|y| (0..width).map(|x| rgba.get_pixel(x, y).0).collect()).collect();
            Ok(Rgba8Image { width, height, rows })
        },
        Err(e) => Err(e.to_string()),
    }
}

/// The color `Rgba::blend` of the `image` crate gives when `top` is drawn
/// over `bottom`.
pub uninterp spec fn blended(bottom: [u8; 4], top: [u8; 4]) -> [u8; 4];

/// `image::Rgba::blend` (source-over compositing): a fully transparent top
/// leaves the bottom as it is, a fully opaque top replaces it; other alphas
/// mix the two in floating point, which is named `blended` and not stated.
#[verifier::external_body]
fn blend_pixel(bottom: [u8; 4], top: [u8; 4]) -> (r: [u8; 4])
    ensures
        r == blended(bottom, top),
        top[3] == 0 ==> r == bottom,
        top[3] == 255 ==> r == top,
{
    let mut b = image::Rgba(bottom);
    <image::Rgba<u8> as image::Pixel>::blend(&mut b, &image::Rgba(top));
    b.0
}

/// `top` drawn over `bottom` as `Rgba::blend` draws it: a fully transparent
/// top leaves the bottom, a fully opaque one replaces it, and other alphas
/// give `blended`.
pub open spec fn composite(bottom: [u8; 4], top: [u8; 4]) -> [u8; 4] {
    if top[3] == 0 {
        bottom
    } else if top[3] == 255 {
        top
    } else {
        blended(bottom, top)
    }
}

/// Pixel `(i, j)` of the bottom image lies under `top` placed at `(x, y)`.
pub open spec fn covers(top: Rgba8Image, x: u32, y: u32, i: int, j: int) -> bool {
    x <= i < x + top.w() && y <= j < y + top.h()
}

fn blend_row(row: &mut Vec<[u8; 4]>, top: &Rgba8Image, ty: u32, x: u32, xe: u32)
    requires
        top.wf(),
        ty < top.h(),
        x <= xe <= old(row)@.len(),
        xe <= x + top.w(),
    ensures
        final(row)@.len() == old(row)@.len(),
        forall|i: int|
            0 <= i < old(row)@.len() ==> #[trigger] final(row)@[i] == if x <= i < xe {
                composite(old(row)@[i], top.pixel(i - x, ty as int))
            } else {
                old(row)@[i]
            },
{
    let mut i = x;
    while i < xe
        invariant
            top.wf(),
            ty < top.h(),
            x <= i <= xe <= old(row)@.len(),
            xe <= x + top.w(),
            row@.len() == old(row)@.len(),
            forall|k: int|
                0 <= k < old(row)@.len() ==> #[trigger] row@[k] == if x <= k < i {
                    composite(old(row)@[k], top.pixel(k - x, ty as int))
                } else {
                    old(row)@[k]
                },
        decreases xe - i,
    {
        let t = top.rows[ty as usize][(i - x) as usize];
        let b = row[i as usize];
        row.set(i as usize, blend_pixel(b, t));
        i = i + 1;
    }
}

/// `image::imageops::overlay` of `top` onto `bottom` at `(x, y)`: every
/// pixel of `bottom` under `top` becomes the composite of the two, clipped to
/// `bottom`; every other pixel keeps its value.
pub fn overlay(bottom: &mut Rgba8Image, top: &Rgba8Image, x: u32, y: u32)
    requires
        old(bottom).wf(),
        top.wf(),
    ensures
        final(bottom).wf(),
        final(bottom).w() == old(bottom).w(),
        final(bottom).h() == old(bottom).h(),
        forall|i: int, j: int|
            old(bottom).in_bounds(i, j) ==> #[trigger] final(bottom).pixel(i, j) == if covers(*top, x, y, i, j) {
                composite(old(bottom).pixel(i, j), top.pixel(i - x, j - y))
            } else {
                old(bottom).pixel(i, j)
            },
{
    let ghost orig = *bottom;
    let bw = bottom.width;
    let bh = bottom.height;
    if x >= bw || y >= bh {
        return;
    }
    let xe: u32 = if top.width <= bw - x { x + top.width } else { bw };
    let ye: u32 = if top.height <= bh - y { y + top.height } else { bh };
    let mut j = y;
    while j < ye
        invariant
            orig.wf(),
            top.wf(),
            bottom.width == bw,
            bottom.height == bh,
            orig.width == bw,
            orig.height == bh,
            bottom.wf(),
            x <= xe <= bw,
            xe <= x + top.w(),
            xe == x + top.w() || xe == bw,
            y <= j <= ye <= bh,
            ye <= y + top.h(),
            ye == y + top.h() || ye == bh,
            forall|i: int, k: int|
                orig.in_bounds(i, k) ==> #[trigger] bottom.pixel(i, k) == if covers(*top, x, y, i, k) && k < j {
                    composite(orig.pixel(i, k), top.pixel(i - x, k - y))
                } else {
                    orig.pixel(i, k)
                },
        decreases ye - j,
    {
        let ghost before = *bottom;
        let mut row: Vec<[u8; 4]> = Vec::new();
        std::mem::swap(&mut row, &mut bottom.rows[j as usize]);
        let ghost old_row = row@;
        assert(old_row == before.rows@[j as int]@);
        blend_row(&mut row, top, j - y, x, xe);
        let ghost new_row = row@;
        std::mem::swap(&mut row, &mut bottom.rows[j as usize]);
        assert(bottom.rows@[j as int]@ == new_row);
        assert forall|i: int, k: int| orig.in_bounds(i, k) implies #[trigger] bottom.pixel(i, k) == if covers(*top, x, y, i, k) && k < j + 1 {
            composite(orig.pixel(i, k), top.pixel(i - x, k - y))
        } else {
            orig.pixel(i, k)
        } by {
            if k == j {
                assert(bottom.pixel(i, k) == new_row[i]);
                assert(before.pixel(i, k) == old_row[i]);
                assert(new_row[i] == if x <= i < xe {
                    composite(old_row[i], top.pixel(i - x, (j - y) as int))
                } else {
                    old_row[i]
                });
                if covers(*top, x, y, i, k) {
                    assert(i < xe);
                }
            } else {
                assert(bottom.rows@[k] == before.rows@[k]);
                assert(bottom.pixel(i, k) == before.pixel(i, k));
            }
        }
        assert forall|k: int| 0 <= k < bottom.rows@.len() implies (#[trigger] bottom.rows@[k])@.len() == bottom.width by {
            if k != j {
                assert(bottom.rows@[k] == before.rows@[k]);
            }
        }
        j = j + 1;
    }
    assert forall|i: int, k: int| orig.in_bounds(i, k) implies #[trigger] bottom.pixel(i, k) == if covers(*top, x, y, i, k) {
        composite(orig.pixel(i, k), top.pixel(i - x, k - y))
    } else {
        orig.pixel(i, k)
    } by {
        if covers(*top, x, y, i, k) {
            assert(k < ye);
            assert(i < xe);
        }
    }
}

} // verus!
