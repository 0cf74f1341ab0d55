//! Pictures of panels: cutting one out of a capture, stitching a tall one
//! together, and saying how much two of them differ.

use vstd::prelude::*;

verus! {

/// One pixel.
#[derive(Debug, Clone, Copy, PartialEq, Eq, Structural)]
pub struct Pixel {
    pub red: u8,
    pub green: u8,
    pub blue: u8,
    pub alpha: u8,
}

/// A picture, row by row from the top.
#[derive(Debug)]
pub struct Picture {
    pub width: u32,
    pub height: u32,
    pub pixels: Vec<Pixel>,
}

pub open spec fn nothing() -> Pixel {
    Pixel { red: 0, green: 0, blue: 0, alpha: 0 }
}

impl Picture {
    /// It has a pixel for each place in it.
    pub open spec fn is_whole(&self) -> bool {
        self.pixels@.len() == self.width * self.height
    }

    pub open spec fn at(&self, x: int, y: int) -> Pixel {
        self.pixels@[y * self.width + x]
    }

    pub open spec fn has(&self, x: int, y: int) -> bool {
        0 <= x < self.width && 0 <= y < self.height
    }
}

/// A size whose pixels can be counted.
pub open spec fn can_be_held(width: u32, height: u32) -> bool {
    width * height <= usize::MAX
}

proof fn lemma_place(x: int, y: int, width: int, height: int)
    requires
        0 <= x < width,
        0 <= y < height,
    ensures
        0 <= y * width + x < width * height,
        y * width <= width * height,
{
    assert(0 <= y * width + x < width * height) by (nonlinear_arith)
        requires
            0 <= x < width,
            0 <= y < height,
    ;
    assert(y * width <= width * height) by (nonlinear_arith)
        requires
            0 <= y < height,
            0 < width,
    ;
}

proof fn lemma_places_apart(x: int, y: int, u: int, v: int, width: int)
    requires
        0 <= x < width,
        0 <= u < width,
        x != u || y != v,
    ensures
        y * width + x != v * width + u,
{
    if y < v {
        assert(y * width + width <= v * width) by (nonlinear_arith)
            requires
                y < v,
                width > 0,
        ;
    } else if v < y {
        assert(v * width + width <= y * width) by (nonlinear_arith)
            requires
                v < y,
                width > 0,
        ;
    }
}

impl Picture {
    /// A picture with one pixel everywhere.
    pub fn solid(width: u32, height: u32, p: Pixel) -> (r: Self)
        requires
            can_be_held(width, height),
        ensures
            r.is_whole(),
            r.width == width,
            r.height == height,
            forall|i: int| 0 <= i < r.pixels@.len() ==> r.pixels@[i] == p,
    {
        let total: u64 = width as u64 * height as u64;
        assert(width as u64 * height as u64 <= u64::MAX) by (nonlinear_arith);
        let count: usize = total as usize;
        let mut pixels: Vec<Pixel> = Vec::new();
        let mut i: usize = 0;
        while i < count
            invariant
                i <= count,
                pixels@.len() == i,
                forall|k: int| 0 <= k < i ==> pixels@[k] == p,
            decreases count - i,
        {
            pixels.push(p);
            i += 1;
        }
        Picture { width, height, pixels }
    }

    /// An empty picture.
    pub fn blank(width: u32, height: u32) -> (r: Self)
        requires
            can_be_held(width, height),
        ensures
            r.is_whole(),
            r.width == width,
            r.height == height,
            forall|i: int| 0 <= i < r.pixels@.len() ==> r.pixels@[i] == nothing(),
    {
        Self::solid(width, height, Pixel { red: 0, green: 0, blue: 0, alpha: 0 })
    }

    fn place(&self, x: u32, y: u32) -> (r: usize)
        requires
            self.is_whole(),
            self.has(x as int, y as int),
        ensures
            r == y * self.width + x,
            r < self.pixels@.len(),
    {
        proof {
            lemma_place(x as int, y as int, self.width as int, self.height as int);
            assert(self.pixels@.len() == self.width * self.height);
        }
        let count: usize = self.pixels.len();
        assert(y * self.width + x < count);
        y as usize * self.width as usize + x as usize
    }

    pub fn get_pixel(&self, x: u32, y: u32) -> (r: Pixel)
        requires
            self.is_whole(),
            self.has(x as int, y as int),
        ensures
            r == self.at(x as int, y as int),
    {
        let i: usize = self.place(x, y);
        self.pixels[i]
    }

    pub fn put_pixel(&mut self, x: u32, y: u32, p: Pixel)
        requires
            old(self).is_whole(),
            old(self).has(x as int, y as int),
        ensures
            final(self).is_whole(),
            final(self).width == old(self).width,
            final(self).height == old(self).height,
            final(self).at(x as int, y as int) == p,
            forall|u: int, v: int|
                old(self).has(u, v) && (u != x || v != y) ==> #[trigger] final(self).at(u, v)
                    == old(self).at(u, v),
    {
        let i: usize = self.place(x, y);
        self.pixels.set(i, p);
        proof {
            assert forall|u: int, v: int|
                old(self).has(u, v) && (u != x || v != y) implies #[trigger] self.at(u, v)
                == old(self).at(u, v) by {
                lemma_place(u, v, self.width as int, self.height as int);
                lemma_places_apart(u, v, x as int, y as int, self.width as int);
            }
        }
    }
}

/// Where a pixel of a picture made `to` long comes from in one that is `from`
/// long.
pub open spec fn nearest_of(i: int, from: int, to: int) -> int {
    i * from / to
}

/// Nearest neighbour on purpose: the comparison is structural, and smoothing
/// would blur exactly the edges being compared. An empty source has no pixel to
/// sample, and gives a blank picture.
pub fn resize_nearest(source: &Picture, width: u32, height: u32) -> (r: Picture)
    requires
        source.is_whole(),
        can_be_held(width, height),
    ensures
        r.is_whole(),
        r.width == width,
        r.height == height,
        source.width == 0 || source.height == 0 ==> forall|i: int|
            0 <= i < r.pixels@.len() ==> r.pixels@[i] == nothing(),
        source.width > 0 && source.height > 0 ==> forall|x: int, y: int|
            r.has(x, y) ==> #[trigger] r.at(x, y) == source.at(
                nearest_of(x, source.width as int, width as int),
                nearest_of(y, source.height as int, height as int),
            ),
{
    let mut out = Picture::blank(width, height);
    if source.width == 0 || source.height == 0 {
        return out;
    }
    let mut y: u32 = 0;
    while y < height
        invariant
            y <= height,
            source.is_whole(),
            source.width > 0,
            source.height > 0,
            out.is_whole(),
            out.width == width,
            out.height == height,
            forall|u: int, v: int|
                0 <= u < width && 0 <= v < y ==> #[trigger] out.at(u, v) == source.at(
                    nearest_of(u, source.width as int, width as int),
                    nearest_of(v, source.height as int, height as int),
                ),
        decreases height - y,
    {
        proof {
            lemma_nearest(y as int, source.height as int, height as int);
        }
        let sy: u32 = (y as u64 * source.height as u64 / height as u64) as u32;
        let mut x: u32 = 0;
        while x < width
            invariant
                x <= width,
                y < height,
                source.is_whole(),
                source.width > 0,
                sy == nearest_of(y as int, source.height as int, height as int),
                sy < source.height,
                out.is_whole(),
                out.width == width,
                out.height == height,
                forall|u: int, v: int|
                    0 <= u < width && 0 <= v < y ==> #[trigger] out.at(u, v) == source.at(
                        nearest_of(u, source.width as int, width as int),
                        nearest_of(v, source.height as int, height as int),
                    ),
                forall|u: int|
                    0 <= u < x ==> #[trigger] out.at(u, y as int) == source.at(
                        nearest_of(u, source.width as int, width as int),
                        sy as int,
                    ),
            decreases width - x,
        {
            proof {
                lemma_nearest(x as int, source.width as int, width as int);
            }
            let sx: u32 = (x as u64 * source.width as u64 / width as u64) as u32;
            out.put_pixel(x, y, source.get_pixel(sx, sy));
            x += 1;
        }
        y += 1;
    }
    out
}

proof fn lemma_nearest(i: int, from: int, to: int)
    requires
        0 <= i < to <= u32::MAX,
        0 < from <= u32::MAX,
    ensures
        0 <= i * from <= u64::MAX,
        0 <= nearest_of(i, from, to) < from,
{
    assert(0 <= i * from <= 0xffff_ffff * 0xffff_ffff) by (nonlinear_arith)
        requires
            0 <= i <= 0xffff_ffff,
            0 < from <= 0xffff_ffff,
    ;
    assert(0 <= i * from / to < from) by (nonlinear_arith)
        requires
            0 <= i < to,
            0 < from,
    ;
}

/// Two channels further apart than this are a difference.
pub const THRESHOLD: u8 = 28;

pub open spec fn apart(a: u8, b: u8) -> int {
    if a < b {
        b - a
    } else {
        a - b
    }
}

/// A live page never matches a comp exactly, so near-identical pixels stay
/// quiet.
pub open spec fn differs(a: Pixel, b: Pixel) -> bool {
    apart(a.red, b.red) > THRESHOLD || apart(a.green, b.green) > THRESHOLD || apart(
        a.blue,
        b.blue,
    ) > THRESHOLD
}

/// The original faded towards a light grey, so the red reads against it.
pub open spec fn faded(a: Pixel) -> int {
    let grey = (a.red + a.green + a.blue) / 3;
    if grey >= 200 {
        200
    } else if grey >= 80 {
        grey
    } else {
        80
    }
}

/// Red where the two differ, faded original elsewhere.
pub open spec fn marked(a: Pixel, b: Pixel) -> Pixel {
    if differs(a, b) {
        Pixel { red: 224, green: 87, blue: 74, alpha: 255 }
    } else {
        let g = faded(a) as u8;
        Pixel { red: g, green: g, blue: g, alpha: 255 }
    }
}

fn mark(a: Pixel, b: Pixel) -> (r: (Pixel, bool))
    ensures
        r.0 == marked(a, b),
        r.1 == differs(a, b),
{
    let far = distance(a.red, b.red) > THRESHOLD || distance(a.green, b.green) > THRESHOLD
        || distance(a.blue, b.blue) > THRESHOLD;
    if far {
        (Pixel { red: 224, green: 87, blue: 74, alpha: 255 }, true)
    } else {
        let grey: u32 = (a.red as u32 + a.green as u32 + a.blue as u32) / 3;
        let g: u8 = if grey >= 200 {
            200
        } else if grey >= 80 {
            grey as u8
        } else {
            80
        };
        (Pixel { red: g, green: g, blue: g, alpha: 255 }, false)
    }
}

fn distance(a: u8, b: u8) -> (r: u8)
    ensures
        r == apart(a, b),
{
    if a < b {
        b - a
    } else {
        a - b
    }
}

/// How many of the first `x` pixels of row `y` differ.
pub open spec fn changed_in_row(live: Picture, comp: Picture, y: int, x: int) -> nat
    decreases x,
{
    if x <= 0 {
        0
    } else {
        changed_in_row(live, comp, y, x - 1) + if differs(live.at(x - 1, y), comp.at(x - 1, y)) {
            1nat
        } else {
            0nat
        }
    }
}

/// How many pixels of the first `y` rows differ.
pub open spec fn changed_in(live: Picture, comp: Picture, y: int) -> nat
    decreases y,
{
    if y <= 0 {
        0
    } else {
        changed_in(live, comp, y - 1) + changed_in_row(live, comp, y - 1, live.width as int)
    }
}

proof fn lemma_changed_row(live: Picture, comp: Picture, y: int, x: int)
    requires
        0 <= x,
    ensures
        changed_in_row(live, comp, y, x) <= x,
    decreases x,
{
    if x > 0 {
        lemma_changed_row(live, comp, y, x - 1);
    }
}

proof fn lemma_changed(live: Picture, comp: Picture, y: int)
    requires
        0 <= y,
    ensures
        changed_in(live, comp, y) <= y * live.width,
    decreases y,
{
    if y > 0 {
        lemma_changed(live, comp, y - 1);
        lemma_changed_row(live, comp, y - 1, live.width as int);
        assert((y - 1) * live.width + live.width == y * live.width) by (nonlinear_arith);
    }
}

/// How many pixels differ, and a picture of where.
pub fn difference_image(live: &Picture, comp: &Picture) -> (r: (Picture, u64))
    requires
        live.is_whole(),
        comp.is_whole(),
        live.width <= comp.width,
        live.height <= comp.height,
    ensures
        r.0.is_whole(),
        r.0.width == live.width,
        r.0.height == live.height,
        forall|x: int, y: int|
            live.has(x, y) ==> #[trigger] r.0.at(x, y) == marked(live.at(x, y), comp.at(x, y)),
        r.1 == changed_in(*live, *comp, live.height as int),
        r.1 <= live.width * live.height,
{
    let count: usize = live.pixels.len();
    let mut out = Picture::blank(live.width, live.height);
    let mut changed: u64 = 0;
    let mut y: u32 = 0;
    while y < live.height
        invariant
            y <= live.height,
            live.is_whole(),
            comp.is_whole(),
            live.width <= comp.width,
            live.height <= comp.height,
            out.is_whole(),
            out.width == live.width,
            out.height == live.height,
            changed == changed_in(*live, *comp, y as int),
            forall|u: int, v: int|
                0 <= u < live.width && 0 <= v < y ==> #[trigger] out.at(u, v) == marked(
                    live.at(u, v),
                    comp.at(u, v),
                ),
        decreases live.height - y,
    {
        let mut x: u32 = 0;
        let ghost before = changed;
        proof {
            lemma_changed(*live, *comp, y as int);
            assert(y * live.width <= 0xffff_ffff * 0xffff_ffff) by (nonlinear_arith)
                requires
                    y <= 0xffff_ffff,
                    live.width <= 0xffff_ffff,
            ;
        }
        while x < live.width
            invariant
                x <= live.width,
                y < live.height,
                live.is_whole(),
                comp.is_whole(),
                live.width <= comp.width,
                live.height <= comp.height,
                out.is_whole(),
                out.width == live.width,
                out.height == live.height,
                before <= 0xffff_ffff * 0xffff_ffff,
                changed == before + changed_in_row(*live, *comp, y as int, x as int),
                forall|u: int, v: int|
                    0 <= u < live.width && 0 <= v < y ==> #[trigger] out.at(u, v) == marked(
                        live.at(u, v),
                        comp.at(u, v),
                    ),
                forall|u: int|
                    0 <= u < x ==> #[trigger] out.at(u, y as int) == marked(
                        live.at(u, y as int),
                        comp.at(u, y as int),
                    ),
            decreases live.width - x,
        {
            let (p, far) = mark(live.get_pixel(x, y), comp.get_pixel(x, y));
            out.put_pixel(x, y, p);
            proof {
                lemma_changed_row(*live, *comp, y as int, x as int);
            }
            if far {
                changed = changed + 1;
            }
            x += 1;
        }
        y += 1;
    }
    proof {
        lemma_changed(*live, *comp, live.height as int);
        assert(live.height * live.width == live.width * live.height) by (nonlinear_arith);
    }
    (out, changed)
}

/// A picture differs from itself nowhere, and every brightness survives the
/// fade.
pub proof fn a_picture_does_not_differ_from_itself(live: Picture, y: int)
    requires
        0 <= y,
    ensures
        changed_in(live, live, y) == 0,
    decreases y,
{
    if y > 0 {
        a_picture_does_not_differ_from_itself(live, y - 1);
        lemma_row_is_itself(live, y - 1, live.width as int);
    }
}

proof fn lemma_row_is_itself(live: Picture, y: int, x: int)
    requires
        0 <= x,
    ensures
        changed_in_row(live, live, y, x) == 0,
    decreases x,
{
    if x > 0 {
        lemma_row_is_itself(live, y, x - 1);
    }
}

/// The fade stays within a range that red reads against.
pub proof fn every_brightness_survives_the_fade(a: Pixel)
    ensures
        80 <= faded(a) <= 200,
{
}

/// How much of a picture changed, in tenths of a percent, to the nearest.
pub open spec fn tenths_of(changed: int, total: int) -> int {
    (2 * changed * 1000 + total) / (2 * total)
}

pub fn changed_tenths(changed: u64, total: u64) -> (r: u64)
    requires
        0 < total,
        changed <= total,
    ensures
        r == tenths_of(changed as int, total as int),
        r <= 1000,
{
    let n: u128 = 2 * changed as u128 * 1000 + total as u128;
    let m: u128 = 2 * total as u128;
    let q: u128 = n / m;
    assert(q <= 1000) by (nonlinear_arith)
        requires
            q == n / m,
            n == 2 * changed * 1000 + total,
            m == 2 * total,
            changed <= total,
            0 < total,
    ;
    q as u64
}

/// A rectangle in logical pixels, in millionths.
#[derive(Debug, Clone, Copy, PartialEq, Eq, Structural)]
pub struct Rect {
    pub x: i64,
    pub y: i64,
    pub width: i64,
    pub height: i64,
}

/// A measurement in a picture's own pixels: scaled, to the nearest, and no less
/// than none. `scale` is in millionths.
pub open spec fn physical(v: i64, scale: i64) -> int {
    let n = v * scale;
    if n <= 0 {
        0
    } else {
        (n + 500_000_000_000) / 1_000_000_000_000
    }
}

/// As far as a picture goes.
pub open spec fn in_picture(v: int) -> u32 {
    if v > u32::MAX {
        u32::MAX
    } else {
        v as u32
    }
}

/// A measurement in a picture's own pixels.
pub fn to_physical(v: i64, scale: i64) -> (r: u32)
    ensures
        r == in_picture(physical(v, scale)),
{
    assert(-0x4000_0000_0000_0000_0000_0000_0000_0000 <= v * scale
        <= 0x4000_0000_0000_0000_0000_0000_0000_0000) by (nonlinear_arith)
        requires
            -0x8000_0000_0000_0000 <= v <= 0x7fff_ffff_ffff_ffff,
            -0x8000_0000_0000_0000 <= scale <= 0x7fff_ffff_ffff_ffff,
    ;
    let n: i128 = v as i128 * scale as i128;
    if n <= 0 {
        0
    } else {
        let q: i128 = (n + 500_000_000_000) / 1_000_000_000_000;
        if q > u32::MAX as i128 {
            u32::MAX
        } else {
            q as u32
        }
    }
}

/// How much of a length starting at `from` is inside `whole`.
pub open spec fn inside(length: u32, from: u32, whole: u32) -> int {
    if length > whole - from {
        whole - from
    } else {
        length as int
    }
}

pub const OFF_SCREEN: &'static str = "panel is off screen, so there is nothing to capture";

pub const NO_AREA: &'static str = "panel has no visible area";

/// The part of a capture that a panel's rectangle covers.
///
/// The window capture is in physical pixels and every rect we track is logical,
/// so the crop has to go through the scale factor or a Retina shot lands on the
/// wrong quarter of the image. A rect running off the edge is trimmed rather
/// than read past.
pub fn crop(image: &Picture, rect: &Rect, scale: i64) -> (r: Result<Picture, String>)
    requires
        image.is_whole(),
    ensures
        ({
            let x = in_picture(physical(rect.x, scale));
            let y = in_picture(physical(rect.y, scale));
            let w = in_picture(physical(rect.width, scale));
            let h = in_picture(physical(rect.height, scale));
            if x >= image.width || y >= image.height {
                r matches Err(e) && e@ == OFF_SCREEN@
            } else if inside(w, x, image.width) == 0 || inside(h, y, image.height) == 0 {
                r matches Err(e) && e@ == NO_AREA@
            } else {
                &&& r matches Ok(p)
                &&& p.is_whole()
                &&& p.width == inside(w, x, image.width)
                &&& p.height == inside(h, y, image.height)
                &&& forall|u: int, v: int|
                    p.has(u, v) ==> #[trigger] p.at(u, v) == image.at(x + u, y + v)
            }
        }),
{
    let x: u32 = to_physical(rect.x, scale);
    let y: u32 = to_physical(rect.y, scale);
    let w: u32 = to_physical(rect.width, scale);
    let h: u32 = to_physical(rect.height, scale);
    if x >= image.width || y >= image.height {
        return Err(OFF_SCREEN.to_owned());
    }
    let width: u32 = if w > image.width - x {
        image.width - x
    } else {
        w
    };
    let height: u32 = if h > image.height - y {
        image.height - y
    } else {
        h
    };
    if width == 0 || height == 0 {
        return Err(NO_AREA.to_owned());
    }
    let count: usize = image.pixels.len();
    assert(width * height <= image.width * image.height) by (nonlinear_arith)
        requires
            width <= image.width,
            height <= image.height,
    ;
    let mut out = Picture::blank(width, height);
    copy_rows(&mut out, 0, image, x, y, width, height);
    Ok(out)
}

/// Copy `width` by `height` pixels of `from`, from (`x`, `y`) on, to the rows of
/// `to` from `top` on.
fn copy_rows(
    to: &mut Picture,
    top: u32,
    from: &Picture,
    x: u32,
    y: u32,
    width: u32,
    height: u32,
)
    requires
        old(to).is_whole(),
        from.is_whole(),
        top + height <= old(to).height,
        width <= old(to).width,
        x + width <= from.width,
        y + height <= from.height,
    ensures
        final(to).is_whole(),
        final(to).width == old(to).width,
        final(to).height == old(to).height,
        forall|u: int, v: int|
            old(to).has(u, v) ==> #[trigger] final(to).at(u, v) == if u < width && top <= v < top
                + height {
                from.at(x + u, y + v - top)
            } else {
                old(to).at(u, v)
            },
{
    let mut row: u32 = 0;
    while row < height
        invariant
            row <= height,
            to.is_whole(),
            to.width == old(to).width,
            to.height == old(to).height,
            from.is_whole(),
            top + height <= to.height,
            width <= to.width,
            x + width <= from.width,
            y + height <= from.height,
            forall|u: int, v: int|
                old(to).has(u, v) ==> #[trigger] to.at(u, v) == if u < width && top <= v < top
                    + row {
                    from.at(x + u, y + v - top)
                } else {
                    old(to).at(u, v)
                },
        decreases height - row,
    {
        let ghost before = *to;
        let mut column: u32 = 0;
        while column < width
            invariant
                column <= width,
                row < height,
                to.is_whole(),
                to.width == old(to).width,
                to.height == old(to).height,
                from.is_whole(),
                top + height <= to.height,
                width <= to.width,
                x + width <= from.width,
                y + height <= from.height,
                forall|u: int, v: int|
                    old(to).has(u, v) ==> #[trigger] to.at(u, v) == if v == top + row && u
                        < column {
                        from.at(x + u, y + row)
                    } else {
                        before.at(u, v)
                    },
            decreases width - column,
        {
            to.put_pixel(column, top + row, from.get_pixel(x + column, y + row));
            column += 1;
        }
        row += 1;
    }
}

/// A screenful put into a tall picture at `top`: as much of it as fits.
pub fn stitch(out: &mut Picture, shot: &Picture, top: u32)
    requires
        old(out).is_whole(),
        shot.is_whole(),
    ensures
        final(out).is_whole(),
        final(out).width == old(out).width,
        final(out).height == old(out).height,
        forall|u: int, v: int|
            old(out).has(u, v) ==> #[trigger] final(out).at(u, v) == if u < shot.width && top <= v
                < top + shot.height {
                shot.at(u, v - top)
            } else {
                old(out).at(u, v)
            },
{
    if top >= out.height {
        return;
    }
    let rows: u32 = if shot.height > out.height - top {
        out.height - top
    } else {
        shot.height
    };
    let columns: u32 = if shot.width > out.width {
        out.width
    } else {
        shot.width
    };
    copy_rows(out, top, shot, 0, 0, columns, rows);
}

/// A plan for a shot of a whole page.
#[derive(Debug, Clone, Copy, PartialEq, Eq, Structural)]
pub struct Plan {
    /// How many screenfuls it takes.
    pub tiles: usize,
    /// How tall the stitched picture is, in the page's own pixels, in millionths.
    pub captured: i64,
    /// Whether the page is taller than that.
    pub truncated: bool,
}

/// How many screenfuls a page takes, the last one perhaps not full.
pub open spec fn screens(total: int, view: int) -> int {
    if total <= 0 {
        0
    } else {
        (total + view - 1) / view
    }
}

/// The most screenfuls a shot takes. A page that grows as you scroll would
/// otherwise never end.
pub const MAX_TILES: usize = 20;

/// How tall the stitched image is, and how many screenfuls it takes.
///
/// Getting it wrong does not fail, it produces a torn or padded picture, which
/// is worse.
pub fn stitch_plan(total_css: i64, view_css: i64, max_tiles: usize) -> (r: Plan)
    requires
        view_css > 0,
        0 < max_tiles,
    ensures
        ({
            let wanted = screens(total_css as int, view_css as int);
            &&& r.tiles == if wanted < 1 {
                1
            } else if wanted > max_tiles {
                max_tiles as int
            } else {
                wanted
            }
            &&& r.captured == if r.tiles * view_css < total_css {
                r.tiles * view_css
            } else {
                total_css as int
            }
            &&& r.truncated == (wanted > max_tiles)
        }),
{
    let wanted: i128 = if total_css <= 0 {
        0
    } else {
        (total_css as i128 + view_css as i128 - 1) / view_css as i128
    };
    let tiles: usize = if wanted < 1 {
        1
    } else if wanted > max_tiles as i128 {
        max_tiles
    } else {
        wanted as usize
    };
    assert(0 <= tiles * view_css <= 0xffff_ffff_ffff_ffff * 0x7fff_ffff_ffff_ffff)
        by (nonlinear_arith)
        requires
            tiles <= 0xffff_ffff_ffff_ffff,
            0 < view_css <= 0x7fff_ffff_ffff_ffff,
    ;
    let reached: i128 = tiles as i128 * view_css as i128;
    let captured: i64 = if reached < total_css as i128 {
        reached as i64
    } else {
        total_css
    };
    Plan { tiles, captured, truncated: wanted > max_tiles as i128 }
}

/// A shot is never taller than the page, and one that is not truncated is
/// exactly as tall.
pub proof fn a_shot_is_no_taller_than_the_page(total: int, view: int, max_tiles: int)
    requires
        view > 0,
        total > 0,
        screens(total, view) <= max_tiles,
    ensures
        screens(total, view) >= 1,
        screens(total, view) * view >= total,
        (screens(total, view) - 1) * view < total,
{
    let n = screens(total, view);
    vstd::arithmetic::div_mod::lemma_fundamental_div_mod(total + view - 1, view);
    vstd::arithmetic::div_mod::lemma_mod_bound(total + view - 1, view);
    assert(n * view == view * n) by (nonlinear_arith);
    assert((n - 1) * view == n * view - view) by (nonlinear_arith);
    assert(n >= 1) by (nonlinear_arith)
        requires
            n * view >= total,
            total > 0,
            view > 0,
    ;
}

/// Two pixels differ when a channel of theirs is more than twenty-eight apart;
/// what differs is marked in one red and what does not is grey.
pub proof fn a_channel_far_apart_is_a_difference(a: Pixel, b: Pixel)
    ensures
        differs(a, b) <==> (a.red - b.red > 28 || b.red - a.red > 28 || a.green - b.green > 28
            || b.green - a.green > 28 || a.blue - b.blue > 28 || b.blue - a.blue > 28),
        differs(a, b) <==> differs(b, a),
        differs(a, b) ==> marked(a, b) == (Pixel { red: 224, green: 87, blue: 74, alpha: 255 }),
        !differs(a, b) ==> marked(a, b).red == marked(a, b).green && marked(a, b).green == marked(
            a,
            b,
        ).blue && 80 <= marked(a, b).red <= 200 && marked(a, b).alpha == 255,
{
}

proof fn lemma_row_counted(live: Picture, comp: Picture, y: int, x: int)
    requires
        0 <= x,
    ensures
        changed_in_row(live, comp, y, x) <= x,
        changed_in_row(live, comp, y, x) == 0 <==> forall|i: int|
            0 <= i < x ==> !differs(#[trigger] live.at(i, y), comp.at(i, y)),
        changed_in_row(live, comp, y, x) == x <==> forall|i: int|
            0 <= i < x ==> differs(#[trigger] live.at(i, y), comp.at(i, y)),
    decreases x,
{
    if x > 0 {
        lemma_row_counted(live, comp, y, x - 1);
        let last = differs(live.at(x - 1, y), comp.at(x - 1, y));
        if changed_in_row(live, comp, y, x - 1) == 0 && !last {
            assert forall|i: int| 0 <= i < x implies !differs(
                #[trigger] live.at(i, y),
                comp.at(i, y),
            ) by {}
        }
        if changed_in_row(live, comp, y, x - 1) == x - 1 && last {
            assert forall|i: int| 0 <= i < x implies differs(
                #[trigger] live.at(i, y),
                comp.at(i, y),
            ) by {}
        }
    }
}

/// The count of changed pixels is nothing exactly when no pixel differs, and
/// everything exactly when every one does.
pub proof fn every_changed_pixel_is_counted(live: Picture, comp: Picture, y: int)
    requires
        0 <= y,
    ensures
        changed_in(live, comp, y) <= y * live.width,
        changed_in(live, comp, y) == 0 <==> forall|i: int, j: int|
            0 <= i < live.width && 0 <= j < y ==> !differs(
                #[trigger] live.at(i, j),
                comp.at(i, j),
            ),
        (forall|i: int, j: int|
            0 <= i < live.width && 0 <= j < y ==> differs(#[trigger] live.at(i, j), comp.at(i, j)))
            ==> changed_in(live, comp, y) == y * live.width,
    decreases y,
{
    let w = live.width as int;
    assert(0 * w == 0) by (nonlinear_arith);
    if y > 0 {
        every_changed_pixel_is_counted(live, comp, y - 1);
        lemma_row_counted(live, comp, y - 1, w);
        assert((y - 1) * w + w == y * w) by (nonlinear_arith);
        if changed_in(live, comp, y) == 0 {
            assert forall|i: int, j: int| 0 <= i < w && 0 <= j < y implies !differs(
                #[trigger] live.at(i, j),
                comp.at(i, j),
            ) by {}
        }
        if forall|i: int, j: int|
            0 <= i < w && 0 <= j < y ==> !differs(#[trigger] live.at(i, j), comp.at(i, j)) {
            assert forall|i: int| 0 <= i < w implies !differs(
                #[trigger] live.at(i, y - 1),
                comp.at(i, y - 1),
            ) by {}
        }
        if forall|i: int, j: int|
            0 <= i < w && 0 <= j < y ==> differs(#[trigger] live.at(i, j), comp.at(i, j)) {
            assert forall|i: int| 0 <= i < w implies differs(
                #[trigger] live.at(i, y - 1),
                comp.at(i, y - 1),
            ) by {}
        }
    }
}

/// The share changed is in tenths of a percent, to the nearest: nothing of
/// nothing changed, and a thousand of everything.
pub proof fn the_share_is_to_the_nearest_tenth(changed: int, total: int)
    requires
        0 <= changed <= total,
        total > 0,
    ensures
        -total <= 2 * (tenths_of(changed, total) * total - changed * 1000) <= total,
        changed == 0 ==> tenths_of(changed, total) == 0,
        changed == total ==> tenths_of(changed, total) == 1000,
{
    let n = 2 * changed * 1000 + total;
    let m = 2 * total;
    let q = n / m;
    vstd::arithmetic::div_mod::lemma_fundamental_div_mod(n, m);
    vstd::arithmetic::div_mod::lemma_mod_bound(n, m);
    assert(m * q == 2 * (q * total)) by (nonlinear_arith)
        requires
            m == 2 * total,
    ;
    if changed == 0 {
        assert(q == 0) by (nonlinear_arith)
            requires
                n == total,
                m == 2 * total,
                total > 0,
                q == n / m,
        ;
    }
    if changed == total {
        assert(n == 2001 * total);
        assert(q == 1000) by (nonlinear_arith)
            requires
                n == 2001 * total,
                m == 2 * total,
                total > 0,
                q == n / m,
        ;
    }
}

/// A length on screen is its pixels times the scale, to the nearest.
pub proof fn a_length_is_scaled_to_the_nearest_pixel(v: i64, scale: i64)
    ensures
        v * scale > 0 ==> -500_000_000_000 <= physical(v, scale) * 1_000_000_000_000 - v * scale
            <= 500_000_000_000,
        v * scale <= 0 ==> physical(v, scale) == 0,
{
}

/// What is cut out of a picture never goes past its end, and is as long as asked
/// where there is room.
pub proof fn a_cut_stays_inside(length: u32, from: u32, whole: u32)
    requires
        from <= whole,
    ensures
        from + inside(length, from, whole) <= whole,
        from + length <= whole ==> inside(length, from, whole) == length,
        from + length > whole ==> from + inside(length, from, whole) == whole,
{
}

} // verus!
