//! Where the panels of a row sit. Pure arithmetic, so the layout can be
//! reasoned about and tested without a window.
//!
//! Measurements are in millionths of a logical pixel.

use vstd::prelude::*;
use crate::model::{viewports, FitMode, Panelled, Viewport};
use crate::scanner::types::PX;

verus! {

// The chrome's vertical rhythm. The chrome and the panel positions have to
// agree on it exactly.
pub const TOOLBAR_H: i64 = 56_000_000;

/// The pan strip, which sits along the bottom edge rather than under the
/// toolbar: it is a scrollbar, and a scrollbar belongs at the end of the thing
/// it scrolls.
pub const STRIP_H: i64 = 12_000_000;

/// 26 rather than 16: the panel names sat too close under the toolbar.
pub const GAP_ABOVE_LABELS: i64 = 26_000_000;

pub const LABEL_H: i64 = 32_000_000;

/// The gap between the bottom of the label strip and the top of the panels.
///
/// 46 rather than the 16 the design asks for, because something between the
/// chrome's CSS origin and the origin a child webview is positioned against
/// differs by roughly the height of a title bar. This does not explain that; it
/// moves the panels out of the way of it.
pub const GAP_BELOW_LABELS: i64 = 46_000_000;

pub const PANEL_TOP: i64 = TOOLBAR_H + GAP_ABOVE_LABELS + LABEL_H + GAP_BELOW_LABELS;

pub const PANEL_GAP: i64 = 24_000_000;

pub const OUTER_MARGIN: i64 = 24_000_000;

pub const BOTTOM_MARGIN: i64 = 24_000_000;

/// A factor, as a fraction.
#[derive(Debug, Clone, Copy, PartialEq, Eq, Structural)]
pub struct Scale {
    pub num: i128,
    pub den: i128,
}

/// Where one panel sits, before any webview exists.
#[derive(Debug, Clone, Copy, PartialEq, Eq, Structural)]
pub struct Placement {
    pub home_x: i128,
    /// The zoom at which the page has its declared width in this frame.
    pub scale: Scale,
    pub width: i128,
    pub height: i128,
}

/// `n / m` to the nearest whole number, a tie going away from zero. `m` is
/// even.
pub open spec fn round_div(n: int, m: int) -> int {
    if n >= 0 {
        (n + m / 2) / m
    } else {
        -((-n + m / 2) / m)
    }
}

pub open spec fn at_least(v: int, floor: int) -> int {
    if v < floor {
        floor
    } else {
        v
    }
}

/// How much a panel of a height is scaled to fit the available height: never
/// magnified, and never to less than a twentieth.
pub open spec fn fit(available: int, height: int) -> (int, int) {
    let q = at_least(height, 1_000_000);
    if 20 * available < q {
        (1, 20)
    } else if available > q {
        (1, 1)
    } else {
        (available, q)
    }
}

/// The height of the tallest viewport, and no less than a pixel.
pub open spec fn tallest(vps: Seq<Panelled>) -> int
    decreases vps.len(),
{
    if vps.len() == 0 {
        1_000_000
    } else {
        at_least(vps.last().height as int, tallest(vps.drop_last()))
    }
}

/// How a row is to be laid out.
#[derive(Debug, Clone, Copy, PartialEq, Eq, Structural)]
pub struct Fitting {
    pub available_height: i64,
    pub zoom_to_fit: bool,
    pub fit_mode: FitMode,
    pub full_height: bool,
}

/// The factor a panel is to be scaled by, before its frame is rounded.
pub open spec fn nominal(vps: Seq<Panelled>, height: int, how: Fitting) -> (int, int) {
    if how.full_height || !how.zoom_to_fit {
        (1, 1)
    } else {
        match how.fit_mode {
            FitMode::Uniform => fit(how.available_height as int, tallest(vps)),
            FitMode::Height => fit(how.available_height as int, height),
        }
    }
}

/// A webview's frame is whole pixels, so the frame width gets rounded.
pub open spec fn frame_width(declared: int, by: (int, int)) -> int {
    at_least(round_div(declared * by.0, by.1 * 1_000_000), 1) * 1_000_000
}

/// One panel of a row, at `x`.
///
/// The CSS viewport is frame width divided by zoom, so the zoom has to be
/// derived back from the rounded frame or the page renders a pixel narrow: at
/// 767 a `min-width: 768px` query does not fire, and the whole point of this
/// app is that it does. Exact width beats an exact scale, and under uniform fit
/// the scales can now differ by a fraction of a percent as a result.
///
/// With `full_height` every panel is as tall as the canvas allows, at its real
/// width. A viewport's declared height is a guess at a device, which is useful
/// for judging a phone and useless when what you want is to see as much of a
/// page as the window can show.
pub open spec fn placed(vps: Seq<Panelled>, vp: Panelled, x: int, how: Fitting) -> Placement {
    let width = frame_width(vp.width as int, nominal(vps, vp.height as int, how));
    let den = at_least(vp.width as int, 1_000_000);
    if how.full_height {
        Placement {
            home_x: x as i128,
            scale: Scale { num: 1, den: 1 },
            width: width as i128,
            height: (at_least(round_div(how.available_height as int, 1_000_000), 1)
                * 1_000_000) as i128,
        }
    } else {
        Placement {
            home_x: x as i128,
            scale: Scale { num: width as i128, den: den as i128 },
            width: width as i128,
            height: (round_div(vp.height * width, den * 1_000_000) * 1_000_000) as i128,
        }
    }
}

/// Where panel `n` starts.
pub open spec fn start_of(vps: Seq<Panelled>, n: int, how: Fitting) -> int
    decreases n,
{
    if n <= 0 {
        OUTER_MARGIN as int
    } else {
        start_of(vps, n - 1, how) + frame_width(
            vps[n - 1].width as int,
            nominal(vps, vps[n - 1].height as int, how),
        ) + PANEL_GAP
    }
}

pub open spec fn places(vps: Seq<Panelled>, how: Fitting) -> Seq<Placement> {
    Seq::new(vps.len(), |i: int| placed(vps, vps[i], start_of(vps, i, how), how))
}

/// How wide the whole row is, margins and all.
pub open spec fn row_width(vps: Seq<Panelled>, how: Fitting) -> int {
    if vps.len() == 0 && !how.full_height {
        0
    } else {
        start_of(vps, vps.len() as int, how) - PANEL_GAP + OUTER_MARGIN
    }
}

/// More panels than this are not laid out.
pub const MOST_PANELS: usize = 4_000_000_000;

proof fn lemma_round(n: int, m: int)
    requires
        m > 0,
        m % 2 == 0,
    ensures
        -m <= 2 * (round_div(n, m) * m - n) <= m,
        n >= 0 ==> round_div(n, m) >= 0,
{
    let a = if n >= 0 {
        n
    } else {
        -n
    };
    let q = (a + m / 2) / m;
    vstd::arithmetic::div_mod::lemma_fundamental_div_mod(a + m / 2, m);
    vstd::arithmetic::div_mod::lemma_mod_bound(a + m / 2, m);
    assert(q * m == m * q) by (nonlinear_arith);
    assert((-q) * m == -(q * m)) by (nonlinear_arith);
    vstd::arithmetic::div_mod::lemma_div_pos_is_pos(a + m / 2, m);
}

proof fn lemma_fit(available: int, height: int)
    ensures
        ({
            let f = fit(available, height);
            &&& 0 < f.0 <= f.1
            &&& f.1 <= at_least(height, 1_000_000)
        }),
{
}

proof fn lemma_tallest(vps: Seq<Panelled>)
    ensures
        1_000_000 <= tallest(vps) <= 9223372036854775807,
        forall|i: int| 0 <= i < vps.len() ==> (#[trigger] vps[i]).height <= tallest(vps),
    decreases vps.len(),
{
    if vps.len() > 0 {
        lemma_tallest(vps.drop_last());
        assert forall|i: int| 0 <= i < vps.len() implies (#[trigger] vps[i]).height <= tallest(
            vps,
        ) by {
            if i < vps.len() - 1 {
                assert(vps.drop_last()[i] == vps[i]);
            }
        }
    }
}

proof fn lemma_nominal(vps: Seq<Panelled>, height: int, how: Fitting)
    requires
        height <= 9223372036854775807,
    ensures
        ({
            let f = nominal(vps, height, how);
            0 < f.0 <= f.1 <= 9223372036854775807
        }),
{
    lemma_tallest(vps);
    lemma_fit(how.available_height as int, tallest(vps));
    lemma_fit(how.available_height as int, height);
}

proof fn lemma_frame(declared: int, by: (int, int))
    requires
        -9223372036854775808 <= declared <= 9223372036854775807,
        0 < by.0 <= by.1 <= 9223372036854775807,
    ensures
        1_000_000 <= frame_width(declared, by),
        frame_width(declared, by) <= at_least(declared, 0) + 1_000_000,
        -0x4000_0000_0000_0000_0000_0000_0000_0000 <= declared * by.0
            <= 0x4000_0000_0000_0000_0000_0000_0000_0000,
{
    let p = by.0;
    let q = by.1;
    let n = declared * p;
    let m = q * 1_000_000;
    assert(m % 2 == 0) by (nonlinear_arith)
        requires
            m == q * 1_000_000,
    ;
    assert(-0x4000_0000_0000_0000_0000_0000_0000_0000 <= n
        <= 0x4000_0000_0000_0000_0000_0000_0000_0000) by (nonlinear_arith)
        requires
            n == declared * p,
            -9223372036854775808 <= declared <= 9223372036854775807,
            0 < p <= 9223372036854775807,
    ;
    lemma_round(n, m);
    let r = round_div(n, m);
    if declared <= 0 {
        assert(n <= 0) by (nonlinear_arith)
            requires
                n == declared * p,
                declared <= 0,
                p > 0,
        ;
        assert(r <= 0) by {
            if n == 0 {
                assert(round_div(0, m) == 0) by {
                    assert((m / 2) / m == 0) by (nonlinear_arith)
                        requires
                            m > 0,
                    ;
                }
            } else {
                vstd::arithmetic::div_mod::lemma_div_pos_is_pos(-n + m / 2, m);
            }
        }
    } else {
        // 2 r m <= 2 n + m, and n <= declared q.
        assert(r * 1_000_000 <= declared + 1_000_000) by (nonlinear_arith)
            requires
                2 * (r * m - n) <= m,
                m == q * 1_000_000,
                n == declared * p,
                0 < p <= q,
                declared > 0,
        ;
    }
}

proof fn lemma_start(vps: Seq<Panelled>, n: int, how: Fitting)
    requires
        0 <= n <= vps.len(),
    ensures
        OUTER_MARGIN <= start_of(vps, n, how) <= OUTER_MARGIN + n * 9_223_372_036_900_000_000,
    decreases n,
{
    if n > 0 {
        lemma_start(vps, n - 1, how);
        let vp = vps[n - 1];
        lemma_nominal(vps, vp.height as int, how);
        lemma_frame(vp.width as int, nominal(vps, vp.height as int, how));
        assert((n - 1) * 9_223_372_036_900_000_000 + 9_223_372_036_900_000_000 == n
            * 9_223_372_036_900_000_000) by (nonlinear_arith);
    }
}

/// Every panel's place is within reach of arithmetic.
pub proof fn lemma_placed_in_reach(vps: Seq<Panelled>, i: int, how: Fitting)
    requires
        0 <= i < vps.len() <= MOST_PANELS,
    ensures
        -FAR <= places(vps, how)[i].home_x <= FAR,
        -FAR <= places(vps, how)[i].width <= FAR,
{
    lemma_start(vps, i, how);
    let vp = vps[i];
    lemma_nominal(vps, vp.height as int, how);
    lemma_frame(vp.width as int, nominal(vps, vp.height as int, how));
}

fn rounded(n: i128, m: i128) -> (r: i128)
    requires
        m > 0,
        m % 2 == 0,
        m <= 0x1000_0000_0000_0000_0000_0000,
        -0x5000_0000_0000_0000_0000_0000_0000_0000 <= n
            <= 0x5000_0000_0000_0000_0000_0000_0000_0000,
    ensures
        r == round_div(n as int, m as int),
{
    if n >= 0 {
        (n + m / 2) / m
    } else {
        let q: i128 = (-n + m / 2) / m;
        proof {
            vstd::arithmetic::div_mod::lemma_div_pos_is_pos(-n + m / 2, m as int);
            vstd::arithmetic::div_mod::lemma_div_is_ordered_by_denominator(
                -n + m / 2,
                1,
                m as int,
            );
        }
        -q
    }
}

fn fit_factor(available: i64, height: i64) -> (r: (i64, i64))
    ensures
        (r.0 as int, r.1 as int) == fit(available as int, height as int),
{
    let q: i64 = if height < PX {
        PX
    } else {
        height
    };
    if 20 * (available as i128) < q as i128 {
        (1, 20)
    } else if available > q {
        (1, 1)
    } else {
        (available, q)
    }
}

fn tallest_of(vps: &Vec<Viewport>) -> (r: i64)
    ensures
        r == tallest(viewports(vps@)),
{
    let ghost all = viewports(vps@);
    let mut most: i64 = PX;
    let mut i: usize = 0;
    assert(all.take(0) =~= Seq::<Panelled>::empty());
    while i < vps.len()
        invariant
            i <= vps@.len(),
            all == viewports(vps@),
            most == tallest(all.take(i as int)),
        decreases vps@.len() - i,
    {
        proof {
            assert(all.take(i + 1).drop_last() =~= all.take(i as int));
            assert(all.take(i + 1).last() == vps@[i as int]@);
        }
        if vps[i].height >= most {
            most = vps[i].height;
        }
        i += 1;
    }
    assert(all.take(all.len() as int) =~= all);
    most
}

fn frame_of(declared: i64, by: (i64, i64)) -> (r: i128)
    requires
        0 < by.0 <= by.1,
    ensures
        r == frame_width(declared as int, (by.0 as int, by.1 as int)),
        PX <= r <= 9_223_372_036_856_000_000,
{
    proof {
        lemma_frame(declared as int, (by.0 as int, by.1 as int));
    }
    let n: i128 = declared as i128 * by.0 as i128;
    let m: i128 = by.1 as i128 * 1_000_000;
    assert(m % 2 == 0) by (nonlinear_arith)
        requires
            m == by.1 * 1_000_000,
    ;
    let r: i128 = rounded(n, m);
    if r < 1 {
        1_000_000
    } else {
        r * 1_000_000
    }
}

proof fn lemma_height(height: int, width: int, declared: int)
    requires
        -9223372036854775808 <= height <= 9223372036854775807,
        -9223372036854775808 <= declared <= 9223372036854775807,
        1_000_000 <= width <= at_least(declared, 0) + 1_000_000,
    ensures
        ({
            let den = at_least(declared, 1_000_000);
            &&& -0x5000_0000_0000_0000_0000_0000_0000_0000 <= height * width
                <= 0x5000_0000_0000_0000_0000_0000_0000_0000
            &&& (den * 1_000_000) % 2 == 0
            &&& -0x1_0000_0000_0000_0000_0000 <= round_div(height * width, den * 1_000_000)
                * 1_000_000 <= 0x1_0000_0000_0000_0000_0000
        }),
{
    let den = at_least(declared, 1_000_000);
    let n = height * width;
    let m = den * 1_000_000;
    assert(m % 2 == 0) by (nonlinear_arith)
        requires
            m == den * 1_000_000,
    ;
    assert(-0x5000_0000_0000_0000_0000_0000_0000_0000 <= n
        <= 0x5000_0000_0000_0000_0000_0000_0000_0000) by (nonlinear_arith)
        requires
            n == height * width,
            -9223372036854775808 <= height <= 9223372036854775807,
            0 < width <= 9_223_372_036_856_000_000,
    ;
    lemma_round(n, m);
    let r = round_div(n, m);
    assert(width <= 2 * den);
    assert(-9223372036854775808 * 2 * den <= n <= 9223372036854775808 * 2 * den)
        by (nonlinear_arith)
        requires
            n == height * width,
            -9223372036854775808 <= height <= 9223372036854775807,
            0 < width <= 2 * den,
    ;
    let t = r * 1_000_000;
    assert(r * m == t * den) by (nonlinear_arith)
        requires
            m == den * 1_000_000,
            t == r * 1_000_000,
    ;
    assert(-0x1_0000_0000_0000_0000_0000 <= t <= 0x1_0000_0000_0000_0000_0000)
        by (nonlinear_arith)
        requires
            -m <= 2 * (t * den - n) <= m,
            m == den * 1_000_000,
            -9223372036854775808 * 2 * den <= n <= 9223372036854775808 * 2 * den,
            den >= 1_000_000,
    ;
}

fn place(vps: &Vec<Viewport>, most: i64, i: usize, x: i128, how: Fitting) -> (r: Placement)
    requires
        i < vps@.len(),
        most == tallest(viewports(vps@)),
    ensures
        r == placed(viewports(vps@), vps@[i as int]@, x as int, how),
        PX <= r.width <= 9_223_372_036_856_000_000,
        r.width == frame_width(
            vps@[i as int].width as int,
            nominal(viewports(vps@), vps@[i as int].height as int, how),
        ),
{
    let declared: i64 = vps[i].width;
    let height: i64 = vps[i].height;
    proof {
        lemma_nominal(viewports(vps@), height as int, how);
    }
    let by: (i64, i64) = if how.full_height || !how.zoom_to_fit {
        (1, 1)
    } else {
        match how.fit_mode {
            FitMode::Uniform => fit_factor(how.available_height, most),
            FitMode::Height => fit_factor(how.available_height, height),
        }
    };
    proof {
        lemma_frame(declared as int, (by.0 as int, by.1 as int));
    }
    let width: i128 = frame_of(declared, by);
    if how.full_height {
        let whole: i128 = rounded(how.available_height as i128, 1_000_000);
        proof {
            lemma_round(how.available_height as int, 1_000_000);
        }
        let tall: i128 = if whole < 1 {
            1_000_000
        } else {
            whole * 1_000_000
        };
        return Placement { home_x: x, scale: Scale { num: 1, den: 1 }, width, height: tall };
    }
    let den: i128 = if declared < PX {
        1_000_000
    } else {
        declared as i128
    };
    proof {
        lemma_height(height as int, width as int, declared as int);
    }
    let tall: i128 = rounded(height as i128 * width, den * 1_000_000) * 1_000_000;
    Placement { home_x: x, scale: Scale { num: width, den }, width, height: tall }
}

/// Lay a row of viewports out left to right.
///
/// Zoom-to-fit scales each panel down so it fits the available height. The page
/// still renders at the declared width, because the webview's zoom and its
/// frame shrink together, which leaves the CSS viewport untouched and the media
/// queries firing where they should.
///
/// Full height overrides zoom to fit rather than combining with it. Fit exists
/// to make a panel short enough to see all of; full height makes it as tall as
/// the window allows. Doing both at once has no meaning.
pub fn layout(
    vps: &Vec<Viewport>,
    available_height: i64,
    zoom_to_fit: bool,
    fit_mode: FitMode,
    full_height: bool,
) -> (r: (Vec<Placement>, i128))
    requires
        vps@.len() <= MOST_PANELS,
    ensures
        ({
            let how = Fitting { available_height, zoom_to_fit, fit_mode, full_height };
            &&& r.0@ == places(viewports(vps@), how)
            &&& r.1 == row_width(viewports(vps@), how)
        }),
        0 <= r.1 <= 0x1_0000_0000_0000_0000_0000_0000_0000,
{
    let how = Fitting { available_height, zoom_to_fit, fit_mode, full_height };
    let ghost all = viewports(vps@);
    let most: i64 = tallest_of(vps);
    let mut x: i128 = OUTER_MARGIN as i128;
    let mut out: Vec<Placement> = Vec::new();
    let mut i: usize = 0;
    while i < vps.len()
        invariant
            i <= vps@.len(),
            vps@.len() <= MOST_PANELS,
            all == viewports(vps@),
            most == tallest(all),
            x == start_of(all, i as int, how),
            out@ =~= places(all, how).take(i as int),
        decreases vps@.len() - i,
    {
        let ghost before = out@;
        proof {
            lemma_start(all, i as int, how);
            assert(all[i as int] == vps@[i as int]@);
        }
        let p = place(vps, most, i, x, how);
        out.push(p);
        assert(places(all, how)[i as int] == p);
        x = x + p.width + PANEL_GAP as i128;
        i += 1;
    }
    proof {
        lemma_start(all, all.len() as int, how);
        assert(all.len() == vps@.len());
    }
    let total: i128 = if vps.len() == 0 && !full_height {
        0
    } else {
        x - PANEL_GAP as i128 + OUTER_MARGIN as i128
    };
    (out, total)
}

/// At any scale, the frame's width divided by the zoom is the declared width
/// itself, so a media query fires exactly where it should.
pub proof fn a_panel_renders_at_its_declared_width(vps: Seq<Panelled>, i: int, how: Fitting)
    requires
        0 <= i < vps.len(),
        vps[i].width >= PX,
        !how.full_height,
    ensures
        places(vps, how)[i].scale.num > 0,
        places(vps, how)[i].scale.den == vps[i].width,
        places(vps, how)[i].width * places(vps, how)[i].scale.den == vps[i].width * places(
            vps,
            how,
        )[i].scale.num,
{
    let vp = vps[i];
    lemma_nominal(vps, vp.height as int, how);
    lemma_frame(vp.width as int, nominal(vps, vp.height as int, how));
    let w = places(vps, how)[i].width as int;
    assert(w * vp.width == vp.width * w) by (nonlinear_arith);
}

/// Zoom never magnifies a panel past its true size, and a panel that is not
/// zoomed, or takes the height of the window, is exactly as wide as declared.
pub proof fn a_panel_is_never_magnified(vps: Seq<Panelled>, i: int, how: Fitting)
    requires
        0 <= i < vps.len(),
        vps[i].width >= PX,
        vps[i].width as int % 1_000_000 == 0,
    ensures
        PX <= places(vps, how)[i].width <= vps[i].width,
        how.full_height || !how.zoom_to_fit ==> places(vps, how)[i].width == vps[i].width,
{
    let vp = vps[i];
    let by = nominal(vps, vp.height as int, how);
    lemma_nominal(vps, vp.height as int, how);
    lemma_frame(vp.width as int, by);
    let k = vp.width as int / 1_000_000;
    let n = vp.width * by.0;
    let m = by.1 * 1_000_000;
    assert(m % 2 == 0) by (nonlinear_arith)
        requires
            m == by.1 * 1_000_000,
    ;
    lemma_round(n, m);
    let r = round_div(n, m);
    // 2 r m <= 2 n + m <= (2 k + 1) m, so r <= k.
    assert(r <= k) by (nonlinear_arith)
        requires
            2 * (r * m - n) <= m,
            n == k * 1_000_000 * by.0,
            m == by.1 * 1_000_000,
            0 < by.0 <= by.1,
            k >= 1,
    ;
    if how.full_height || !how.zoom_to_fit {
        assert(r >= k) by (nonlinear_arith)
            requires
                -m <= 2 * (r * m - n),
                n == k * 1_000_000,
                m == 1_000_000,
        ;
    }
}

/// Panels stand side by side with one gap between them, from the margin on, and
/// the row ends a margin after the last.
pub proof fn panels_stand_side_by_side(vps: Seq<Panelled>, i: int, how: Fitting)
    requires
        0 <= i < vps.len() <= MOST_PANELS,
    ensures
        places(vps, how)[0].home_x == OUTER_MARGIN,
        i + 1 < vps.len() ==> places(vps, how)[i + 1].home_x == places(vps, how)[i].home_x
            + places(vps, how)[i].width + PANEL_GAP,
        i + 1 == vps.len() ==> row_width(vps, how) == places(vps, how)[i].home_x + places(
            vps,
            how,
        )[i].width + OUTER_MARGIN,
{
    lemma_start(vps, i, how);
    lemma_start(vps, i + 1, how);
    let vp = vps[i];
    lemma_nominal(vps, vp.height as int, how);
    lemma_frame(vp.width as int, nominal(vps, vp.height as int, how));
}

/// Under uniform fit one factor, the smallest that any panel needs, is every
/// panel's.
pub proof fn uniform_fit_takes_the_smallest_factor(vps: Seq<Panelled>, i: int, how: Fitting)
    requires
        0 <= i < vps.len(),
        how.zoom_to_fit,
        !how.full_height,
        how.fit_mode == FitMode::Uniform,
        how.available_height >= 0,
    ensures
        ({
            let one = nominal(vps, vps[i].height as int, how);
            let own = fit(how.available_height as int, vps[i].height as int);
            &&& one == fit(how.available_height as int, tallest(vps))
            &&& one.0 * own.1 <= own.0 * one.1
        }),
{
    lemma_tallest(vps);
    let a = how.available_height as int;
    let t = tallest(vps);
    let h = at_least(vps[i].height as int, 1_000_000);
    assert(h <= t);
    let one = fit(a, t);
    let own = fit(a, vps[i].height as int);
    let (p, q) = one;
    let (u, v) = own;
    assert(p * v <= u * q) by (nonlinear_arith)
        requires
            0 <= a,
            0 < h <= t,
            (p == 1 && q == 20 && 20 * a < t) || (p == 1 && q == 1 && a > t) || (p == a && q == t
                && t <= 20 * a && a <= t),
            (u == 1 && v == 20 && 20 * a < h) || (u == 1 && v == 1 && a > h) || (u == a && v == h
                && h <= 20 * a && a <= h),
    ;
}

/// Height left for panels once the chrome has taken its share, from the window
/// size last heard of.
pub open spec fn left_for_panels(window_height: int) -> int {
    if window_height <= 0 {
        600_000_000
    } else {
        at_least(window_height - PANEL_TOP - BOTTOM_MARGIN - STRIP_H, 120_000_000)
    }
}

pub fn available_height(window_height: i64) -> (r: i64)
    ensures
        r == left_for_panels(window_height as int),
{
    if window_height <= 0 {
        600_000_000
    } else {
        let left: i64 = window_height - PANEL_TOP - BOTTOM_MARGIN - STRIP_H;
        if left < 120_000_000 {
            120_000_000
        } else {
            left
        }
    }
}

/// Panels this far off the edge of the window still count as on it.
pub const SCREEN_MARGIN: i64 = 200_000_000;

pub open spec fn in_sight(home_x: int, width: int, scroll_x: int, window_width: int) -> bool {
    window_width <= 0 || {
        let left = home_x - scroll_x;
        left + width > -SCREEN_MARGIN && left < window_width + SCREEN_MARGIN
    }
}

/// Positions are kept within this of the row's start.
pub const FAR: i128 = 0x10_0000_0000_0000_0000_0000_0000_0000;

/// Whether a panel is on screen, or close enough to be about to be.
///
/// The row is routinely four times the width of the window: seven viewports
/// come to 6365px and a 1400px window shows three of them. Asking the other
/// four for a scroll position nobody can have changed was more than half of
/// everything the pump did.
///
/// The margin means a panel is already being collected from by the time it
/// slides into view, rather than a tick late.
pub fn panel_on_screen(home_x: i128, width: i128, scroll_x: i128, window_width: i64) -> (r: bool)
    requires
        -FAR <= home_x <= FAR,
        -FAR <= width <= FAR,
        -FAR <= scroll_x <= FAR,
    ensures
        r == in_sight(home_x as int, width as int, scroll_x as int, window_width as int),
{
    // Nobody has told us how wide the window is yet, so assume everything is
    // visible. Guessing the other way would silently stop collecting from the
    // whole row.
    if window_width <= 0 {
        return true;
    }
    let left: i128 = home_x - scroll_x;
    left + width > -(SCREEN_MARGIN as i128) && left < window_width as i128
        + SCREEN_MARGIN as i128
}

/// Where a pan of `dx` lands, given a row of `total_width` in a window of
/// `window_width`.
///
/// A row narrower than the window has nowhere to go, and a wheel gesture keeps
/// arriving after you hit either end, so both are clamped here rather than at
/// the call site.
pub open spec fn panned(current: int, dx: int, total_width: int, window_width: int) -> int {
    let most = at_least(total_width - window_width, 0);
    let to = current + dx;
    if to < 0 {
        0
    } else if to > most {
        most
    } else {
        to
    }
}

pub fn clamped_scroll(current: i128, dx: i64, total_width: i128, window_width: i64) -> (r: i128)
    requires
        -FAR <= current <= FAR,
        0 <= total_width <= FAR,
    ensures
        r == panned(current as int, dx as int, total_width as int, window_width as int),
{
    let wide: i128 = total_width - window_width as i128;
    let most: i128 = if wide < 0 {
        0
    } else {
        wide
    };
    let to: i128 = current + dx as i128;
    if to < 0 {
        0
    } else if to > most {
        most
    } else {
        to
    }
}

/// Panning never leaves the row: it stops at both ends, and a row narrower
/// than the window does not pan at all.
pub proof fn panning_stays_on_the_row(
    current: int,
    dx: int,
    total_width: int,
    window_width: int,
)
    ensures
        0 <= panned(current, dx, total_width, window_width),
        panned(current, dx, total_width, window_width) <= at_least(total_width - window_width, 0),
        total_width <= window_width ==> panned(current, dx, total_width, window_width) == 0,
{
}

/// How far the page may be from its label before it counts as wrong.
///
/// Half a pixel, so a whole pixel out is a finding. That is deliberate and it
/// is the tightest useful value: when the two do not agree, one pixel is enough
/// to matter, because a page at 767 does not fire a `min-width: 768px` query
/// and looks for all the world like the query is broken.
pub const WIDTH_TOLERANCE: i64 = 500_000;

pub open spec fn disagreement(declared: i64, reported: Option<i64>) -> bool {
    match reported {
        Some(said) => declared - said > WIDTH_TOLERANCE || said - declared > WIDTH_TOLERANCE,
        None => false,
    }
}

/// Whether a page's own idea of its width disagrees with the declared one.
///
/// A panel that has not reported yet is not a disagreement. Silence and a
/// wrong answer are different things, and treating the first as the second
/// would light up every panel for the moment between spawning and loading.
pub fn width_disagrees(declared: i64, reported: Option<i64>) -> (r: bool)
    ensures
        r == disagreement(declared, reported),
{
    match reported {
        Some(said) => {
            let apart: i128 = declared as i128 - said as i128;
            apart > WIDTH_TOLERANCE as i128 || apart < -(WIDTH_TOLERANCE as i128)
        },
        None => false,
    }
}

/// A frame has the shape of the panel it shows: its height is the declared
/// height times the scale, to the nearest whole pixel.
pub proof fn a_frame_keeps_the_panels_shape(vps: Seq<Panelled>, i: int, how: Fitting)
    requires
        0 <= i < vps.len(),
        !how.full_height,
    ensures
        ({
            let p = places(vps, how)[i];
            &&& p.scale.den > 0
            &&& -500_000 * p.scale.den <= p.height * p.scale.den - vps[i].height * p.scale.num
            &&& p.height * p.scale.den - vps[i].height * p.scale.num <= 500_000 * p.scale.den
            &&& p.height as int % 1_000_000 == 0
            &&& p.width as int % 1_000_000 == 0
        }),
{
    let vp = vps[i];
    let by = nominal(vps, vp.height as int, how);
    lemma_nominal(vps, vp.height as int, how);
    lemma_frame(vp.width as int, by);
    let w = frame_width(vp.width as int, by);
    lemma_height(vp.height as int, w, vp.width as int);
    let den = at_least(vp.width as int, 1_000_000);
    let n = vp.height * w;
    let m = den * 1_000_000;
    lemma_round(n, m);
    let r = round_div(n, m);
    let p = places(vps, how)[i];
    assert(p.height == r * 1_000_000);
    assert(p.height * den == r * m) by (nonlinear_arith)
        requires
            p.height == r * 1_000_000,
            m == den * 1_000_000,
    ;
}

proof fn lemma_frame_near(declared: int, by: (int, int))
    requires
        0 < by.0 <= by.1,
    ensures
        frame_width(declared, by) * by.1 <= at_least(declared, 0) * by.0 + 1_000_000 * by.1,
        2 * declared * by.0 >= 1_000_000 * by.1 ==> {
            &&& -500_000 * by.1 <= frame_width(declared, by) * by.1 - declared * by.0
            &&& frame_width(declared, by) * by.1 - declared * by.0 <= 500_000 * by.1
        },
{
    let p = by.0;
    let q = by.1;
    let n = declared * p;
    let m = q * 1_000_000;
    assert(m % 2 == 0) by (nonlinear_arith)
        requires
            m == q * 1_000_000,
    ;
    lemma_round(n, m);
    let r = round_div(n, m);
    assert(r * m == (r * 1_000_000) * q) by (nonlinear_arith)
        requires
            m == q * 1_000_000,
    ;
    assert(at_least(declared, 0) * p >= 0) by (nonlinear_arith)
        requires
            at_least(declared, 0) >= 0,
            p > 0,
    ;
    if declared < 0 {
        assert(n <= 0) by (nonlinear_arith)
            requires
                n == declared * p,
                declared < 0,
                p > 0,
        ;
    }
    assert(1 * m == m);
    if 2 * declared * p >= 1_000_000 * q {
        assert(2 * n >= m) by (nonlinear_arith)
            requires
                2 * declared * p >= 1_000_000 * q,
                n == declared * p,
                m == q * 1_000_000,
        ;
        assert(r >= 1) by {
            vstd::arithmetic::div_mod::lemma_div_is_ordered(m, n + m / 2, m);
            vstd::arithmetic::div_mod::lemma_div_by_self(m);
        }
    }
}

/// Zoomed to fit by height, a panel is as tall as the room there is, or as tall
/// as declared where that is less: to half a pixel of the frame's height and half
/// a pixel of its width. Where that would take a scale under a twentieth, the
/// scale is a twentieth.
pub proof fn a_panel_fitted_by_height_fills_the_room(vps: Seq<Panelled>, i: int, how: Fitting)
    requires
        0 <= i < vps.len(),
        how.zoom_to_fit,
        !how.full_height,
        how.fit_mode == FitMode::Height,
        vps[i].width >= 20 * PX,
        vps[i].height >= PX,
    ensures
        ({
            let p = places(vps, how)[i];
            let w = vps[i].width as int;
            let h = vps[i].height as int;
            let room = how.available_height as int;
            let off = p.height * w - (if room > h {
                h * w
            } else {
                room * w
            });
            &&& 20 * room >= h ==> -500_000 * (h + w) <= off <= 500_000 * (h + w)
            &&& 20 * room < h ==> -500_000 * (h + w) <= p.height * w - h * w / 20 <= 500_000 * (h
                + w) + 1
        }),
{
    let vp = vps[i];
    let h = vp.height as int;
    let w = vp.width as int;
    let room = how.available_height as int;
    let by = nominal(vps, h, how);
    lemma_nominal(vps, h, how);
    let p = by.0;
    let q = by.1;
    assert(20 * p >= q);
    assert(2 * w * p >= 1_000_000 * q) by (nonlinear_arith)
        requires
            20 * p >= q,
            w >= 20_000_000,
            p > 0,
    ;
    lemma_frame_near(w, by);
    a_frame_keeps_the_panels_shape(vps, i, how);
    lemma_frame(w, by);
    let f = frame_width(w, by);
    let t = places(vps, how)[i].height as int;
    assert(places(vps, how)[i].scale.num == f);
    // t w is h f to within 500_000 w, and f q is w p to within 500_000 q.
    if 20 * room >= h {
        if room > h {
            assert(f * q == f && w * p == w) by (nonlinear_arith)
                requires
                    q == 1,
                    p == 1,
            ;
            assert(h * f - h * w <= 500_000 * h && -500_000 * h <= h * f - h * w)
                by (nonlinear_arith)
                requires
                    -500_000 <= f - w <= 500_000,
                    h > 0,
            ;
        } else {
            assert(f * q == h * f && w * p == room * w) by (nonlinear_arith)
                requires
                    q == h,
                    p == room,
            ;
        }
    } else {
        assert(-500_000 * (20 * h) <= 20 * (h * f) - h * w <= 500_000 * (20 * h))
            by (nonlinear_arith)
            requires
                -500_000 * 20 <= f * 20 - w <= 500_000 * 20,
                h > 0,
        ;
    }
}

/// Zoomed to fit, no frame is taller than the room there is, but for the
/// rounding of its width and height, unless its scale is at its floor of a
/// twentieth.
pub proof fn a_fitted_frame_is_no_taller_than_the_room(vps: Seq<Panelled>, i: int, how: Fitting)
    requires
        0 <= i < vps.len(),
        how.zoom_to_fit,
        !how.full_height,
        vps[i].width >= PX,
        vps[i].height >= PX,
        forall|k: int|
            0 <= k < vps.len() ==> (#[trigger] vps[k]).height <= 20 * how.available_height,
    ensures
        places(vps, how)[i].height * vps[i].width <= how.available_height * vps[i].width + 500_000
            * vps[i].width + 1_000_000 * vps[i].height,
{
    let vp = vps[i];
    let h = vp.height as int;
    let w = vp.width as int;
    let room = how.available_height as int;
    let by = nominal(vps, h, how);
    lemma_nominal(vps, h, how);
    lemma_tallest(vps);
    lemma_tallest_is_one(vps);
    let p = by.0;
    let q = by.1;
    lemma_frame_near(w, by);
    a_frame_keeps_the_panels_shape(vps, i, how);
    lemma_frame(w, by);
    let f = frame_width(w, by);
    let t = places(vps, how)[i].height as int;
    assert(places(vps, how)[i].scale.num == f);
    assert(h * p <= room * q) by (nonlinear_arith)
        requires
            (p == room && q >= h) || (p == 1 && q == 1 && room >= h),
            room > 0,
    ;
    assert(h * f <= room * w + 1_000_000 * h) by (nonlinear_arith)
        requires
            f * q <= w * p + 1_000_000 * q,
            h * p <= room * q,
            h > 0,
            q > 0,
            w > 0,
    ;
}

proof fn lemma_tallest_is_one(vps: Seq<Panelled>)
    ensures
        tallest(vps) == 1_000_000 || exists|k: int|
            0 <= k < vps.len() && (#[trigger] vps[k]).height == tallest(vps),
    decreases vps.len(),
{
    if vps.len() > 0 {
        lemma_tallest_is_one(vps.drop_last());
        assert(vps.last() == vps[vps.len() - 1]);
        if tallest(vps) != vps.last().height && tallest(vps) != 1_000_000 {
            let k = choose|k: int|
                0 <= k < vps.drop_last().len() && (#[trigger] vps.drop_last()[k]).height
                    == tallest(vps.drop_last());
            assert(vps[k].height == tallest(vps));
        }
    }
}

/// At full height a panel is as tall as the room there is, to the nearest whole
/// pixel and at least one, is not zoomed, and is as wide as declared to the
/// nearest whole pixel.
pub proof fn full_height_takes_all_the_room(vps: Seq<Panelled>, i: int, how: Fitting)
    requires
        0 <= i < vps.len(),
        how.full_height,
    ensures
        ({
            let p = places(vps, how)[i];
            let off = p.height - how.available_height;
            &&& p.scale.num == p.scale.den
            &&& p.height >= PX
            &&& how.available_height >= PX ==> -500_000 <= off <= 500_000
            &&& how.available_height < 0 ==> p.height == PX
            &&& vps[i].width >= PX ==> -500_000 <= p.width - vps[i].width <= 500_000
        }),
{
    let vp = vps[i];
    let room = how.available_height as int;
    lemma_round(room, 1_000_000);
    lemma_nominal(vps, vp.height as int, how);
    lemma_frame(vp.width as int, (1, 1));
    lemma_frame_near(vp.width as int, (1, 1));
}

/// A window that is tall enough leaves its panels all but the toolbar, the
/// labels with their gaps, the bottom margin and the pan strip, 196 pixels in
/// all; a shorter one still leaves them 120, and one that has not said how tall
/// it is, 600.
pub proof fn panels_get_what_the_chrome_leaves(window_height: int)
    ensures
        window_height >= 316_000_000 ==> left_for_panels(window_height) + 196_000_000
            == window_height,
        0 < window_height <= 316_000_000 ==> left_for_panels(window_height) == 120_000_000,
        window_height <= 0 ==> left_for_panels(window_height) == 600_000_000,
{
}

/// A panel in the window, or less than 200 pixels off either edge of it, is on
/// screen; one further off is not.
pub proof fn a_panel_in_the_window_is_in_sight(
    home_x: int,
    width: int,
    scroll_x: int,
    window_width: int,
)
    requires
        window_width > 0,
        width >= 0,
    ensures
        home_x - scroll_x >= window_width + 200_000_000 ==> !in_sight(
            home_x,
            width,
            scroll_x,
            window_width,
        ),
        home_x + width + 200_000_000 <= scroll_x ==> !in_sight(
            home_x,
            width,
            scroll_x,
            window_width,
        ),
        scroll_x < home_x + width + 200_000_000 && home_x < scroll_x + window_width + 200_000_000
            ==> in_sight(home_x, width, scroll_x, window_width),
{
}

/// A pan goes as far as it was asked to unless an end of the row stops it, and
/// panning back undoes it.
pub proof fn a_pan_goes_where_it_was_asked(
    current: int,
    dx: int,
    total_width: int,
    window_width: int,
)
    ensures
        0 <= current + dx <= total_width - window_width ==> panned(
            current,
            dx,
            total_width,
            window_width,
        ) == current + dx,
        current + dx >= total_width - window_width && total_width >= window_width ==> panned(
            current,
            dx,
            total_width,
            window_width,
        ) == total_width - window_width,
        0 <= current <= total_width - window_width && 0 <= current + dx <= total_width
            - window_width ==> panned(
            panned(current, dx, total_width, window_width),
            -dx,
            total_width,
            window_width,
        ) == current,
{
}

/// A page one pixel off its label is wrong, half a pixel is not, and a page that
/// has not said anything is not either.
pub proof fn a_whole_pixel_is_a_disagreement(declared: i64, reported: Option<i64>)
    ensures
        reported is None ==> !disagreement(declared, reported),
        reported matches Some(said) ==> {
            let off = if said > declared {
                said - declared
            } else {
                declared - said
            };
            &&& off >= 1_000_000 ==> disagreement(declared, reported)
            &&& disagreement(declared, reported) <==> 2 * off > 1_000_000
        },
{
}

} // verus!
