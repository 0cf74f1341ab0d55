//! Panel screenshots.
//!
//! Panels are child webviews composited into one native window, so there is no
//! per-webview capture. The window gets captured and cropped to the rect we
//! already track for each panel. That is faithful to what is on screen, which
//! is the point of a measuring instrument.

use vstd::prelude::*;
use vstd::string::StringExecFns;
use crate::canvas::layout::{at_least, PANEL_TOP};
use crate::canvas::row::{in_reach, panel_of, Canvas};
use crate::picture::{
    can_be_held, in_picture, nothing, physical, screens, stitch, stitch_plan, to_physical, Picture,
    Rect, MAX_TILES,
};
use crate::text::{contains_str, decimal, decimal_string, has, number_string};
use crate::util::{slug_of, slugify};

verus! {

/// A text in lower case, as Unicode has it.
pub uninterp spec fn lowercase_of(s: Seq<char>) -> Seq<char>;

/// [`str::to_lowercase`]: a function of the text alone.
#[verifier::external_body]
fn lowercase(s: &str) -> (r: String)
    ensures
        r@ == lowercase_of(s@),
{
    s.to_lowercase()
}

pub open spec fn names_us(lower: Seq<char>) -> bool {
    has(lower, "break/points"@) || has(lower, "breakpoints"@)
}

/// Whether a name in lower case is one of ours.
pub fn is_our_name(lower: &str) -> (r: bool)
    ensures
        r == names_us(lower@),
{
    contains_str(lower, "break/points") || contains_str(lower, "breakpoints")
}

/// Is this window title or app name ours?
///
/// Three spellings are in play and they are all correct somewhere. The bundle
/// is `BreakPoints` because macOS will not take the slash in a filename, the
/// window title is `Break/Points`, and a dev build runs as plain lowercase
/// `breakpoints`.
pub fn is_ours(text: &str) -> (r: bool)
    ensures
        r == names_us(lowercase_of(text@)),
{
    is_our_name(lowercase(text).as_str())
}

pub const PERMISSION_HINT: &'static str =
    "Grant it in System Settings > Privacy & Security > Screen & System Audio Recording, to whichever app launched Break/Points, then restart it.";

/// A window as the system lists it.
#[derive(Debug)]
pub struct Listed {
    pub title: Option<String>,
    pub app_name: Option<String>,
}

pub open spec fn is_our_title(w: Listed) -> bool {
    w.title matches Some(t) && names_us(lowercase_of(t@))
}

pub open spec fn is_our_app(w: Listed) -> bool {
    w.app_name matches Some(a) && names_us(lowercase_of(a@))
}

pub open spec fn is_titled(w: Listed) -> bool {
    w.title matches Some(t) && t@.len() > 0
}

/// How many of the windows have a title.
pub open spec fn titled_in(ws: Seq<Listed>) -> nat
    decreases ws.len(),
{
    if ws.len() == 0 {
        0
    } else {
        titled_in(ws.drop_last()) + if is_titled(ws.last()) {
            1nat
        } else {
            0nat
        }
    }
}

fn count_titled(ws: &Vec<Listed>) -> (r: usize)
    ensures
        r == titled_in(ws@),
{
    let mut n: usize = 0;
    let mut i: usize = 0;
    assert(ws@.take(0) =~= Seq::empty());
    while i < ws.len()
        invariant
            n <= i <= ws@.len(),
            n == titled_in(ws@.take(i as int)),
        decreases ws@.len() - i,
    {
        proof {
            assert(ws@.take(i + 1).drop_last() =~= ws@.take(i as int));
            assert(ws@.take(i + 1).last() == ws@[i as int]);
        }
        let titled = match &ws[i].title {
            Some(t) => !t.as_str().is_empty(),
            None => false,
        };
        if titled {
            n += 1;
        }
        i += 1;
    }
    assert(ws@.take(ws@.len() as int) =~= ws@);
    n
}

/// What is said when no window is ours. Without Screen Recording permission
/// macOS still returns a window list, but it holds only the system's own
/// windows and no titles. Reporting that as "window not found" sends you
/// looking for a window that is right there on the screen.
pub open spec fn not_found(titled: nat) -> Seq<char> {
    if titled <= 1 {
        "macOS is not letting Break/Points see the screen, so there is nothing to capture: it can list "@
            + decimal(titled) + " window(s) and no titles. "@ + PERMISSION_HINT@
    } else {
        "could not find the Break/Points window among the windows macOS listed"@
    }
}

/// Which window is ours: the first with our title, or failing that the first of
/// our app.
pub fn pick_window(ws: &Vec<Listed>) -> (r: Result<usize, String>)
    ensures
        match r {
            Ok(i) => {
                &&& i < ws@.len()
                &&& {
                    ||| is_our_title(ws@[i as int]) && forall|k: int|
                        0 <= k < i ==> !is_our_title(#[trigger] ws@[k])
                    ||| is_our_app(ws@[i as int]) && (forall|k: int|
                        0 <= k < ws@.len() ==> !is_our_title(#[trigger] ws@[k])) && (forall|
                        k: int,
                    |
                        0 <= k < i ==> !is_our_app(#[trigger] ws@[k]))
                }
            },
            Err(e) => {
                &&& forall|k: int|
                    0 <= k < ws@.len() ==> !is_our_title(#[trigger] ws@[k]) && !is_our_app(ws@[k])
                &&& e@ == not_found(titled_in(ws@))
            },
        },
{
    let mut i: usize = 0;
    while i < ws.len()
        invariant
            i <= ws@.len(),
            forall|k: int| 0 <= k < i ==> !is_our_title(#[trigger] ws@[k]),
        decreases ws@.len() - i,
    {
        if let Some(t) = &ws[i].title {
            if is_ours(t.as_str()) {
                return Ok(i);
            }
        }
        i += 1;
    }
    let mut j: usize = 0;
    while j < ws.len()
        invariant
            j <= ws@.len(),
            forall|k: int| 0 <= k < ws@.len() ==> !is_our_title(#[trigger] ws@[k]),
            forall|k: int| 0 <= k < j ==> !is_our_app(#[trigger] ws@[k]),
        decreases ws@.len() - j,
    {
        if let Some(a) = &ws[j].app_name {
            if is_ours(a.as_str()) {
                return Ok(j);
            }
        }
        j += 1;
    }
    let titled: usize = count_titled(ws);
    if titled <= 1 {
        let mut e =
            "macOS is not letting Break/Points see the screen, so there is nothing to capture: it can list ".to_owned();
        e.append(number_string(titled).as_str());
        e.append(" window(s) and no titles. ");
        e.append(PERMISSION_HINT);
        Err(e)
    } else {
        Err("could not find the Break/Points window among the windows macOS listed".to_owned())
    }
}

/// Where the row has to be scrolled to for a panel to be on screen.
pub open spec fn in_view_at(home_x: int, total_width: int, window_width: int) -> int {
    let most = at_least(total_width - window_width, 0);
    let to = home_x - 24_000_000;
    if to < 0 {
        0
    } else if to > most {
        most
    } else {
        to
    }
}

/// Scroll the row so a panel is on screen: where to, or `None` when it is there
/// already. A panel scrolled off the right edge cannot be captured where it is.
pub fn bring_into_view(canvas: &Canvas, id: &str, window_width: i64) -> (r: Result<
    Option<i128>,
    String,
>)
    requires
        in_reach(canvas@),
    ensures
        match panel_of(canvas@.panels, id@) {
            None => r matches Err(e) && e@ == "panel disappeared"@,
            Some(i) => {
                let needed = in_view_at(
                    canvas@.panels[i].home_x as int,
                    canvas@.total_width as int,
                    window_width as int,
                );
                let there = -1_000_000 <= canvas@.scroll_x - needed <= 1_000_000;
                r matches Ok(to) && match to {
                    Some(x) => !there && x == needed,
                    None => there,
                }
            },
        },
{
    match canvas.find(id) {
        None => Err("panel disappeared".to_owned()),
        Some(i) => {
            assert(canvas@.panels[i as int] == canvas.panels@[i as int]@);
            let to: i128 = canvas.panels[i].home_x - 24_000_000;
            let wide: i128 = canvas.total_width - window_width as i128;
            let most: i128 = if wide < 0 {
                0
            } else {
                wide
            };
            let needed: i128 = if to < 0 {
                0
            } else if to > most {
                most
            } else {
                to
            };
            let apart: i128 = canvas.scroll_x - needed;
            if apart > 1_000_000 || apart < -1_000_000 {
                Ok(Some(needed))
            } else {
                Ok(None)
            }
        },
    }
}

/// Where a panel sits in the window.
#[derive(Debug, Clone, Copy, PartialEq, Eq, Structural)]
pub struct Sits {
    pub x: i128,
    pub y: i64,
    pub width: i128,
    pub height: i128,
}

pub fn sits_at(canvas: &Canvas, id: &str) -> (r: Result<(Sits, String), String>)
    requires
        in_reach(canvas@),
    ensures
        match panel_of(canvas@.panels, id@) {
            None => r matches Err(e) && e@ == "panel disappeared"@,
            Some(i) => {
                let p = canvas@.panels[i];
                r matches Ok((s, name)) && name@ == p.viewport.name && s == (Sits {
                    x: (p.home_x - canvas@.scroll_x) as i128,
                    y: PANEL_TOP,
                    width: p.width,
                    height: p.height,
                })
            },
        },
{
    match canvas.find(id) {
        None => Err("panel disappeared".to_owned()),
        Some(i) => {
            assert(canvas@.panels[i as int] == canvas.panels@[i as int]@);
            let p = &canvas.panels[i];
            Ok(
                (
                    Sits {
                        x: p.home_x - canvas.scroll_x,
                        y: PANEL_TOP,
                        width: p.width,
                        height: p.height,
                    },
                    p.viewport.name.as_str().to_owned(),
                ),
            )
        },
    }
}

/// A place on a page, in a picture of it: how far down, in the picture's own
/// pixels. The panel's on-screen height is the viewport times the zoom, so one
/// pixel of page is `on_screen / view` of image.
pub open spec fn picture_row(css: int, on_screen: int, view: int, scale: int) -> int {
    let n = css * on_screen * scale;
    let m = view * 1_000_000_000_000;
    (2 * n + m) / (2 * m)
}

/// The tallest screenful of a page that is captured, in millionths: ten million
/// pixels.
pub const TALLEST: i64 = 10_000_000_000_000;

/// As far down a page as screenfuls that tall can go.
pub const FURTHEST: i64 = 200_000_000_000_000;

pub fn row_in_picture(css: i64, on_screen: i64, view: i64, scale: i64) -> (r: u32)
    requires
        0 <= css <= FURTHEST,
        0 <= on_screen <= TALLEST,
        1_000_000 <= view <= TALLEST,
        0 <= scale <= 100_000_000,
    ensures
        ({
            let v = picture_row(css as int, on_screen as int, view as int, scale as int);
            r == if v > u32::MAX {
                u32::MAX as int
            } else {
                v
            }
        }),
{
    let a: i128 = css as i128;
    let b: i128 = on_screen as i128;
    let c: i128 = scale as i128;
    assert(0 <= a * b <= 2_000_000_000_000_000_000_000_000_000) by (nonlinear_arith)
        requires
            0 <= a <= 200_000_000_000_000,
            0 <= b <= 10_000_000_000_000,
    ;
    let ab: i128 = a * b;
    assert(0 <= ab * c <= 200_000_000_000_000_000_000_000_000_000_000_000) by (nonlinear_arith)
        requires
            0 <= ab <= 2_000_000_000_000_000_000_000_000_000,
            0 <= c <= 100_000_000,
    ;
    let n: i128 = ab * c;
    let m: i128 = view as i128 * 1_000_000_000_000;
    let q: i128 = (2 * n + m) / (2 * m);
    assert(q >= 0) by (nonlinear_arith)
        requires
            q == (2 * n + m) / (2 * m),
            n >= 0,
            m > 0,
    ;
    if q > u32::MAX as i128 {
        u32::MAX
    } else {
        q as u32
    }
}

/// The name of a screenshot's file.
pub fn shot_name(name: &str, id: &str, now_ms: u64) -> (r: String)
    ensures
        r@ == slug_of(name@) + "-"@ + id@ + "-"@ + decimal(now_ms as nat) + ".png"@,
{
    let mut out = slugify(name);
    out.append("-");
    out.append(id);
    out.append("-");
    out.append(decimal_string(now_ms).as_str());
    out.append(".png");
    out
}

/// The script that measures a page before it is walked.
pub const MEASURE_SCRIPT: &'static str =
    "var el = document.documentElement; return { total: Math.max(el.scrollHeight, document.body ? document.body.scrollHeight : 0), view: window.innerHeight, was: window.scrollY };";

/// What is said of a page that has no height to walk.
pub const NO_VIEW: &'static str =
    "the page reported no viewport height, so there is nothing to walk";

/// What is said of a page that no picture can hold.
pub const TOO_LARGE: &'static str = "the picture is too large to work on";

/// A page being captured a screenful at a time.
#[derive(Debug)]
pub struct Stitching {
    pub out: Picture,
    /// The screenful that comes next.
    pub tile: usize,
    pub tiles: usize,
    /// How tall a screenful of the page is, in the page's own pixels.
    pub view: i64,
    /// How tall the panel is on screen.
    pub on_screen: i64,
    pub scale: i64,
    /// Whether the page goes on below the last screenful.
    pub truncated: bool,
}

impl Stitching {
    pub open spec fn is_under_way(&self) -> bool {
        &&& self.out.is_whole()
        &&& self.tile <= self.tiles <= MAX_TILES
        &&& 1_000_000 <= self.view <= TALLEST
        &&& 0 <= self.on_screen <= TALLEST
        &&& 0 <= self.scale <= 100_000_000
    }

    /// The row of the picture that a place on the page falls on.
    pub open spec fn row_of(&self, css: int) -> int {
        row_at(css, self.on_screen, self.view, self.scale)
    }
}

/// A place on a page within what a picture is made of.
pub open spec fn on_page(css: int) -> int {
    if css < 0 {
        0
    } else if css > FURTHEST {
        FURTHEST as int
    } else {
        css
    }
}

/// The row of a picture that a place on the page falls on, as far as a picture
/// goes.
pub open spec fn row_at(css: int, on_screen: i64, view: i64, scale: i64) -> int {
    in_picture(picture_row(on_page(css), on_screen as int, view as int, scale as int)) as int
}

/// Whether a page of these measurements can be made into one picture.
pub open spec fn can_be_walked(total: i64, view: i64, rect: Rect, scale: i64) -> bool {
    &&& view <= TALLEST
    &&& 0 <= rect.height <= TALLEST
    &&& 0 <= scale <= 100_000_000
    &&& can_be_held(
        in_picture(physical(rect.width, scale)),
        at_least(row_at(captured_of(total as int, view as int), rect.height, view, scale), 1)
            as u32,
    )
}

/// How many screenfuls of a page are captured.
pub open spec fn tiles_of(total: int, view: int) -> int {
    if screens(total, view) < 1 {
        1
    } else if screens(total, view) > MAX_TILES {
        MAX_TILES as int
    } else {
        screens(total, view)
    }
}

/// How much of a page those screenfuls come to.
pub open spec fn captured_of(total: int, view: int) -> int {
    if tiles_of(total, view) * view < total {
        tiles_of(total, view) * view
    } else {
        total
    }
}

/// Start on a page that is `total` tall and shows `view` of itself at a time,
/// in a panel drawn at `rect`.
pub fn begin_stitching(total: i64, view: i64, rect: &Rect, scale: i64) -> (r: Result<
    Stitching,
    String,
>)
    ensures
        if view < 1_000_000 {
            r matches Err(e) && e@ == NO_VIEW@
        } else if !can_be_walked(total, view, *rect, scale) {
            r matches Err(e) && e@ == TOO_LARGE@
        } else {
            &&& r matches Ok(s)
            &&& s.is_under_way()
            &&& s.tile == 0
            &&& s.tiles == tiles_of(total as int, view as int)
            &&& s.truncated == (screens(total as int, view as int) > MAX_TILES)
            &&& s.view == view
            &&& s.on_screen == rect.height
            &&& s.scale == scale
            &&& s.out.width == in_picture(physical(rect.width, scale))
            &&& s.out.height == at_least(
                s.row_of(captured_of(total as int, view as int)),
                1,
            )
            &&& forall|i: int|
                0 <= i < s.out.pixels@.len() ==> s.out.pixels@[i] == nothing()
        },
{
    if view < 1_000_000 {
        return Err(NO_VIEW.to_owned());
    }
    let plan = stitch_plan(total, view, MAX_TILES);
    assert(plan.captured == captured_of(total as int, view as int));
    if view > TALLEST || rect.height < 0 || rect.height > TALLEST
        || scale < 0 || scale > 100_000_000 {
        return Err(TOO_LARGE.to_owned());
    }
    assert(plan.captured <= FURTHEST) by (nonlinear_arith)
        requires
            plan.captured <= plan.tiles * view,
            plan.tiles <= 20,
            0 < view <= 10_000_000_000_000,
            FURTHEST == 200_000_000_000_000,
    ;
    let css: i64 = if plan.captured < 0 {
        0
    } else {
        plan.captured
    };
    let width: u32 = to_physical(rect.width, scale);
    let row: u32 = row_in_picture(css, rect.height, view, scale);
    let height: u32 = if row < 1 {
        1
    } else {
        row
    };
    match (width as usize).checked_mul(height as usize) {
        None => Err(TOO_LARGE.to_owned()),
        Some(_) => Ok(
            Stitching {
                out: Picture::blank(width, height),
                tile: 0,
                tiles: plan.tiles,
                view,
                on_screen: rect.height,
                scale,
                truncated: plan.truncated,
            },
        ),
    }
}

impl Stitching {
    /// How far down the page the next screenful starts, unless there is none.
    pub fn wanted(&self) -> (r: Option<i64>)
        requires
            self.is_under_way(),
        ensures
            match r {
                Some(at) => self.tile < self.tiles && at == self.tile * self.view,
                None => self.tile == self.tiles,
            },
    {
        if self.tile < self.tiles {
            let tile: usize = self.tile;
            let view: i64 = self.view;
            assert(0 <= tile * view <= 20 * 10_000_000_000_000) by (nonlinear_arith)
                requires
                    tile <= 20,
                    0 <= view <= 10_000_000_000_000,
            ;
            Some(self.tile as i64 * self.view)
        } else {
            None
        }
    }

    /// Put in the screenful that was captured where the page landed. The last
    /// one always lands short of where it was sent, so it is put where it
    /// landed. One that lands below the picture ends the walk.
    pub fn take(&mut self, landed: i64, shot: &Picture)
        requires
            old(self).is_under_way(),
            old(self).tile < old(self).tiles,
            shot.is_whole(),
        ensures
            final(self).is_under_way(),
            *final(self) == (Stitching {
                out: final(self).out,
                tile: if old(self).row_of(landed as int) >= old(self).out.height {
                    old(self).tiles
                } else {
                    (old(self).tile + 1) as usize
                },
                ..*old(self)
            }),
            final(self).out.width == old(self).out.width,
            final(self).out.height == old(self).out.height,
            forall|u: int, v: int|
                old(self).out.has(u, v) ==> #[trigger] final(self).out.at(u, v) == {
                    let top = old(self).row_of(landed as int);
                    if u < shot.width && top <= v < top + shot.height {
                        shot.at(u, v - top)
                    } else {
                        old(self).out.at(u, v)
                    }
                },
    {
        let css: i64 = if landed < 0 {
            0
        } else if landed > FURTHEST {
            FURTHEST
        } else {
            landed
        };
        let top: u32 = row_in_picture(css, self.on_screen, self.view, self.scale);
        if top >= self.out.height {
            self.tile = self.tiles;
        } else {
            stitch(&mut self.out, shot, top);
            self.tile = self.tile + 1;
        }
    }
}

/// The script that scrolls to one tile and says where it landed. Anything fixed
/// or sticky is hidden after the first tile, or a sticky header repeats down
/// the whole image. The last tile always lands short, and guessing by how much
/// is how a stitched shot ends up with a repeated strip through it.
pub fn tile_script(tile: usize, wanted: i64) -> (r: String)
    ensures
        r@ == "window.scrollTo(0, "@ + crate::scanner::units::px_text(wanted as int)
            + "); if ("@ + decimal(tile as nat)
            + " === 1) { window.__bpHidePinned && window.__bpHidePinned(); } return window.scrollY;"@,
{
    let mut out = "window.scrollTo(0, ".to_owned();
    out.append(crate::scanner::units::px_string(wanted).as_str());
    out.append("); if (");
    out.append(number_string(tile).as_str());
    out.append(
        " === 1) { window.__bpHidePinned && window.__bpHidePinned(); } return window.scrollY;",
    );
    out
}

/// The script that puts a page back where it was.
pub fn restore_script(was: i64) -> (r: String)
    ensures
        r@ == "window.__bpShowPinned && window.__bpShowPinned(); window.scrollTo(0, "@
            + crate::scanner::units::px_text(was as int) + "); return 1;"@,
{
    let mut out =
        "window.__bpShowPinned && window.__bpShowPinned(); window.scrollTo(0, ".to_owned();
    out.append(crate::scanner::units::px_string(was).as_str());
    out.append("); return 1;");
    out
}

/// A window is ours by either spelling of the name.
pub proof fn our_window_has_our_name(before: Seq<char>, after: Seq<char>)
    ensures
        names_us(before + "break/points"@ + after),
        names_us(before + "breakpoints"@ + after),
        forall|s: Seq<char>| #[trigger]
            names_us(s) ==> has(s, "break/points"@) || has(s, "breakpoints"@),
{
    lemma_has_middle(before, "break/points"@, after);
    lemma_has_middle(before, "breakpoints"@, after);
}

proof fn lemma_has_middle(before: Seq<char>, pat: Seq<char>, after: Seq<char>)
    ensures
        has(before + pat + after, pat),
{
    let s = before + pat + after;
    let i = before.len() as int;
    assert(s.subrange(i, i + pat.len()) =~= pat);
    assert(crate::text::matches_at(s, pat, i));
}

/// Where no window has a title but one, it is permission that is missing;
/// otherwise it is the window.
pub proof fn a_blind_capture_asks_for_permission(ws: Seq<Listed>)
    ensures
        titled_in(ws) == ws.filter(
            |w: Listed| w.title is Some && w.title->0@.len() > 0,
        ).len(),
        titled_in(ws) >= 2 ==> not_found(titled_in(ws))
            == "could not find the Break/Points window among the windows macOS listed"@,
        titled_in(ws) <= 1 ==> crate::text::begins(
            not_found(titled_in(ws)),
            "macOS is not letting Break/Points see the screen, so there is nothing to capture: it can list "@
                + decimal(titled_in(ws)),
        ),
{
    lemma_titled(ws);
    if titled_in(ws) <= 1 {
        let front =
            "macOS is not letting Break/Points see the screen, so there is nothing to capture: it can list "@
            + decimal(titled_in(ws));
        assert(not_found(titled_in(ws)).subrange(0, front.len() as int) =~= front);
    }
}

proof fn lemma_titled(ws: Seq<Listed>)
    ensures
        titled_in(ws) == ws.filter(
            |w: Listed| w.title is Some && w.title->0@.len() > 0,
        ).len(),
    decreases ws.len(),
{
    reveal(Seq::filter);
    if ws.len() > 0 {
        lemma_titled(ws.drop_last());
    }
}

/// Panning a panel into view puts its left edge a margin in from the window's,
/// or as near as the ends of the row allow.
pub proof fn a_panel_is_panned_into_view(home_x: int, total_width: int, window_width: int)
    requires
        home_x >= 0,
    ensures
        ({
            let x = in_view_at(home_x, total_width, window_width);
            let most = if total_width > window_width {
                total_width - window_width
            } else {
                0
            };
            &&& 0 <= x <= most
            &&& x <= home_x
            &&& 24_000_000 <= home_x <= most + 24_000_000 ==> home_x - x == 24_000_000
            &&& home_x < 24_000_000 ==> x == 0
            &&& home_x > most + 24_000_000 ==> x == most
        }),
{
}

/// A shot takes as many screenfuls as the page is tall, at least one and at
/// most twenty, and shows the page down to its end or to the end of the last.
pub proof fn a_shot_takes_a_screenful_at_a_time(total: int, view: int)
    requires
        view > 0,
    ensures
        1 <= tiles_of(total, view) <= 20,
        0 < total <= 20 * view ==> {
            &&& tiles_of(total, view) * view >= total
            &&& (tiles_of(total, view) - 1) * view < total
            &&& captured_of(total, view) == total
        },
        total > 20 * view ==> tiles_of(total, view) == 20 && captured_of(total, view) == 20 * view,
{
    if total > 0 {
        let n = (total + view - 1) / view;
        vstd::arithmetic::div_mod::lemma_fundamental_div_mod(total + view - 1, view);
        vstd::arithmetic::div_mod::lemma_mod_bound(total + view - 1, view);
        let r = (total + view - 1) % view;
        assert(n * view == view * n) by (nonlinear_arith);
        assert((n - 1) * view == n * view - view) by (nonlinear_arith);
        assert(n >= 1) by (nonlinear_arith)
            requires
                total + view - 1 == view * n + r,
                0 <= r < view,
                total > 0,
        ;
        if total <= 20 * view {
            assert(n <= 20) by (nonlinear_arith)
                requires
                    total + view - 1 == view * n + r,
                    0 <= r < view,
                    total <= 20 * view,
                    view > 0,
            ;
        } else {
            assert(n > 20) by (nonlinear_arith)
                requires
                    total + view - 1 == view * n + r,
                    0 <= r < view,
                    total > 20 * view,
                    view > 0,
            ;
        }
    }
}

} // verus!
