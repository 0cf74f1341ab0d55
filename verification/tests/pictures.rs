use breakpoints::baseline::{
    baseline_name, compared, difference, measure, taken, Comparison, Difference, Outcome, Shot,
};
use breakpoints::canvas::row::Canvas;
use breakpoints::model::Viewport;
use breakpoints::picture::{
    changed_tenths, crop, difference_image, resize_nearest, stitch, stitch_plan, Picture, Pixel,
    Rect,
};
use breakpoints::references::{attach, from_project_file, reference_for};
use breakpoints::shots::{begin_stitching, is_ours, NO_VIEW, TOO_LARGE};
use breakpoints::state::AppState;

fn px(v: i64) -> i64 {
    v * 1_000_000
}

fn grey(v: u8) -> Pixel {
    Pixel { red: v, green: v, blue: v, alpha: 255 }
}

fn solid(width: u32, height: u32, v: u8) -> Picture {
    Picture::solid(width, height, grey(v))
}

fn dimensions(p: &Picture) -> (u32, u32) {
    (p.width, p.height)
}

#[test]
fn a_white_pixel_does_not_bring_the_diff_down() {
    // This is the bug. Fading the original towards a light grey did
    // `200 - grey` on an unsigned type, so anything brighter than 200
    // underflowed and panicked the worker thread. A screenshot of almost
    // any real site has white in it, so diff_panel returned nothing at all.
    let live = solid(4, 4, 255);
    let comp = solid(4, 4, 255);
    let (image, changed) = difference_image(&live, &comp);
    assert_eq!(changed, 0, "identical images differ nowhere");
    assert_eq!(dimensions(&image), (4, 4));
}

#[test]
fn every_brightness_survives_the_fade() {
    for shade in 0..=255u8 {
        let frame = solid(1, 1, shade);
        let (image, _) = difference_image(&frame, &frame);
        let faded = image.get_pixel(0, 0).red;
        assert!(
            (80..=200).contains(&faded),
            "grey {shade} faded to {faded}, outside the intended range"
        );
    }
}

#[test]
fn pixels_further_apart_than_the_threshold_are_counted() {
    let live = solid(2, 2, 0);
    let comp = solid(2, 2, 255);
    let (image, changed) = difference_image(&live, &comp);
    assert_eq!(changed, 4, "every pixel differs");
    let marked = image.get_pixel(0, 0);
    assert_eq!(
        [marked.red, marked.green, marked.blue, marked.alpha],
        [224, 87, 74, 255],
        "marked red"
    );
}

#[test]
fn a_difference_inside_the_threshold_is_not_a_difference() {
    // A live page never matches a comp exactly, so near-identical pixels
    // have to stay quiet or the figure is noise.
    let live = solid(2, 2, 100);
    let comp = solid(2, 2, 120);
    let (_, changed) = difference_image(&live, &comp);
    assert_eq!(changed, 0);
}

#[test]
fn resizing_reaches_the_asked_for_size_without_reading_past_the_source() {
    let source = solid(3, 7, 40);
    let out = resize_nearest(&source, 10, 4);
    assert_eq!(dimensions(&out), (10, 4));
    assert_eq!(out.get_pixel(9, 3).red, 40, "sampled a real pixel");
}

#[test]
fn an_empty_reference_gives_a_blank_image_rather_than_a_panic() {
    let source = Picture::blank(0, 0);
    let out = resize_nearest(&source, 5, 5);
    assert_eq!(dimensions(&out), (5, 5));
}

#[test]
fn a_source_already_the_right_size_is_passed_straight_through() {
    let source = solid(6, 6, 12);
    let out = resize_nearest(&source, 6, 6);
    assert_eq!(out.get_pixel(3, 3).red, 12);
}

/// A gradient, so a crop that lands in the wrong place is obvious rather
/// than merely the wrong size.
fn ramp(width: u32, height: u32) -> Picture {
    let mut out = Picture::blank(width, height);
    for y in 0..height {
        for x in 0..width {
            out.put_pixel(
                x,
                y,
                Pixel { red: (x % 256) as u8, green: (y % 256) as u8, blue: 0, alpha: 255 },
            );
        }
    }
    out
}

fn rect(x: i64, y: i64, width: i64, height: i64) -> Rect {
    Rect { x: px(x), y: px(y), width: px(width), height: px(height) }
}

#[test]
fn all_three_spellings_of_our_own_name_are_recognised() {
    // The bundle cannot hold a slash, the window title does, and a dev
    // build is lowercase. Matching "Break" case-sensitively meant
    // screenshots silently never worked outside a release bundle.
    assert!(is_ours("Break/Points"));
    assert!(is_ours("BreakPoints"));
    assert!(is_ours("breakpoints"));
    assert!(is_ours("BreakPoints — bucknell-be-the-ray"));
}

#[test]
fn other_apps_are_not_mistaken_for_us() {
    assert!(!is_ours("Safari"));
    assert!(!is_ours("Menubar"));
    assert!(!is_ours("Break Time"));
    assert!(!is_ours(""));
}

#[test]
fn a_crop_at_one_to_one_takes_the_rect_it_was_given() {
    let image = ramp(100, 50);
    let out = crop(&image, &rect(10, 5, 20, 8), px(1)).unwrap();
    assert_eq!(dimensions(&out), (20, 8));
    assert_eq!(out.get_pixel(0, 0).red, 10, "starts at x = 10");
    assert_eq!(out.get_pixel(0, 0).green, 5, "starts at y = 5");
}

#[test]
fn a_retina_crop_goes_through_the_scale_factor() {
    // The capture is in physical pixels and every rect the app tracks is
    // logical. Skipping the conversion lands the crop on the wrong quarter
    // of the image.
    let image = ramp(200, 100);
    let out = crop(&image, &rect(10, 5, 20, 8), px(2)).unwrap();
    assert_eq!(dimensions(&out), (40, 16), "twice the pixels");
    assert_eq!(out.get_pixel(0, 0).red, 20, "starts at physical x = 20");
    assert_eq!(out.get_pixel(0, 0).green, 10, "starts at physical y = 10");
}

#[test]
fn a_rect_running_off_the_edge_is_trimmed_rather_than_read_past() {
    let image = ramp(50, 50);
    let out = crop(&image, &rect(40, 40, 30, 30), px(1)).unwrap();
    assert_eq!(dimensions(&out), (10, 10), "clipped to what exists");
}

#[test]
fn a_panel_scrolled_off_screen_says_so_instead_of_returning_a_sliver() {
    let image = ramp(50, 50);
    assert!(crop(&image, &rect(80, 0, 20, 20), px(1)).is_err());
}

#[test]
fn a_page_two_and_a_bit_screens_tall_takes_three_screenfuls() {
    let plan = stitch_plan(px(2600), px(1000), 20);
    assert_eq!(plan.tiles, 3);
    assert_eq!(plan.captured, px(2600), "the image is the page's height, not three screens");
    assert!(!plan.truncated);
}

#[test]
fn a_page_exactly_one_screen_tall_takes_one() {
    let plan = stitch_plan(px(1000), px(1000), 20);
    assert_eq!(plan.tiles, 1);
    assert_eq!(plan.captured, px(1000));
    assert!(!plan.truncated);
}

#[test]
fn a_page_shorter_than_the_viewport_still_takes_one() {
    let plan = stitch_plan(px(400), px(1000), 20);
    assert_eq!(plan.tiles, 1);
    assert_eq!(plan.captured, px(400), "no padding below the content");
}

#[test]
fn a_page_that_grows_as_you_scroll_stops_and_says_so() {
    // Infinite scroll would otherwise walk until the disk filled.
    let plan = stitch_plan(px(500_000), px(1000), 20);
    assert_eq!(plan.tiles, 20);
    assert_eq!(plan.captured, px(20_000));
    assert!(plan.truncated, "the caller has to be able to say the shot is partial");
}

#[test]
fn a_rect_with_no_area_is_an_error_not_an_empty_png() {
    let image = ramp(50, 50);
    assert!(crop(&image, &rect(0, 0, 0, 10), px(1)).is_err());
}

#[test]
fn a_shot_is_laid_where_it_belongs() {
    let mut out = Picture::blank(2, 4);
    stitch(&mut out, &solid(2, 2, 9), 2);
    assert_eq!(out.get_pixel(0, 1).red, 0);
    assert_eq!(out.get_pixel(0, 2).red, 9);
    assert_eq!(changed_tenths(1, 1000), 1);
    assert_eq!(changed_tenths(1, 4), 250);
}

#[test]
fn a_width_that_did_not_move_is_quiet() {
    assert!(matches!(difference(&solid(4, 4, 9), &solid(4, 4, 9)), Difference::Quiet(0)));
    assert!(matches!(difference(&solid(4, 4, 0), &solid(4, 4, 255)), Difference::Changed(1000, _)));
    assert!(matches!(difference(&solid(4, 4, 0), &solid(4, 5, 0)), Difference::Resized));
}

fn spawned() -> Canvas {
    let mut canvas = Canvas::default();
    let v = Viewport::new("Tablet", px(768), px(1020), "md");
    let places = canvas.begin_row(&vec![v.clone()], "https://s.test/", px(700));
    for place in places {
        canvas.add_panel(v.clone(), place);
    }
    canvas
}

#[test]
fn a_comparison_says_which_widths_moved() {
    let panels = spawned().info(&AppState::default()).panels;
    let moved: Comparison = measure(&panels[0], Outcome::Found(250, "/shots/x.png".into()));
    assert!(moved.moved);
    let said = compared(vec![moved]);
    assert_eq!(said.moved, vec![px(768)]);
    assert!(said.unchanged.is_empty());
    assert!(said.summary.contains("768px"), "{}", said.summary);
    let missing = measure(&panels[0], Outcome::NoBaseline);
    assert!(missing.error.is_some());
    assert!(baseline_name("tablet-768").contains("tablet-768"));
    let kept = taken(
        vec![Shot {
            panel: "tablet-768".into(),
            panel_name: "Tablet".into(),
            width: px(768),
            path: "/shots/a.png".into(),
        }],
        vec![],
    );
    assert_eq!(kept.shots.len(), 1);
}

#[test]
fn a_reference_belongs_to_the_panel_it_was_attached_to() {
    let mut canvas = spawned();
    assert!(reference_for(&canvas, "md").is_err(), "nothing attached yet");
    assert!(attach(&mut canvas, "nothing", "x.png").is_err());
    attach(&mut canvas, "md", ".breakpoints/refs/tablet.png").unwrap();
    let (_, reference) = reference_for(&canvas, "md").unwrap();
    assert_eq!(reference, ".breakpoints/refs/tablet.png");
    let bound = from_project_file(&canvas.viewport_list());
    assert_eq!(bound.len(), 1);
    assert_eq!(bound[0].width, px(768));
}

#[test]
fn a_tall_page_is_stitched_where_it_landed() {
    let rect = Rect { x: 0, y: 0, width: px(2), height: px(4) };
    // Ten rows of page, four at a time, drawn one to one.
    let mut walk = begin_stitching(px(10), px(4), &rect, px(1)).unwrap();
    assert_eq!(dimensions(&walk.out), (2, 10));
    assert_eq!((walk.tiles, walk.truncated), (3, false));

    assert_eq!(walk.wanted(), Some(0));
    walk.take(0, &solid(2, 4, 1));
    assert_eq!(walk.wanted(), Some(px(4)));
    walk.take(px(4), &solid(2, 4, 2));
    // The last screenful is asked for at eight and lands at six.
    assert_eq!(walk.wanted(), Some(px(8)));
    walk.take(px(6), &solid(2, 4, 3));
    assert_eq!(walk.wanted(), None);

    let column: Vec<u8> = (0..10).map(|y| walk.out.get_pixel(0, y).red).collect();
    assert_eq!(column, vec![1, 1, 1, 1, 2, 2, 3, 3, 3, 3]);
}

#[test]
fn a_screenful_below_the_picture_ends_the_walk() {
    let rect = Rect { x: 0, y: 0, width: px(1), height: px(2) };
    let mut walk = begin_stitching(px(6), px(2), &rect, px(1)).unwrap();
    walk.take(px(50), &solid(1, 2, 9));
    assert_eq!(walk.wanted(), None);
    assert_eq!(walk.out.get_pixel(0, 0).red, 0);
}

#[test]
fn a_page_that_cannot_be_walked_says_why() {
    let rect = Rect { x: 0, y: 0, width: px(1), height: px(2) };
    assert_eq!(begin_stitching(px(6), 0, &rect, px(1)).unwrap_err(), NO_VIEW);
    assert_eq!(begin_stitching(px(6), i64::MAX, &rect, px(1)).unwrap_err(), TOO_LARGE);
    assert_eq!(begin_stitching(-1, px(2), &rect, px(1)).unwrap().out.height, 1);
    assert!(begin_stitching(px(500_000), px(1000), &rect, px(1)).unwrap().truncated);
}

/// However tall a page is, its first screenfuls are captured.
#[test]
fn only_the_first_screenfuls_of_a_very_tall_page_are_captured() {
    let rect = Rect { x: 0, y: 0, width: px(1), height: px(2) };
    for total in [px(30_000_000), i64::MAX] {
        let walk = begin_stitching(total, px(1000), &rect, px(1)).unwrap();
        assert_eq!((walk.tiles, walk.truncated), (20, true));
        assert_eq!(dimensions(&walk.out), (1, 40));
    }
    let walk = begin_stitching(i64::MAX, px(9_000_000), &rect, px(1)).unwrap();
    assert_eq!(dimensions(&walk.out), (1, 40));
}

#[test]
fn any_number_of_screenfuls_can_be_allowed() {
    let plan = stitch_plan(i64::MAX, 1, usize::MAX);
    assert_eq!(plan.captured, i64::MAX);
    assert!(!plan.truncated);
    let plan = stitch_plan(px(400), i64::MAX, usize::MAX);
    assert_eq!((plan.tiles, plan.captured), (1, px(400)));
}
