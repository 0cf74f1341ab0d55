use breakpoints::scanner::types::Edge;
use breakpoints::scanner::units::{
    flip, hit_for, overrides_root_font_size, parse_length, px_string, widths_in_query,
};

/// Whole pixels.
fn px(v: i64) -> i64 {
    v * 1_000_000
}

/// The form the range syntax exists for, and the one that matched nothing.
#[test]
fn a_double_ended_range_gives_both_boundaries() {
    let hits = widths_in_query("(48rem <= width < 64rem)");
    assert_eq!(hits.len(), 2, "{hits:?}");
    assert_eq!(hits[0].boundary, px(768));
    assert_eq!(hits[0].edge, Edge::Min);
    assert_eq!(hits[1].boundary, px(1024));
    assert_eq!(hits[1].edge, Edge::Max);

    let pixels = widths_in_query("(400px <= width <= 700px)");
    assert_eq!(pixels.len(), 2, "{pixels:?}");
    assert_eq!(pixels[0].boundary, px(400));
    assert_eq!(pixels[1].boundary, px(701), "inclusive upper bound ends at 701");
}

/// Written the other way round, which is valid and rare.
#[test]
fn a_range_written_downwards_still_reads_left_to_right() {
    let hits = widths_in_query("(64rem > width >= 48rem)");
    assert_eq!(hits.len(), 2, "{hits:?}");
    assert_eq!(hits[0].boundary, px(768));
    assert_eq!(hits[0].edge, Edge::Min);
    assert_eq!(hits[1].boundary, px(1024));
    assert_eq!(hits[1].edge, Edge::Max);
}

/// The single-sided forms have to keep working exactly as they did.
#[test]
fn single_sided_ranges_are_unchanged() {
    assert_eq!(widths_in_query("(width >= 48rem)")[0].boundary, px(768));
    assert_eq!(widths_in_query("(768px <= width)")[0].boundary, px(768));
    assert!(widths_in_query("(prefers-reduced-motion: reduce)").is_empty());
}

fn boundaries(query: &str) -> Vec<i64> {
    widths_in_query(query).into_iter().map(|h| h.boundary).collect()
}

#[test]
fn lengths_convert_from_every_unit_that_is_a_width() {
    assert_eq!(parse_length("768px"), Some(px(768)));
    assert_eq!(parse_length("48rem"), Some(px(768)));
    assert_eq!(parse_length("'640px'"), Some(px(640)));
    assert_eq!(parse_length("1024"), Some(px(1024)));
    assert_eq!(parse_length("100vw"), None);
    assert_eq!(parse_length("infinite"), None);
}

#[test]
fn queries_without_a_width_are_dropped_entirely() {
    assert!(widths_in_query("print").is_empty());
    assert!(widths_in_query("(prefers-reduced-motion: reduce)").is_empty());
    assert!(widths_in_query("(-webkit-min-device-pixel-ratio: 2)").is_empty());
    assert!(widths_in_query("(orientation: landscape)").is_empty());
}

#[test]
fn a_bootstrap_style_pair_lands_on_the_same_boundary() {
    assert_eq!(boundaries("(max-width: 767.98px)"), vec![px(768)]);
    assert_eq!(boundaries("screen and (min-width: 768px)"), vec![px(768)]);
    assert_eq!(boundaries("(max-width: 767px)"), vec![px(768)]);
}

#[test]
fn both_media_query_syntaxes_are_understood() {
    assert_eq!(boundaries("(width >= 48rem)"), vec![px(768)]);
    assert_eq!(boundaries("(768px <= width)"), vec![px(768)]);
    assert_eq!(boundaries("(width < 768px)"), vec![px(768)]);
}

#[test]
fn a_range_query_yields_both_of_its_boundaries() {
    assert_eq!(
        boundaries("(min-width: 768px) and (max-width: 1023px)"),
        vec![px(768), px(1024)]
    );
}

#[test]
fn a_moved_root_font_size_is_noticed_but_the_usual_values_are_not() {
    assert_eq!(
        overrides_root_font_size("html { font-size: 62.5%; }"),
        Some("62.5%".into())
    );
    assert_eq!(overrides_root_font_size("html { font-size: 100%; }"), None);
    assert_eq!(overrides_root_font_size("body { font-size: 14px; }"), None);
}

#[test]
fn a_length_no_screen_has_is_no_length() {
    assert_eq!(parse_length("0"), None);
    assert_eq!(parse_length("10000px"), Some(px(10_000)));
    assert_eq!(parse_length("10001px"), None);
    assert_eq!(parse_length("62.5em"), Some(px(1000)));
    assert_eq!(parse_length(" \"37.5em\" "), Some(px(600)));
}

#[test]
fn an_operator_read_from_both_sides_is_itself_again() {
    for op in [">=", "<=", ">", "<"] {
        assert_eq!(flip(flip(op)), op);
    }
    assert_eq!(flip(">="), "<=");
}

#[test]
fn a_range_that_ends_inclusively_starts_again_one_pixel_up() {
    assert_eq!(hit_for("<=", px(767)).boundary, px(768));
    assert_eq!(hit_for(">", px(767)).boundary, px(768));
    assert_eq!(hit_for("<", px(768)).boundary, px(768));
    assert_eq!(hit_for("<=", 767_980_000).boundary, px(768));
    assert_eq!(hit_for("<=", 767_980_000).raw, 767_980_000);
}

#[test]
fn a_width_is_written_with_the_digits_it_needs() {
    assert_eq!(px_string(px(768)), "768");
    assert_eq!(px_string(767_980_000), "767.98");
}

/// The widest length is the widest to the last digit.
#[test]
fn a_digit_past_the_millionth_counts_at_the_limit() {
    assert_eq!(parse_length("10000px"), Some(px(10_000)));
    assert_eq!(parse_length("10000.0000000px"), Some(px(10_000)));
    assert_eq!(parse_length("10000.0000001px"), None);
    assert_eq!(parse_length("625.00000001rem"), None);
    assert_eq!(parse_length("768.0000001px"), Some(px(768)));
}

#[test]
fn five_spellings_of_one_boundary_are_one_boundary() {
    for query in [
        "(min-width: 768px)",
        "(max-width: 767px)",
        "(max-width: 767.98px)",
        "(width >= 768px)",
        "(width < 768px)",
    ] {
        let at: Vec<i64> = widths_in_query(query).iter().map(|h| h.boundary).collect();
        assert_eq!(at, vec![px(768)], "{query}");
    }
}

/// What a pattern matched is cut out by characters, whatever stands before it.
#[test]
fn a_width_is_read_behind_wide_characters() {
    let hits = widths_in_query("\u{e9}\u{6f22}\u{1f4a1} (min-width: 768px) \u{e9}");
    assert_eq!(hits.len(), 1);
    assert_eq!(hits[0].boundary, px(768));
    let hits = widths_in_query("\u{1f4a1}(48rem <= width < 64rem)");
    let at: Vec<i64> = hits.iter().map(|h| h.boundary).collect();
    assert_eq!(at, vec![px(768), px(1024)]);
}
