use breakpoints::generate::{
    band_name, collapse_edges, height_for, name_for, recommend, reference_device, title_case,
};
use breakpoints::model::HeightStrategy;
use breakpoints::scanner::types::{BreakpointDiscovery, Edge, Kind};

fn px(v: i64) -> i64 {
    v * 1_000_000
}

fn bp(width: i64, name: Option<&str>, kind: Kind, files: usize) -> BreakpointDiscovery {
    BreakpointDiscovery {
        width: px(width),
        name: name.map(str::to_string),
        source: "test".into(),
        source_file: "test.css".into(),
        line: None,
        confidence: 90,
        kind,
        edge: Edge::Min,
        file_count: files,
    }
}

#[test]
fn the_worked_example_from_the_plan_comes_out_exactly() {
    let widths = [640, 768, 1024, 1280, 1536];
    let heights: Vec<i64> = widths
        .iter()
        .map(|w| height_for(px(*w), HeightStrategy::DeviceRatio, px(900)))
        .collect();
    assert_eq!(heights, vec![px(850), px(1020), px(770), px(800), px(960)]);
}

#[test]
fn no_panel_comes_out_comically_short() {
    assert_eq!(height_for(px(320), HeightStrategy::DeviceRatio, px(900)), px(690));
    assert_eq!(height_for(px(900), HeightStrategy::DeviceRatio, px(900)), px(1200));
    assert_eq!(height_for(px(1024), HeightStrategy::DeviceRatio, px(900)), px(770));
}

#[test]
fn a_fixed_strategy_ignores_the_width_entirely() {
    assert_eq!(height_for(px(640), HeightStrategy::Fixed, px(900)), px(900));
    assert_eq!(height_for(px(1536), HeightStrategy::Fixed, px(900)), px(900));
}

#[test]
fn names_come_from_the_band_the_width_falls_in() {
    assert_eq!(band_name(px(375)), "Mobile");
    assert_eq!(band_name(px(640)), "Large Mobile");
    assert_eq!(band_name(px(768)), "Tablet");
    assert_eq!(band_name(px(1024)), "Laptop");
    assert_eq!(band_name(px(1280)), "Desktop");
    assert_eq!(band_name(px(1536)), "Wide");
}

#[test]
fn a_collision_is_disambiguated_by_the_framework_name_not_by_a_number() {
    let found = recommend(
        &vec![
            bp(768, Some("md"), Kind::Configured, 1),
            bp(900, Some("lg"), Kind::Configured, 1),
        ],
        HeightStrategy::DeviceRatio,
        px(900),
        false,
    );
    let names: Vec<String> = found.recommended.iter().map(|c| c.viewport.name.clone()).collect();
    assert_eq!(names, vec!["Tablet (md)", "Tablet (lg)"]);
}

#[test]
fn configured_breakpoints_are_checked_and_css_ones_are_only_offered() {
    let found = recommend(
        &vec![
            bp(768, Some("md"), Kind::Configured, 1),
            bp(900, None, Kind::Css, 3),
        ],
        HeightStrategy::DeviceRatio,
        px(900),
        false,
    );
    assert_eq!(found.recommended.len(), 1);
    assert_eq!(found.also_found.len(), 1);
    assert!(!found.also_found[0].checked);
    assert_eq!(found.also_found[0].detail, "used in 3 files");
}

#[test]
fn with_no_framework_the_most_used_css_widths_get_checked() {
    let found = recommend(
        &vec![
            bp(900, None, Kind::Css, 6),
            bp(1100, None, Kind::Css, 4),
            bp(1440, None, Kind::Css, 3),
            bp(1600, None, Kind::Css, 1),
        ],
        HeightStrategy::DeviceRatio,
        px(900),
        false,
    );
    assert_eq!(found.recommended.len(), 3);
    assert_eq!(found.also_found.len(), 1);
}

#[test]
fn nothing_found_falls_back_to_the_standard_device_sizes_and_says_so() {
    let found = recommend(&vec![], HeightStrategy::DeviceRatio, px(900), false);
    assert!(found.fallback);
    assert_eq!(found.recommended.len(), 5);
}

#[test]
fn edge_testing_adds_the_pixel_below_each_breakpoint() {
    let found = recommend(
        &vec![bp(768, Some("md"), Kind::Configured, 1)],
        HeightStrategy::DeviceRatio,
        px(900),
        true,
    );
    let widths: Vec<i64> = found.recommended.iter().map(|c| c.viewport.width).collect();
    assert_eq!(widths, vec![px(767), px(768)]);
}

#[test]
fn a_drupal_label_is_used_instead_of_the_band_name() {
    let mut discovery = bp(560, Some("narrow"), Kind::Configured, 1);
    discovery.source = "Drupal breakpoint mytheme.narrow".into();
    let found = recommend(&vec![discovery], HeightStrategy::DeviceRatio, px(900), false);
    assert_eq!(found.recommended[0].viewport.name, "Narrow");
}

#[test]
fn a_name_is_written_the_way_a_title_is() {
    assert_eq!(title_case("tablet landscape"), "Tablet landscape");
    assert_eq!(title_case("élan"), "Élan");
    assert!(!reference_device(px(375)).is_empty());
    assert_eq!(name_for(&bp(768, Some("md"), Kind::Configured, 1)), "Tablet");
}

#[test]
fn two_sides_of_one_boundary_are_one_panel() {
    let mut pair = vec![bp(768, None, Kind::Css, 1), bp(768, None, Kind::Css, 1)];
    pair[0].edge = Edge::Max;
    collapse_edges(&mut pair);
    let widths: Vec<i64> = pair.iter().map(|b| b.width).collect();
    assert_eq!(widths, vec![px(768)]);
    assert_eq!(pair[0].edge, Edge::Min);
}

#[test]
fn what_else_was_found_is_ranked_by_how_many_files_use_it() {
    let found = recommend(
        &vec![
            bp(768, Some("md"), Kind::Configured, 1),
            bp(900, None, Kind::Css, 1),
            bp(1100, None, Kind::Css, 5),
        ],
        HeightStrategy::DeviceRatio,
        px(900),
        false,
    );
    let widths: Vec<i64> = found.also_found.iter().map(|c| c.viewport.width).collect();
    assert_eq!(widths, vec![px(1100), px(900)]);
}
