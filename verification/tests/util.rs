use breakpoints::util::{
    civil_from_days, format_iso, hex_string, normalize_url, now_iso, random_token, short_hash,
    slugify, today_iso,
};

#[test]
fn bare_hosts_become_https_and_localhost_stays_http() {
    assert_eq!(normalize_url("example.com").as_str(), "https://example.com/");
    assert_eq!(
        normalize_url("localhost:5173").as_str(),
        "http://localhost:5173/"
    );
    assert_eq!(
        normalize_url("http://foo.test/a").as_str(),
        "http://foo.test/a"
    );
}

#[test]
fn the_epoch_formats_as_the_epoch() {
    assert_eq!(format_iso(0), "1970-01-01T00:00:00Z");
    assert_eq!(format_iso(1_757_376_000), "2025-09-09T00:00:00Z");
}

#[test]
fn the_hash_changes_when_a_width_changes() {
    let a = short_hash(&vec!["640".into(), "768".into()]);
    let b = short_hash(&vec!["640".into(), "769".into()]);
    assert_ne!(a, b);
    assert_eq!(a.len(), 8);
}

#[test]
fn slugs_collapse_runs_of_punctuation() {
    assert_eq!(slugify("Bucknell Be The Ray"), "bucknell-be-the-ray");
    assert_eq!(slugify("/Users/rick/Sites/"), "users-rick-sites");
}

#[test]
fn a_leap_day_is_a_day_of_its_own() {
    assert_eq!(civil_from_days(0), (1970, 1, 1));
    assert_eq!(civil_from_days(11_016), (2000, 2, 29));
    assert_eq!(civil_from_days(11_017), (2000, 3, 1));
    assert_eq!(format_iso(951_827_696), "2000-02-29T12:34:56Z");
}

#[test]
fn the_date_of_a_moment_is_where_it_begins() {
    assert_eq!(now_iso(1_757_376_000_999), "2025-09-09T00:00:00Z");
    assert_eq!(today_iso(1_757_376_000_999), "2025-09-09");
}

#[test]
fn bytes_are_two_hex_digits_each() {
    assert_eq!(hex_string(&[0, 15, 16, 255]), "000f10ff");
    assert_eq!(hex_string(&[]), "");
}

#[test]
fn a_hash_is_the_start_of_the_digest() {
    // SHA-256 of nothing at all begins e3b0c442.
    assert_eq!(short_hash(&vec![]), "e3b0c442");
}

#[test]
fn a_token_is_as_long_as_was_asked_and_not_the_same_twice() {
    let a = random_token(16);
    let b = random_token(16);
    assert_eq!(a.len(), 32);
    assert!(a.chars().all(|c| c.is_ascii_hexdigit()));
    assert_ne!(a, b);
}

#[test]
fn an_address_that_cannot_be_read_is_a_blank_page() {
    assert_eq!(normalize_url("https://["), "about:blank");
    assert_eq!(normalize_url("about:blank"), "about:blank");
}

#[test]
fn a_slug_is_its_own_slug() {
    for name in ["Bucknell Be The Ray", "--A  b--", "", "caf\u{e9}/2"] {
        let slug = slugify(name);
        assert_eq!(slugify(&slug), slug, "{name}");
    }
}
