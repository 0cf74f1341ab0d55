use breakpoints::scanner::jsobj::{
    blank_comments, child_key, depth_between, entries, find_key, line_of, match_braces,
    object_after_colon, Entry,
};

fn chars(s: &str) -> Vec<char> {
    blank_comments(s).chars().collect()
}

#[test]
fn comments_vanish_without_moving_anything_after_them() {
    let src = "a // note\nb /* x */ c";
    let out = blank_comments(src);
    assert_eq!(out.len(), src.len());
    assert_eq!(out.lines().count(), src.lines().count());
    assert!(!out.contains("note"));
}

#[test]
fn a_brace_inside_a_string_does_not_close_the_object() {
    let src = chars(r#"{ a: "}", b: 1 }"#);
    assert_eq!(match_braces(&src, 0), Some(src.len() - 1));
}

#[test]
fn screens_is_found_however_the_key_is_quoted() {
    for src in [r#"{ screens: {} }"#, r#"{ "screens": {} }"#, r#"{ 'screens' : {} }"#] {
        let c = chars(src);
        assert!(find_key(&c, "screens", 0).is_some(), "{src}");
    }
}

#[test]
fn a_key_that_is_only_a_substring_is_not_a_match() {
    let c = chars(r#"{ myscreens: {}, theme: { screens: {} } }"#);
    let colon = find_key(&c, "screens", 0).unwrap();
    // The first hit must be the real key, not the tail of `myscreens`.
    let open = object_after_colon(&c, colon).unwrap();
    assert!(open > 20);
}

#[test]
fn entries_come_back_with_their_values_as_written() {
    let c = chars(r#"{ sm: '640px', md: { min: '768px' }, ...rest, lg: base.lg }"#);
    let open = 0;
    let found = entries(&c, open);
    assert_eq!(found[0], Entry { key: "sm".into(), value: "'640px'".into(), offset: found[0].offset });
    assert_eq!(found[1].key, "md");
    assert!(found[1].value.starts_with('{'));
    assert_eq!(found[2].key, "");
    assert_eq!(found[2].value, "...rest");
    assert_eq!(found[3].value, "base.lg");
}

#[test]
fn only_a_direct_child_is_a_child() {
    let c = chars("{ a: { b: 1 }, b: 2 }");
    let b = child_key(&c, 0, "b").unwrap();
    assert_eq!(b, 16);
    assert_eq!(depth_between(&c, 0, 7), 2);
    assert_eq!(depth_between(&c, 0, 16), 1);
}

#[test]
fn an_object_that_is_never_closed_has_no_end() {
    let c = chars("{ a: 1");
    assert_eq!(match_braces(&c, 0), None);
    assert_eq!(object_after_colon(&chars("a: 1"), 1), None);
}

#[test]
fn an_object_begins_just_past_its_brace() {
    assert_eq!(object_after_colon(&chars("a: {b}"), 1), Some(4));
    assert_eq!(object_after_colon(&chars("a: b"), 1), None);
    assert_eq!(object_after_colon(&chars("a:{"), 1), Some(3));
}

/// What comes after a comment stays at its byte, however wide the comment's
/// characters are.
#[test]
fn byte_offsets_are_kept() {
    let out = blank_comments("/* \u{e9} */x");
    assert_eq!(out.len(), 9);
    assert_eq!(out.find('x'), Some(8));
    let src = "'\u{6f22}' // \u{6f22}\u{1f4a1}\ny /*\u{e9}\n\u{1f4a1}*/ z";
    let out = blank_comments(src);
    assert_eq!(out.len(), src.len());
    for c in ['\'', '\u{6f22}', 'y', 'z', '\n'] {
        assert_eq!(out.find(c), src.find(c), "{c}");
    }
    assert_eq!(out.matches('\n').count(), 2);
    assert!(!out.contains('\u{1f4a1}'));
}

#[test]
fn lines_are_counted_from_one() {
    let c: Vec<char> = "a\nb\nc".chars().collect();
    assert_eq!(line_of(&c, 0), 1);
    assert_eq!(line_of(&c, 4), 3);
}
