use breakpoints::commands::{skill_heard, skill_to_say};
use breakpoints::skills::{installed, invocation, parse_frontmatter, skill_from, Skill};

#[test]
fn a_normal_skill_file_is_read() {
    let (name, description) = parse_frontmatter(
        "---\nname: breakpoint-audit\ndescription: Report where things disagree.\n---\n\n# Title\n",
    );
    assert_eq!(name.as_deref(), Some("breakpoint-audit"));
    assert_eq!(description.as_deref(), Some("Report where things disagree."));
}

/// A long description wraps onto indented lines, and reading only the first
/// of them would show half a sentence in the menu.
#[test]
fn a_folded_description_is_joined_back_up() {
    let (_, description) = parse_frontmatter(
        "---\nname: x\ndescription: The first part\n  and the second part\n  and the third.\n---\n",
    );
    assert_eq!(
        description.as_deref(),
        Some("The first part and the second part and the third.")
    );
}

/// A description with a colon in it is not two keys.
#[test]
fn a_colon_inside_a_value_is_left_alone() {
    let (_, description) =
        parse_frontmatter("---\nname: x\ndescription: Use when: something happens.\n---\n");
    assert_eq!(description.as_deref(), Some("Use when: something happens."));
}

/// No frontmatter is not an error; the folder name is still a usable name.
#[test]
fn a_file_with_no_frontmatter_gives_nothing_rather_than_guessing() {
    let (name, description) = parse_frontmatter("# Just a heading\n\nSome prose.\n");
    assert_eq!(name, None);
    assert_eq!(description, None);
}

#[test]
fn the_invocation_names_the_skill_both_ways() {
    let said = invocation("compare-to-figma", None);
    assert!(said.contains("compare-to-figma skill"));
    assert!(said.contains("/compare-to-figma"));
    assert!(!said.contains("What he added"));
}

#[test]
fn anything_typed_alongside_it_is_carried() {
    let said = invocation("compare-to-figma", Some("  just the hero  "));
    assert!(said.contains("What he added: just the hero"));
}

/// Whitespace is not context, and an empty box should not add an empty
/// line that reads as though something was cut off.
#[test]
fn blank_context_is_left_out() {
    assert!(!invocation("x", Some("   ")).contains("What he added"));
}

fn skill(name: &str, scope: &str) -> Skill {
    Skill {
        name: name.into(),
        description: String::new(),
        scope: scope.into(),
        path: format!("/{scope}/{name}"),
    }
}

#[test]
fn the_projects_copy_of_a_skill_replaces_yours() {
    let list = installed(
        vec![skill("b", "yours"), skill("a", "yours")],
        vec![skill("b", "shop")],
    );
    let names: Vec<(&str, &str)> = list.iter().map(|s| (s.name.as_str(), s.scope.as_str())).collect();
    assert_eq!(names, vec![("a", "yours"), ("b", "shop")]);
}

#[test]
fn a_skill_without_a_name_is_called_by_its_folder() {
    let s = skill_from("audit", "# No frontmatter\n", "yours", "/y/audit/SKILL.md");
    assert_eq!(s.name, "audit");
    assert_eq!(s.description, "");
    let s = skill_from("audit", "---\nname: \"other\"\n---\n", "yours", "/y/audit/SKILL.md");
    assert_eq!(s.name, "other");
}

#[test]
fn a_skill_nobody_hears_is_an_error() {
    assert!(skill_to_say("  ", None).is_err());
    assert!(skill_to_say(" audit ", None).unwrap().contains("(/audit)"));
    assert!(skill_heard(0, None).is_err());
    assert_eq!(skill_heard(1, None), Ok("the session".to_string()));
    assert_eq!(skill_heard(1, Some("bucknell")), Ok("bucknell".to_string()));
}

#[test]
fn yours_come_first_and_then_the_projects() {
    let list = installed(vec![skill("zed", "yours"), skill("mid", "yours")], vec![skill("abc", "shop")]);
    let names: Vec<&str> = list.iter().map(|s| s.name.as_str()).collect();
    assert_eq!(names, vec!["mid", "zed", "abc"]);
}

#[test]
fn what_is_indented_under_another_key_is_not_a_name() {
    let (name, description) = parse_frontmatter("---\nname: outer\nmeta:\n  name: inner\n---\n");
    assert_eq!(name.as_deref(), Some("outer"));
    assert_eq!(description, None);
}
