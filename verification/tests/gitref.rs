use stories::gitref::{branch_name, extract_id, parse_story_id, story_branch_name, u64_to_string};

#[test]
fn test_branch_name() {
    assert_eq!(
        branch_name("ref: refs/heads/main"),
        Some("main".to_string())
    );
}

#[test]
fn test_extract_id() {
    assert_eq!(extract_id("yep-123"), Some(123));
    assert_eq!(extract_id("yep-24-123"), Some(123));
    assert_eq!(extract_id("123-456-yep"), Some(456));
    assert_eq!(extract_id("foobar"), None);
}

#[test]
fn test_string_id() {
    assert_eq!(parse_story_id("123").unwrap(), 123);
    assert_eq!(parse_story_id("#123").unwrap(), 123);
    assert_eq!(
        parse_story_id("https://www.pivotaltracker.com/story/show/333").unwrap(),
        333
    );
    assert_eq!(
        parse_story_id("https://www.pivotaltracker.com/n/projects/123/stories/456").unwrap(),
        456
    );
}

#[test]
fn branch_name_trims_trailing_newline() {
    assert_eq!(
        branch_name("ref: refs/heads/feat/shiny-987\n"),
        Some("feat/shiny-987".to_string())
    );
}

#[test]
fn branch_name_rejects_detached_head() {
    assert_eq!(branch_name("3f786850e387550fdab836ed7e6dc881de23001b"), None);
}

#[test]
fn extract_id_skips_overlong_runs() {
    assert_eq!(extract_id("x-7-18446744073709551616"), Some(7));
    assert_eq!(extract_id("18446744073709551615"), Some(u64::MAX));
    assert_eq!(extract_id("99999999999999999999999999"), None);
}

#[test]
fn parse_story_id_reports_the_input() {
    match parse_story_id("foobar") {
        Ok(_) => panic!("an id appeared out of nothing"),
        Err(msg) => assert_eq!(msg, "Could not parse story id from foobar"),
    }
}

#[test]
fn story_branch_name_slugs_and_appends_id() {
    assert_eq!(story_branch_name("Fix the Bug!", 123), "fix-the-bug-123");
    assert_eq!(
        story_branch_name("A very long story name that keeps going on and on and on", 9),
        format!("{}-9", "a-very-long-story-name-that-keeps-going")
    );
}

#[test]
fn u64_renders_in_decimal() {
    assert_eq!(u64_to_string(0), "0");
    assert_eq!(u64_to_string(7), "7");
    assert_eq!(u64_to_string(1234567890), "1234567890");
    assert_eq!(u64_to_string(u64::MAX), "18446744073709551615");
}
