use stories::format::{
    api_error_text, conventional_commit_type, estimate_note, format_current_state,
    format_story_type, git_switch_message, highlight_color, join_texts, label_names,
    name_wrap_width, pr_body_text, pr_title_text, state_color, story_row_name,
    summary_prompt_text, update_error_detail, update_failure_text, updated_story_text,
    view_on_web_text, TextColor,
};
use stories::schema::{Label, StoryState, StoryType};

fn label(name: &str) -> Label {
    Label {
        id: 1,
        project_id: 1,
        kind: "label".to_string(),
        name: name.to_string(),
        created_at: String::new(),
        updated_at: String::new(),
    }
}

#[test]
fn states_format_with_icon_and_name() {
    assert_eq!(format_current_state(&StoryState::Started), "\u{2610}\u{2610}\u{2610} Started");
    assert_eq!(format_current_state(&StoryState::Accepted), "\u{2611}\u{2611}\u{2611} Accepted");
    assert_eq!(format_current_state(&StoryState::Planned), "--- Planned");
    assert_eq!(state_color(&StoryState::Rejected), TextColor::Red);
    assert_eq!(state_color(&StoryState::Delivered), TextColor::Green);
}

#[test]
fn story_types_format() {
    assert_eq!(format_story_type(&StoryType::Bug), "Bug");
    assert_eq!(conventional_commit_type(&StoryType::Bug), "fix");
    assert_eq!(conventional_commit_type(&StoryType::Feature), "feat");
    assert_eq!(conventional_commit_type(&StoryType::Release), "chore");
}

#[test]
fn highlights_color_delivered_and_finished() {
    assert_eq!(highlight_color("delivered"), TextColor::Green);
    assert_eq!(highlight_color("finished"), TextColor::Cyan);
    assert_eq!(highlight_color("started"), TextColor::Plain);
    assert_eq!(highlight_color("rejected"), TextColor::Plain);
}

#[test]
fn joining_texts() {
    let parts = vec!["started".to_string(), "delivered".to_string()];
    assert_eq!(join_texts(&parts, ", "), "started, delivered");
    assert_eq!(join_texts(&vec![], ", "), "");
    assert_eq!(join_texts(&vec!["one".to_string()], ", "), "one");
}

#[test]
fn estimate_notes() {
    assert_eq!(estimate_note(&Some(3), &StoryType::Feature), " \u{b7} 3");
    assert_eq!(estimate_note(&None, &StoryType::Feature), " \u{b7} \u{26a0}");
    assert_eq!(estimate_note(&None, &StoryType::Bug), "");
}

#[test]
fn story_row_names() {
    let names = label_names(&vec![label("infra"), label("ui")]);
    let joined = join_texts(&names, ", ");
    assert_eq!(joined, "infra, ui");
    assert_eq!(
        story_row_name("Fix bug", &joined, " \u{b7} 2"),
        "Fix bug \u{b7} infra, ui \u{b7} 2"
    );
    assert_eq!(story_row_name("Fix bug", "", ""), "Fix bug ");
}

#[test]
fn name_wrap_grows_past_eighty_columns() {
    assert_eq!(name_wrap_width(80), 44);
    assert_eq!(name_wrap_width(60), 44);
    assert_eq!(name_wrap_width(100), 64);
}

#[test]
fn pull_request_texts() {
    assert_eq!(
        pr_body_text("https://tracker.example/story/5", 5),
        "https://tracker.example/story/5\n\n--------\n\nTracker: [delivers #5]"
    );
    assert_eq!(pr_title_text(&StoryType::Feature, "Shiny thing"), "feat: Shiny thing");
    let prompt = summary_prompt_text(&StoryType::Bug, "Fix it", &None);
    assert_eq!(
        prompt,
        "Write a git commit subject for a change that fixes this:\nFix it\n\n(description missing)"
    );
}

#[test]
fn error_texts() {
    assert_eq!(
        api_error_text("unfound_resource", "The object could not be found."),
        "tracker api error: unfound_resource\n\nThe object could not be found."
    );
    assert_eq!(
        update_error_detail(&Some("Estimate it first.".to_string()), "raw body"),
        "Estimate it first."
    );
    assert_eq!(update_error_detail(&None, "raw body"), "raw body");
    assert_eq!(
        update_failure_text("412 Precondition Failed", "Estimate it first."),
        "412 Precondition Failed\n\nEstimate it first."
    );
}

#[test]
fn git_and_story_messages() {
    assert_eq!(git_switch_message(true, "fix-the-bug-123"), "checked out fix-the-bug-123");
    assert_eq!(
        git_switch_message(false, "fix-the-bug-123"),
        "\u{1f525} failed! retry with:\n\tgit switch -c fix-the-bug-123"
    );
    assert_eq!(updated_story_text(123, "Fix bug"), "Updated story: #123 Fix bug");
    assert_eq!(
        view_on_web_text("https://tracker.example/story/5"),
        "View this story on Tracker: https://tracker.example/story/5"
    );
}
