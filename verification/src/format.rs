//! The plain text behind the terminal output.
//!
//! Everything here builds the text the commands print, without color: each
//! function states the exact text it returns, and a colour hint is a value
//! of [`TextColor`] that the printing side may apply.

use vstd::prelude::*;
use vstd::string::StringExecFns;
use crate::gitref::dec_str;
use crate::gitref::u64_to_string;
use crate::schema::{Label, StoryState, StoryType};
use crate::text::str_eq;

verus! {

/// A colour the printing side may give a piece of text.
#[derive(Clone, Copy, Debug, PartialEq, Eq, Structural)]
pub enum TextColor {
    Plain,
    Black,
    Blue,
    Cyan,
    Green,
    Red,
    Yellow,
}

/// The three-cell progress icon of a story's state.
pub open spec fn state_icon_model(state: StoryState) -> Seq<char> {
    match state {
        StoryState::Planned => "---"@,
        StoryState::Unscheduled => "---"@,
        StoryState::Unstarted => "\u{b7}\u{b7}\u{b7}"@,
        StoryState::Started => "\u{2610}\u{2610}\u{2610}"@,
        StoryState::Finished => "\u{2611}\u{2610}\u{2610}"@,
        StoryState::Delivered => "\u{2611}\u{2611}\u{2610}"@,
        StoryState::Accepted => "\u{2611}\u{2611}\u{2611}"@,
        StoryState::Rejected => "\u{2611}\u{2611}\u{2612}"@,
    }
}

/// The three-cell progress icon of a story's state.
pub fn current_state_icon(state: &StoryState) -> (r: String)
    ensures
        r@ == state_icon_model(*state),
{
    match state {
        StoryState::Planned => String::from_str("---"),
        StoryState::Unscheduled => String::from_str("---"),
        StoryState::Unstarted => String::from_str("\u{b7}\u{b7}\u{b7}"),
        StoryState::Started => String::from_str("\u{2610}\u{2610}\u{2610}"),
        StoryState::Finished => String::from_str("\u{2611}\u{2610}\u{2610}"),
        StoryState::Delivered => String::from_str("\u{2611}\u{2611}\u{2610}"),
        StoryState::Accepted => String::from_str("\u{2611}\u{2611}\u{2611}"),
        StoryState::Rejected => String::from_str("\u{2611}\u{2611}\u{2612}"),
    }
}

/// The name of a story's state.
pub open spec fn state_name_model(state: StoryState) -> Seq<char> {
    match state {
        StoryState::Planned => "Planned"@,
        StoryState::Unscheduled => "Unscheduled"@,
        StoryState::Unstarted => "Unstarted"@,
        StoryState::Started => "Started"@,
        StoryState::Finished => "Finished"@,
        StoryState::Delivered => "Delivered"@,
        StoryState::Accepted => "Accepted"@,
        StoryState::Rejected => "Rejected"@,
    }
}

/// The colour a story's state is shown in.
pub fn state_color(state: &StoryState) -> (r: TextColor)
    ensures
        r == (match *state {
            StoryState::Planned => TextColor::Black,
            StoryState::Unscheduled => TextColor::Black,
            StoryState::Unstarted => TextColor::Black,
            StoryState::Started => TextColor::Blue,
            StoryState::Finished => TextColor::Cyan,
            StoryState::Delivered => TextColor::Green,
            StoryState::Accepted => TextColor::Green,
            StoryState::Rejected => TextColor::Red,
        }),
{
    match state {
        StoryState::Planned => TextColor::Black,
        StoryState::Unscheduled => TextColor::Black,
        StoryState::Unstarted => TextColor::Black,
        StoryState::Started => TextColor::Blue,
        StoryState::Finished => TextColor::Cyan,
        StoryState::Delivered => TextColor::Green,
        StoryState::Accepted => TextColor::Green,
        StoryState::Rejected => TextColor::Red,
    }
}

/// A story's state as icon and name.
pub fn format_current_state(state: &StoryState) -> (r: String)
    ensures
        r@ == state_icon_model(*state) + " "@ + state_name_model(*state),
{
    let mut r = current_state_icon(state);
    r.append(" ");
    let name = match state {
        StoryState::Planned => "Planned",
        StoryState::Unscheduled => "Unscheduled",
        StoryState::Unstarted => "Unstarted",
        StoryState::Started => "Started",
        StoryState::Finished => "Finished",
        StoryState::Delivered => "Delivered",
        StoryState::Accepted => "Accepted",
        StoryState::Rejected => "Rejected",
    };
    r.append(name);
    r
}

/// The name of a story's category.
pub open spec fn story_type_name_model(t: StoryType) -> Seq<char> {
    match t {
        StoryType::Bug => "Bug"@,
        StoryType::Feature => "Feature"@,
        StoryType::Chore => "Chore"@,
        StoryType::Release => "Release"@,
    }
}

/// A story's category as shown beside its name.
pub fn format_story_type(t: &StoryType) -> (r: String)
    ensures
        r@ == story_type_name_model(*t),
{
    match t {
        StoryType::Bug => String::from_str("Bug"),
        StoryType::Feature => String::from_str("Feature"),
        StoryType::Chore => String::from_str("Chore"),
        StoryType::Release => String::from_str("Release"),
    }
}

/// The colour a story's category is shown in.
pub fn story_type_color(t: &StoryType) -> (r: TextColor)
    ensures
        r == (match *t {
            StoryType::Bug => TextColor::Red,
            StoryType::Feature => TextColor::Green,
            StoryType::Chore => TextColor::Black,
            StoryType::Release => TextColor::Black,
        }),
{
    match t {
        StoryType::Bug => TextColor::Red,
        StoryType::Feature => TextColor::Green,
        StoryType::Chore => TextColor::Black,
        StoryType::Release => TextColor::Black,
    }
}

/// The one-glyph marker of a story's category in the story table.
pub open spec fn story_type_marker_model(t: StoryType) -> Seq<char> {
    match t {
        StoryType::Feature => "\u{2b50}\u{fe0f}"@,
        StoryType::Bug => "\u{1f41e}"@,
        StoryType::Chore => "\u{1f9f9}"@,
        StoryType::Release => "\u{1f3c1}"@,
    }
}

/// The one-glyph marker of a story's category in the story table.
pub fn story_type_marker(t: &StoryType) -> (r: String)
    ensures
        r@ == story_type_marker_model(*t),
{
    match t {
        StoryType::Feature => String::from_str("\u{2b50}\u{fe0f}"),
        StoryType::Bug => String::from_str("\u{1f41e}"),
        StoryType::Chore => String::from_str("\u{1f9f9}"),
        StoryType::Release => String::from_str("\u{1f3c1}"),
    }
}

/// The conventional-commit prefix a story's category maps to.
pub open spec fn commit_type_model(t: StoryType) -> Seq<char> {
    match t {
        StoryType::Bug => "fix"@,
        StoryType::Feature => "feat"@,
        StoryType::Chore => "chore"@,
        StoryType::Release => "chore"@,
    }
}

/// The conventional-commit prefix a story's category maps to.
pub fn conventional_commit_type(t: &StoryType) -> (r: String)
    ensures
        r@ == commit_type_model(*t),
{
    match t {
        StoryType::Bug => String::from_str("fix"),
        StoryType::Feature => String::from_str("feat"),
        StoryType::Chore => String::from_str("chore"),
        StoryType::Release => String::from_str("chore"),
    }
}

/// The colour a highlight token is shown in: `delivered` and `finished`
/// carry their own colours, every other token stays plain.
pub fn highlight_color(h: &str) -> (r: TextColor)
    ensures
        h@ == "delivered"@ ==> r == TextColor::Green,
        h@ == "finished"@ ==> r == TextColor::Cyan,
        (h@ != "delivered"@ && h@ != "finished"@) ==> r == TextColor::Plain,
{
    proof {
        reveal_strlit("delivered");
        reveal_strlit("finished");
        assert("delivered"@.len() == 9);
        assert("finished"@.len() == 8);
        assert("delivered"@ != "finished"@);
    }
    if str_eq(h, "delivered") {
        TextColor::Green
    } else if str_eq(h, "finished") {
        TextColor::Cyan
    } else {
        TextColor::Plain
    }
}

/// Texts joined by a separator, none around the ends.
pub open spec fn join_model(parts: Seq<Seq<char>>, sep: Seq<char>) -> Seq<char>
    decreases parts.len(),
{
    if parts.len() == 0 {
        Seq::empty()
    } else if parts.len() == 1 {
        parts[0]
    } else {
        join_model(parts.drop_last(), sep) + sep + parts.last()
    }
}

/// Joins texts with a separator.
#[verifier::loop_isolation(false)]
pub fn join_texts(parts: &Vec<String>, sep: &str) -> (r: String)
    ensures
        r@ == join_model(parts.deep_view(), sep@),
{
    let mut r = String::new();
    let mut i: usize = 0;
    while i < parts.len()
        invariant
            i <= parts.len(),
            r@ == join_model(parts.deep_view().take(i as int), sep@),
        decreases parts.len() - i,
    {
        if i > 0 {
            r.append(sep);
        }
        r.append(parts[i].as_str());
        proof {
            let dv = parts.deep_view();
            assert(dv[i as int] == parts@[i as int]@);
            assert(dv.take(i + 1).drop_last() =~= dv.take(i as int));
            assert(dv.take(i + 1).last() == dv[i as int]);
            if i == 0 {
                assert(r@ =~= join_model(dv.take(1), sep@));
            }
        }
        i += 1;
    }
    proof {
        assert(parts.deep_view().take(parts.len() as int) =~= parts.deep_view());
    }
    r
}

/// The estimate note shown after a story's name: the estimate where one is
/// set; a warning for an unestimated feature; nothing otherwise.
pub fn estimate_note(estimate: &Option<u32>, t: &StoryType) -> (r: String)
    ensures
        estimate is Some ==> r@ == " \u{b7} "@ + dec_str(estimate->0 as int),
        (estimate is None && *t is Feature) ==> r@ == " \u{b7} \u{26a0}"@,
        (estimate is None && !(*t is Feature)) ==> r@ == Seq::<char>::empty(),
{
    match estimate {
        Some(v) => {
            let mut r = String::from_str(" \u{b7} ");
            let d = u64_to_string(*v as u64);
            r.append(d.as_str());
            r
        },
        None => match t {
            StoryType::Feature => String::from_str(" \u{b7} \u{26a0}"),
            _ => String::new(),
        },
    }
}

/// The names of a story's labels, in order.
pub fn label_names(labels: &Vec<Label>) -> (r: Vec<String>)
    ensures
        r.deep_view() == labels@.map_values(|l: Label| l.name@),
{
    let mut r: Vec<String> = Vec::new();
    let mut i: usize = 0;
    while i < labels.len()
        invariant
            i <= labels.len(),
            r.deep_view() == labels@.take(i as int).map_values(|l: Label| l.name@),
        decreases labels.len() - i,
    {
        let ghost before = r.deep_view();
        r.push(labels[i].name.clone());
        proof {
            assert(r.deep_view() =~= before.push(labels@[i as int].name@));
            assert(labels@.take(i + 1).drop_last() =~= labels@.take(i as int));
            assert(labels@.take(i + 1).last() == labels@[i as int]);
            assert(r.deep_view() =~= labels@.take(i + 1).map_values(|l: Label| l.name@));
        }
        i += 1;
    }
    proof {
        assert(labels@.take(labels.len() as int) =~= labels@);
    }
    r
}

/// The name cell of a story's table row: the name, then the joined labels
/// where there are any, then the estimate note.
pub fn story_row_name(name: &str, labels_joined: &str, estimate_note_text: &str) -> (r: String)
    ensures
        labels_joined@.len() == 0 ==> r@ == name@ + " "@ + estimate_note_text@,
        labels_joined@.len() > 0 ==> r@ == name@ + " \u{b7} "@ + labels_joined@
            + estimate_note_text@,
{
    let mut r = String::from_str(name);
    if labels_joined.unicode_len() == 0 {
        r.append(" ");
    } else {
        r.append(" \u{b7} ");
        r.append(labels_joined);
    }
    r.append(estimate_note_text);
    r
}

/// How wide the name column of the story table may be on a terminal of the
/// given width: 44 cells, plus whatever the terminal offers beyond 80.
pub fn name_wrap_width(terminal_width: usize) -> (r: usize)
    ensures
        terminal_width > 80 ==> r == 44 + (terminal_width - 80),
        terminal_width <= 80 ==> r == 44,
{
    if terminal_width > 80 {
        44 + (terminal_width - 80)
    } else {
        44
    }
}

/// The body suggested for a pull request: the story's address, a rule, and
/// the delivery note the tracker reads.
pub fn pr_body_text(story_url: &str, story_id: u32) -> (r: String)
    ensures
        r@ == story_url@ + "\n\n--------\n\nTracker: [delivers #"@ + dec_str(story_id as int)
            + "]"@,
{
    let mut r = String::from_str(story_url);
    r.append("\n\n--------\n\nTracker: [delivers #");
    let id = u64_to_string(story_id as u64);
    r.append(id.as_str());
    r.append("]");
    r
}

/// The title suggested for a pull request: the conventional-commit prefix,
/// then the story's name.
pub fn pr_title_text(t: &StoryType, story_name: &str) -> (r: String)
    ensures
        r@ == commit_type_model(*t) + ": "@ + story_name@,
{
    let mut r = conventional_commit_type(t);
    r.append(": ");
    r.append(story_name);
    r
}

/// The verb the summarizing prompt uses for a story's category.
pub open spec fn summary_action_model(t: StoryType) -> Seq<char> {
    match t {
        StoryType::Bug => "fixes"@,
        StoryType::Feature => "implements"@,
        StoryType::Chore => "addresses"@,
        StoryType::Release => "addresses"@,
    }
}

/// The prompt handed to the summarizer: what kind of change this is, the
/// story's name, and its description, with a note where the description is
/// missing.
pub fn summary_prompt_text(t: &StoryType, story_name: &str, description: &Option<String>) -> (r:
    String)
    ensures
        ({
            let desc = if description is Some {
                description->0@
            } else {
                "(description missing)"@
            };
            r@ == "Write a git commit subject for a change that "@ + summary_action_model(*t)
                + " this:\n"@ + story_name@ + "\n\n"@ + desc
        }),
{
    let mut r = String::from_str("Write a git commit subject for a change that ");
    let action = match t {
        StoryType::Bug => "fixes",
        StoryType::Feature => "implements",
        StoryType::Chore => "addresses",
        StoryType::Release => "addresses",
    };
    r.append(action);
    r.append(" this:\n");
    r.append(story_name);
    r.append("\n\n");
    match description {
        Some(d) => r.append(d.as_str()),
        None => r.append("(description missing)"),
    }
    r
}

/// The error shown when the tracker answers a story lookup with its error
/// payload.
pub fn api_error_text(code: &str, error: &str) -> (r: String)
    ensures
        r@ == "tracker api error: "@ + code@ + "\n\n"@ + error@,
{
    let mut r = String::from_str("tracker api error: ");
    r.append(code);
    r.append("\n\n");
    r.append(error);
    r
}

/// The detail of a failed story update: the service's named problem where
/// it gave one, its raw answer otherwise.
pub fn update_error_detail(general_problem: &Option<String>, raw_answer: &str) -> (r: String)
    ensures
        general_problem is Some ==> r@ == general_problem->0@,
        general_problem is None ==> r@ == raw_answer@,
{
    match general_problem {
        Some(p) => p.clone(),
        None => String::from_str(raw_answer),
    }
}

/// The error shown when a story update fails: the status line, then the
/// detail.
pub fn update_failure_text(status_line: &str, detail: &str) -> (r: String)
    ensures
        r@ == status_line@ + "\n\n"@ + detail@,
{
    let mut r = String::from_str(status_line);
    r.append("\n\n");
    r.append(detail);
    r
}

/// What the branch step reports: the checked-out branch on success, the
/// command to retry on failure.
pub fn git_switch_message(succeeded: bool, branch: &str) -> (r: String)
    ensures
        succeeded ==> r@ == "checked out "@ + branch@,
        !succeeded ==> r@ == "\u{1f525} failed! retry with:\n\tgit switch -c "@ + branch@,
{
    let mut r = if succeeded {
        String::from_str("checked out ")
    } else {
        String::from_str("\u{1f525} failed! retry with:\n\tgit switch -c ")
    };
    r.append(branch);
    r
}

/// The line printed after a story update, naming the story touched.
pub fn updated_story_text(story_id: u32, story_name: &str) -> (r: String)
    ensures
        r@ == "Updated story: #"@ + dec_str(story_id as int) + " "@ + story_name@,
{
    let mut r = String::from_str("Updated story: #");
    let id = u64_to_string(story_id as u64);
    r.append(id.as_str());
    r.append(" ");
    r.append(story_name);
    r
}

/// The closing line of a story view, pointing at the story on the web.
pub fn view_on_web_text(story_url: &str) -> (r: String)
    ensures
        r@ == "View this story on Tracker: "@ + story_url@,
{
    let mut r = String::from_str("View this story on Tracker: ");
    r.append(story_url);
    r
}

} // verus!
