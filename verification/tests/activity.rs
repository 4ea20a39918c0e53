use stories::activity::{aggregate, filter_activities, AggregateError, DayGroup, HighlightPolicy};
use stories::schema::{Activity, EntityReference};

fn story_event(project: u64, highlight: &str, occurred_at: &str, id: u64, name: &str) -> Activity {
    Activity {
        kind: "story_update_activity".to_string(),
        message: String::new(),
        highlight: highlight.to_string(),
        primary_resources: vec![EntityReference {
            kind: "story".to_string(),
            id,
            name: Some(name.to_string()),
        }],
        project: EntityReference {
            kind: "project".to_string(),
            id: project,
            name: None,
        },
        occurred_at: occurred_at.to_string(),
    }
}

fn groups_equal(a: &[DayGroup], b: &[DayGroup]) -> bool {
    a.len() == b.len()
        && a.iter().zip(b.iter()).all(|(x, y)| {
            x.day == y.day
                && x.stories.len() == y.stories.len()
                && x.stories.iter().zip(y.stories.iter()).all(|(s, t)| {
                    s.story_id == t.story_id && s.label == t.label && s.highlights == t.highlights
                })
        })
}

// 2024-01-02 is day 19724 counted from 1970-01-01.
const JAN_2_2024: i64 = 19724;

#[test]
fn one_day_one_story_in_order() {
    let events = vec![
        story_event(1, "started", "2024-01-02T10:00:00Z", 5, "Fix bug"),
        story_event(1, "delivered", "2024-01-02T15:00:00Z", 5, "Fix bug"),
        story_event(2, "started", "2024-01-02T11:00:00Z", 9, "Other"),
    ];
    let groups = match aggregate(&events, 1, 0, HighlightPolicy::ShowAll) {
        Ok(g) => g,
        Err(_) => panic!("aggregation failed"),
    };
    assert_eq!(groups.len(), 1);
    assert_eq!(groups[0].day, JAN_2_2024);
    assert_eq!(groups[0].stories.len(), 1);
    assert_eq!(groups[0].stories[0].label, "Fix bug");
    assert_eq!(groups[0].stories[0].story_id, 5);
    assert_eq!(groups[0].stories[0].highlights, vec!["started", "delivered"]);
}

#[test]
fn two_days_come_out_chronological() {
    let events = vec![
        story_event(1, "finished", "2024-01-03T08:00:00Z", 5, "Later"),
        story_event(1, "started", "2024-01-02T09:00:00Z", 4, "Earlier"),
    ];
    let groups = match aggregate(&events, 1, 0, HighlightPolicy::ShowAll) {
        Ok(g) => g,
        Err(_) => panic!("aggregation failed"),
    };
    assert_eq!(groups.len(), 2);
    assert_eq!(groups[0].day, JAN_2_2024);
    assert_eq!(groups[1].day, JAN_2_2024 + 1);
    assert_eq!(groups[0].stories[0].label, "Earlier");
    assert_eq!(groups[1].stories[0].label, "Later");
}

#[test]
fn timezone_offset_moves_the_day_boundary() {
    let events = vec![story_event(1, "started", "2024-01-02T23:30:00Z", 5, "Late")];
    let utc = match aggregate(&events, 1, 0, HighlightPolicy::ShowAll) {
        Ok(g) => g,
        Err(_) => panic!("aggregation failed"),
    };
    let east = match aggregate(&events, 1, 3600, HighlightPolicy::ShowAll) {
        Ok(g) => g,
        Err(_) => panic!("aggregation failed"),
    };
    assert_eq!(utc[0].day, JAN_2_2024);
    assert_eq!(east[0].day, JAN_2_2024 + 1);
}

#[test]
fn stories_sort_by_id_and_events_by_time() {
    let events = vec![
        story_event(1, "delivered", "2024-01-02T15:00:00Z", 9, "B"),
        story_event(1, "started", "2024-01-02T10:00:00Z", 9, "B"),
        story_event(1, "accepted", "2024-01-02T12:00:00Z", 3, "A"),
    ];
    let groups = match aggregate(&events, 1, 0, HighlightPolicy::ShowAll) {
        Ok(g) => g,
        Err(_) => panic!("aggregation failed"),
    };
    assert_eq!(groups.len(), 1);
    assert_eq!(groups[0].stories.len(), 2);
    assert_eq!(groups[0].stories[0].story_id, 3);
    assert_eq!(groups[0].stories[0].highlights, vec!["accepted"]);
    assert_eq!(groups[0].stories[1].story_id, 9);
    assert_eq!(groups[0].stories[1].highlights, vec!["started", "delivered"]);
}

#[test]
fn label_falls_back_to_kind() {
    let mut event = story_event(1, "started", "2024-01-02T10:00:00Z", 5, "unused");
    event.primary_resources[0].name = None;
    let groups = match aggregate(&vec![event], 1, 0, HighlightPolicy::ShowAll) {
        Ok(g) => g,
        Err(_) => panic!("aggregation failed"),
    };
    assert_eq!(groups[0].stories[0].label, "story");
}

#[test]
fn named_only_policy_drops_other_highlights() {
    let events = vec![
        story_event(1, "commented", "2024-01-02T10:00:00Z", 5, "S"),
        story_event(1, "started", "2024-01-02T11:00:00Z", 5, "S"),
    ];
    let strict = match aggregate(&events, 1, 0, HighlightPolicy::NamedOnly) {
        Ok(g) => g,
        Err(_) => panic!("aggregation failed"),
    };
    assert_eq!(strict[0].stories[0].highlights, vec!["started"]);
    let lax = match aggregate(&events, 1, 0, HighlightPolicy::ShowAll) {
        Ok(g) => g,
        Err(_) => panic!("aggregation failed"),
    };
    assert_eq!(lax[0].stories[0].highlights, vec!["commented", "started"]);
}

#[test]
fn other_kinds_are_dropped() {
    let mut comment = story_event(1, "commented", "2024-01-02T10:00:00Z", 5, "S");
    comment.kind = "comment_create_activity".to_string();
    let groups = match aggregate(&vec![comment], 1, 0, HighlightPolicy::ShowAll) {
        Ok(g) => g,
        Err(_) => panic!("aggregation failed"),
    };
    assert!(groups.is_empty());
}

#[test]
fn malformed_timestamp_aborts_with_the_text() {
    let events = vec![
        story_event(1, "started", "2024-01-02T10:00:00Z", 5, "Good"),
        story_event(1, "started", "yesterday around noon", 5, "Bad"),
    ];
    match aggregate(&events, 1, 0, HighlightPolicy::ShowAll) {
        Ok(_) => panic!("a malformed timestamp went through"),
        Err(AggregateError::MalformedTimestamp(t)) => {
            assert_eq!(t, "yesterday around noon");
        }
    }
}

#[test]
fn bad_timestamp_outside_the_project_is_ignored() {
    let events = vec![
        story_event(2, "started", "not a timestamp", 5, "Foreign"),
        story_event(1, "started", "2024-01-02T10:00:00Z", 5, "Ours"),
    ];
    let groups = match aggregate(&events, 1, 0, HighlightPolicy::ShowAll) {
        Ok(g) => g,
        Err(_) => panic!("aggregation failed"),
    };
    assert_eq!(groups.len(), 1);
}

#[test]
fn filtering_first_changes_nothing() {
    let events = vec![
        story_event(1, "delivered", "2024-01-02T15:00:00Z", 9, "B"),
        story_event(2, "started", "2024-01-02T10:00:00Z", 9, "B"),
        story_event(1, "accepted", "2024-01-03T12:00:00Z", 3, "A"),
    ];
    let direct = match aggregate(&events, 1, 0, HighlightPolicy::ShowAll) {
        Ok(g) => g,
        Err(_) => panic!("aggregation failed"),
    };
    let filtered = filter_activities(&events, 1, HighlightPolicy::ShowAll);
    assert_eq!(filtered.len(), 2);
    let again = match aggregate(&filtered, 1, 0, HighlightPolicy::ShowAll) {
        Ok(g) => g,
        Err(_) => panic!("aggregation failed"),
    };
    assert!(groups_equal(&direct, &again));
}

#[test]
fn feed_order_does_not_matter_for_days() {
    let newest_first = vec![
        story_event(1, "finished", "2024-01-03T08:00:00Z", 5, "Later"),
        story_event(1, "started", "2024-01-02T09:00:00Z", 4, "Earlier"),
    ];
    let oldest_first: Vec<Activity> = newest_first.iter().rev().cloned().collect();
    let a = match aggregate(&newest_first, 1, 0, HighlightPolicy::ShowAll) {
        Ok(g) => g,
        Err(_) => panic!("aggregation failed"),
    };
    let b = match aggregate(&oldest_first, 1, 0, HighlightPolicy::ShowAll) {
        Ok(g) => g,
        Err(_) => panic!("aggregation failed"),
    };
    assert!(groups_equal(&a, &b));
}
