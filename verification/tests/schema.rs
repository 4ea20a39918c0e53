use stories::schema::{story_update_started, Activity, EntityReference};

#[test]
fn starting_a_story_builds_the_update() {
    let update = story_update_started(7, Some(2));
    assert_eq!(update.current_state, "started");
    assert_eq!(update.owner_ids, vec![7]);
    assert_eq!(update.estimate, Some(2));
    let bare = story_update_started(9, None);
    assert_eq!(bare.owner_ids, vec![9]);
    assert_eq!(bare.estimate, None);
}

#[test]
fn activities_clone_whole() {
    let a = Activity {
        kind: "story_update_activity".to_string(),
        message: "m".to_string(),
        highlight: "started".to_string(),
        primary_resources: vec![EntityReference {
            kind: "story".to_string(),
            id: 5,
            name: Some("Fix bug".to_string()),
        }],
        project: EntityReference {
            kind: "project".to_string(),
            id: 1,
            name: None,
        },
        occurred_at: "2024-01-02T10:00:00Z".to_string(),
    };
    let b = a.clone();
    assert_eq!(b.kind, a.kind);
    assert_eq!(b.highlight, a.highlight);
    assert_eq!(b.primary_resources.len(), 1);
    assert_eq!(b.primary_resources[0].name.as_deref(), Some("Fix bug"));
    assert_eq!(b.project.id, 1);
}
