//! Data carried to and from the tracker service, as plain values.
//!
//! These mirror the records of the service's REST interface. The glue that
//! talks to the service owns the (de)serialization; the library only works
//! on the values.

use vstd::prelude::*;
use vstd::string::StringExecFns;

verus! {

/// A story as listed by the service.
pub struct Story {
    pub name: String,
    pub id: u32,
    pub current_state: StoryState,
    pub story_type: StoryType,
    pub url: String,
    pub estimate: Option<u32>,
    pub labels: Vec<Label>,
}

/// The category of a story.
#[derive(Clone, Copy, Debug, PartialEq, Eq, Structural)]
pub enum StoryType {
    Bug,
    Feature,
    Chore,
    Release,
}

/// The workflow state of a story.
#[derive(Clone, Copy, Debug, PartialEq, Eq, Structural)]
pub enum StoryState {
    Accepted,
    Delivered,
    Finished,
    Started,
    Rejected,
    Planned,
    Unstarted,
    Unscheduled,
}

/// A single story in full, as returned when one story is asked for.
pub struct StoryDetail {
    pub name: String,
    pub id: u32,
    pub current_state: StoryState,
    pub story_type: StoryType,
    pub url: String,
    pub estimate: Option<u32>,
    pub labels: Vec<Label>,
    pub description: Option<String>,
}

/// A label attached to a story.
pub struct Label {
    pub id: u64,
    pub project_id: u64,
    pub kind: String,
    pub name: String,
    pub created_at: String,
    pub updated_at: String,
}

/// One record of the activity feed.
pub struct Activity {
    pub kind: String,
    pub message: String,
    pub highlight: String,
    pub primary_resources: Vec<EntityReference>,
    pub project: EntityReference,
    pub occurred_at: String,
}

/// A reference to an entity (story, project, ...) inside an activity record.
/// The display name may be absent in some responses; callers fall back to
/// `kind` then.
pub struct EntityReference {
    pub kind: String,
    pub id: u64,
    pub name: Option<String>,
}

/// The record describing the authenticated user.
pub struct Me {
    pub id: u64,
    pub name: String,
    pub initials: String,
    pub username: String,
    pub email: String,
}

/// An error payload returned by the service in place of a record.
pub struct ApiError {
    pub code: String,
    pub kind: String,
    pub error: String,
    pub general_problem: Option<String>,
    pub validation_errors: Option<Vec<ValidationError>>,
}

/// A story lookup answer: either the story or the service's error payload.
pub enum MaybeStoryDetail {
    StoryDetail(StoryDetail),
    ApiError(ApiError),
}

/// One field-level problem inside an [`ApiError`].
pub struct ValidationError {
    pub field: String,
    pub problem: String,
}

/// The body of a story update: the state the story is put in, its owners,
/// and, where given, an estimate.
pub struct StoryUpdate {
    pub current_state: String,
    pub owner_ids: Vec<u64>,
    pub estimate: Option<u8>,
}

/// The update that starting a story sends: the story is `started`, owned by
/// the caller, and estimated where an estimate was given.
pub fn story_update_started(owner_id: u64, estimate: Option<u8>) -> (r: StoryUpdate)
    ensures
        r.current_state@ == "started"@,
        r.owner_ids@ == seq![owner_id],
        r.estimate == estimate,
{
    let mut owners: Vec<u64> = Vec::new();
    owners.push(owner_id);
    proof {
        assert(owners@ =~= seq![owner_id]);
    }
    StoryUpdate {
        current_state: String::from_str("started"),
        owner_ids: owners,
        estimate,
    }
}

/// The mathematical value of an [`EntityReference`].
pub ghost struct EntityReferenceModel {
    pub kind: Seq<char>,
    pub id: u64,
    pub name: Option<Seq<char>>,
}

impl View for EntityReference {
    type V = EntityReferenceModel;

    open spec fn view(&self) -> EntityReferenceModel {
        EntityReferenceModel { kind: self.kind@, id: self.id, name: self.name.deep_view() }
    }
}

impl DeepView for EntityReference {
    type V = EntityReferenceModel;

    open spec fn deep_view(&self) -> EntityReferenceModel {
        self.view()
    }
}

/// The mathematical value of an [`Activity`] record.
pub ghost struct ActivityModel {
    pub kind: Seq<char>,
    pub message: Seq<char>,
    pub highlight: Seq<char>,
    pub primary_resources: Seq<EntityReferenceModel>,
    pub project: EntityReferenceModel,
    pub occurred_at: Seq<char>,
}

impl View for Activity {
    type V = ActivityModel;

    open spec fn view(&self) -> ActivityModel {
        ActivityModel {
            kind: self.kind@,
            message: self.message@,
            highlight: self.highlight@,
            primary_resources: self.primary_resources.deep_view(),
            project: self.project@,
            occurred_at: self.occurred_at@,
        }
    }
}

impl DeepView for Activity {
    type V = ActivityModel;

    open spec fn deep_view(&self) -> ActivityModel {
        self.view()
    }
}

impl Clone for Me {
    fn clone(&self) -> (res: Self)
        ensures
            res == *self,
    {
        Me {
            id: self.id,
            name: self.name.clone(),
            initials: self.initials.clone(),
            username: self.username.clone(),
            email: self.email.clone(),
        }
    }
}

/// Clones an optional string, keeping the value.
pub fn clone_opt_string(s: &Option<String>) -> (res: Option<String>)
    ensures
        res == *s,
{
    match s {
        Some(v) => Some(v.clone()),
        None => None,
    }
}

impl Clone for EntityReference {
    fn clone(&self) -> (res: Self)
        ensures
            res == *self,
    {
        EntityReference { kind: self.kind.clone(), id: self.id, name: clone_opt_string(&self.name) }
    }
}

impl Clone for Activity {
    fn clone(&self) -> (res: Self)
        ensures
            res@ == self@,
    {
        let mut resources: Vec<EntityReference> = Vec::new();
        let mut i: usize = 0;
        while i < self.primary_resources.len()
            invariant
                i <= self.primary_resources.len(),
                resources@ =~= self.primary_resources@.take(i as int),
            decreases self.primary_resources.len() - i,
        {
            resources.push(self.primary_resources[i].clone());
            assert(resources@ =~= self.primary_resources@.take(i + 1 as int));
            i += 1;
        }
        assert(resources@ =~= self.primary_resources@);
        assert(resources@ == self.primary_resources@);
        Activity {
            kind: self.kind.clone(),
            message: self.message.clone(),
            highlight: self.highlight.clone(),
            primary_resources: resources,
            project: self.project.clone(),
            occurred_at: self.occurred_at.clone(),
        }
    }
}

} // verus!
