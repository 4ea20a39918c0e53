//! Grouping of the activity feed.
//!
//! A flat list of activity records becomes a two-level report: records are
//! filtered to the configured project and the story-update kind, ordered by
//! the moment they occurred, bucketed by calendar day (in a caller-supplied
//! time zone), and, within a day, grouped by the story they concern, each
//! story listing its highlight tokens in chronological order.

use vstd::prelude::*;
use vstd::multiset::Multiset;
use crate::schema::{Activity, ActivityModel, EntityReferenceModel};
use crate::text::str_eq;
use crate::time::{day_of_timestamp, local_day, parse_rfc3339_timestamp, rfc3339_timestamp};

verus! {

broadcast use vstd::seq_lib::group_seq_lib_default;

/// Which highlight tokens pass the filter: every one, or only the five
/// named workflow transitions. Showing every token is the default policy.
#[derive(Clone, Copy, Debug, PartialEq, Eq, Structural)]
pub enum HighlightPolicy {
    ShowAll,
    NamedOnly,
}

/// Aggregation aborts on the first record whose `occurred_at` text is not a
/// valid RFC 3339 date-time; the error carries that text.
pub enum AggregateError {
    MalformedTimestamp(String),
}

/// The kind of record the aggregation reads; every other kind is dropped.
pub open spec fn is_story_update(kind: Seq<char>) -> bool {
    kind == "story_update_activity"@
}

/// The five named workflow transitions of the restrictive policy.
pub open spec fn is_named_highlight(h: Seq<char>) -> bool {
    ||| h == "delivered"@
    ||| h == "started"@
    ||| h == "finished"@
    ||| h == "rejected"@
    ||| h == "accepted"@
}

/// Whether a record takes part in the aggregation: it must belong to the
/// configured project, be a story update, and satisfy the highlight policy.
pub open spec fn passes_filter(a: ActivityModel, project_id: u64, policy: HighlightPolicy) -> bool {
    &&& a.project.id == project_id
    &&& is_story_update(a.kind)
    &&& (policy == HighlightPolicy::NamedOnly ==> is_named_highlight(a.highlight))
}

/// The records that take part, in input order.
pub open spec fn filtered_events(
    events: Seq<ActivityModel>,
    project_id: u64,
    policy: HighlightPolicy,
) -> Seq<ActivityModel> {
    events.filter(|a: ActivityModel| passes_filter(a, project_id, policy))
}

/// One passing record, reduced to what the report needs: the parsed moment,
/// its calendar day, and the story's id, display label and highlight token.
pub struct EventEntry {
    pub epoch: i64,
    pub day: i64,
    pub story_id: u64,
    pub label: String,
    pub highlight: String,
}

/// The mathematical value of an [`EventEntry`].
#[verifier::ext_equal]
pub ghost struct EventEntryModel {
    pub epoch: int,
    pub day: int,
    pub story_id: u64,
    pub label: Seq<char>,
    pub highlight: Seq<char>,
}

impl View for EventEntry {
    type V = EventEntryModel;

    open spec fn view(&self) -> EventEntryModel {
        EventEntryModel {
            epoch: self.epoch as int,
            day: self.day as int,
            story_id: self.story_id,
            label: self.label@,
            highlight: self.highlight@,
        }
    }
}

impl DeepView for EventEntry {
    type V = EventEntryModel;

    open spec fn deep_view(&self) -> EventEntryModel {
        self.view()
    }
}

impl Clone for EventEntry {
    fn clone(&self) -> (res: Self)
        ensures
            res == *self,
    {
        EventEntry {
            epoch: self.epoch,
            day: self.day,
            story_id: self.story_id,
            label: self.label.clone(),
            highlight: self.highlight.clone(),
        }
    }
}

/// One story's part of a day: its highlight tokens, chronologically.
pub struct StoryGroup {
    pub story_id: u64,
    pub label: String,
    pub highlights: Vec<String>,
}

/// The mathematical value of a [`StoryGroup`].
#[verifier::ext_equal]
pub ghost struct StoryGroupModel {
    pub story_id: u64,
    pub label: Seq<char>,
    pub highlights: Seq<Seq<char>>,
}

impl View for StoryGroup {
    type V = StoryGroupModel;

    open spec fn view(&self) -> StoryGroupModel {
        StoryGroupModel {
            story_id: self.story_id,
            label: self.label@,
            highlights: self.highlights.deep_view(),
        }
    }
}

impl DeepView for StoryGroup {
    type V = StoryGroupModel;

    open spec fn deep_view(&self) -> StoryGroupModel {
        self.view()
    }
}

/// One calendar day of the report.
pub struct DayGroup {
    pub day: i64,
    pub stories: Vec<StoryGroup>,
}

/// The mathematical value of a [`DayGroup`].
#[verifier::ext_equal]
pub ghost struct DayGroupModel {
    pub day: int,
    pub stories: Seq<StoryGroupModel>,
}

impl View for DayGroup {
    type V = DayGroupModel;

    open spec fn view(&self) -> DayGroupModel {
        DayGroupModel { day: self.day as int, stories: self.stories.deep_view() }
    }
}

impl DeepView for DayGroup {
    type V = DayGroupModel;

    open spec fn deep_view(&self) -> DayGroupModel {
        self.view()
    }
}

/// The display label of an entity: its name, falling back to its kind where
/// the name is absent.
pub open spec fn story_label(r: EntityReferenceModel) -> Seq<char> {
    match r.name {
        Some(n) => n,
        None => r.kind,
    }
}

/// What a passing record contributes to the report, in a zone `offset`
/// seconds east of UTC. Meaningful when the record's timestamp parses and it
/// names a subject story.
pub open spec fn event_model(a: ActivityModel, offset: int) -> EventEntryModel
    recommends
        rfc3339_timestamp(a.occurred_at) is Some,
        a.primary_resources.len() > 0,
{
    let epoch = rfc3339_timestamp(a.occurred_at)->Some_0 as int;
    EventEntryModel {
        epoch,
        day: local_day(epoch, offset),
        story_id: a.primary_resources[0].id,
        label: story_label(a.primary_resources[0]),
        highlight: a.highlight,
    }
}

/// Whether every passing record's timestamp parses; only then does the
/// aggregation produce a report.
pub open spec fn all_timestamps_parse(
    events: Seq<ActivityModel>,
    project_id: u64,
    policy: HighlightPolicy,
) -> bool {
    let fl = filtered_events(events, project_id, policy);
    forall|i: int| 0 <= i < fl.len() ==> rfc3339_timestamp(#[trigger] fl[i].occurred_at) is Some
}

/// The timestamp text of the first record of `s` that fails to parse.
pub open spec fn first_bad_timestamp(s: Seq<ActivityModel>) -> Seq<char>
    decreases s.len(),
{
    if s.len() == 0 {
        Seq::empty()
    } else if rfc3339_timestamp(s[0].occurred_at) is None {
        s[0].occurred_at
    } else {
        first_bad_timestamp(s.drop_first())
    }
}

/// Inserts `x` into `s` after every entry whose moment is no later than
/// `x`'s, so that inserting each entry of a list in turn sorts it stably.
pub open spec fn insert_by_epoch(s: Seq<EventEntryModel>, x: EventEntryModel) -> Seq<
    EventEntryModel,
>
    decreases s.len(),
{
    if s.len() == 0 {
        seq![x]
    } else if s[0].epoch <= x.epoch {
        seq![s[0]] + insert_by_epoch(s.drop_first(), x)
    } else {
        seq![x] + s
    }
}

/// Stable sort by the moment the record occurred, ascending.
pub open spec fn sort_by_epoch(s: Seq<EventEntryModel>) -> Seq<EventEntryModel>
    decreases s.len(),
{
    if s.len() == 0 {
        Seq::empty()
    } else {
        insert_by_epoch(sort_by_epoch(s.drop_last()), s.last())
    }
}

/// Inserts `x` into `s` after every entry whose story id is no greater than
/// `x`'s.
pub open spec fn insert_by_story(s: Seq<EventEntryModel>, x: EventEntryModel) -> Seq<
    EventEntryModel,
>
    decreases s.len(),
{
    if s.len() == 0 {
        seq![x]
    } else if s[0].story_id <= x.story_id {
        seq![s[0]] + insert_by_story(s.drop_first(), x)
    } else {
        seq![x] + s
    }
}

/// Stable sort by the subject story's id, ascending.
pub open spec fn sort_by_story(s: Seq<EventEntryModel>) -> Seq<EventEntryModel>
    decreases s.len(),
{
    if s.len() == 0 {
        Seq::empty()
    } else {
        insert_by_story(sort_by_story(s.drop_last()), s.last())
    }
}

/// A run of entries sharing one calendar day (working state of the
/// grouping).
pub struct DayEvents {
    pub day: i64,
    pub events: Vec<EventEntry>,
}

/// The mathematical value of a [`DayEvents`].
#[verifier::ext_equal]
pub ghost struct DayEventsModel {
    pub day: int,
    pub events: Seq<EventEntryModel>,
}

impl View for DayEvents {
    type V = DayEventsModel;

    open spec fn view(&self) -> DayEventsModel {
        DayEventsModel { day: self.day as int, events: self.events.deep_view() }
    }
}

impl DeepView for DayEvents {
    type V = DayEventsModel;

    open spec fn deep_view(&self) -> DayEventsModel {
        self.view()
    }
}

/// A run of entries sharing one subject story (working state of the
/// grouping).
pub struct StoryEvents {
    pub story_id: u64,
    pub events: Vec<EventEntry>,
}

/// The mathematical value of a [`StoryEvents`].
#[verifier::ext_equal]
pub ghost struct StoryEventsModel {
    pub story_id: u64,
    pub events: Seq<EventEntryModel>,
}

impl View for StoryEvents {
    type V = StoryEventsModel;

    open spec fn view(&self) -> StoryEventsModel {
        StoryEventsModel { story_id: self.story_id, events: self.events.deep_view() }
    }
}

impl DeepView for StoryEvents {
    type V = StoryEventsModel;

    open spec fn deep_view(&self) -> StoryEventsModel {
        self.view()
    }
}

/// Adds one entry to day-bucketed groups: it joins the last bucket when it
/// shares its day, and opens a new bucket otherwise.
pub open spec fn group_by_day_push(gs: Seq<DayEventsModel>, x: EventEntryModel) -> Seq<
    DayEventsModel,
> {
    if gs.len() > 0 && gs.last().day == x.day {
        gs.update(
            gs.len() - 1,
            DayEventsModel { day: gs.last().day, events: gs.last().events.push(x) },
        )
    } else {
        gs.push(DayEventsModel { day: x.day, events: seq![x] })
    }
}

/// Buckets entries by calendar day, one bucket per contiguous run.
pub open spec fn group_by_day(s: Seq<EventEntryModel>) -> Seq<DayEventsModel>
    decreases s.len(),
{
    if s.len() == 0 {
        Seq::empty()
    } else {
        group_by_day_push(group_by_day(s.drop_last()), s.last())
    }
}

/// Adds one entry to story-bucketed groups: it joins the last bucket when it
/// shares its story, and opens a new bucket otherwise.
pub open spec fn group_by_story_push(gs: Seq<StoryEventsModel>, x: EventEntryModel) -> Seq<
    StoryEventsModel,
> {
    if gs.len() > 0 && gs.last().story_id == x.story_id {
        gs.update(
            gs.len() - 1,
            StoryEventsModel { story_id: gs.last().story_id, events: gs.last().events.push(x) },
        )
    } else {
        gs.push(StoryEventsModel { story_id: x.story_id, events: seq![x] })
    }
}

/// Buckets entries by subject story, one bucket per contiguous run.
pub open spec fn group_by_story(s: Seq<EventEntryModel>) -> Seq<StoryEventsModel>
    decreases s.len(),
{
    if s.len() == 0 {
        Seq::empty()
    } else {
        group_by_story_push(group_by_story(s.drop_last()), s.last())
    }
}

/// What one story bucket contributes to the report: its id, the label of
/// its first entry, and its highlight tokens in chronological order.
pub open spec fn story_group_of(g: StoryEventsModel) -> StoryGroupModel {
    StoryGroupModel {
        story_id: g.story_id,
        label: g.events[0].label,
        highlights: sort_by_epoch(g.events).map_values(|e: EventEntryModel| e.highlight),
    }
}

/// One day's story groups: the day's entries sorted by story id (stable),
/// bucketed by story, each bucket reduced by [`story_group_of`].
pub open spec fn story_groups_model(events: Seq<EventEntryModel>) -> Seq<StoryGroupModel> {
    group_by_story(sort_by_story(events)).map_values(|g: StoryEventsModel| story_group_of(g))
}

/// What one day bucket contributes to the report.
pub open spec fn day_group_of(d: DayEventsModel) -> DayGroupModel {
    DayGroupModel { day: d.day, stories: story_groups_model(d.events) }
}

/// The whole report: passing records, reduced and sorted by their moment,
/// bucketed by day, each day holding its story groups.
pub open spec fn aggregate_model(
    events: Seq<ActivityModel>,
    project_id: u64,
    offset: int,
    policy: HighlightPolicy,
) -> Seq<DayGroupModel> {
    let entries = filtered_events(events, project_id, policy).map_values(
        |a: ActivityModel| event_model(a, offset),
    );
    group_by_day(sort_by_epoch(entries)).map_values(|g: DayEventsModel| day_group_of(g))
}

/// Inserting at the first position whose entry's moment is later than `x`'s
/// is what [`insert_by_epoch`] does.
proof fn lemma_insert_by_epoch_at(s: Seq<EventEntryModel>, x: EventEntryModel, j: int)
    requires
        0 <= j <= s.len(),
        forall|k: int| 0 <= k < j ==> s[k].epoch <= x.epoch,
        j < s.len() ==> s[j].epoch > x.epoch,
    ensures
        insert_by_epoch(s, x) == s.take(j) + seq![x] + s.skip(j),
    decreases j,
{
    if j == 0 {
        if s.len() == 0 {
            assert(insert_by_epoch(s, x) =~= s.take(0) + seq![x] + s.skip(0));
        } else {
            assert(insert_by_epoch(s, x) =~= s.take(0) + seq![x] + s.skip(0));
        }
    } else {
        let rest = s.drop_first();
        assert(forall|k: int| 0 <= k < j - 1 ==> rest[k].epoch <= x.epoch);
        lemma_insert_by_epoch_at(rest, x, j - 1);
        assert(insert_by_epoch(s, x) =~= s.take(j) + seq![x] + s.skip(j));
    }
}

/// Inserting at the first position whose entry's story id exceeds `x`'s is
/// what [`insert_by_story`] does.
proof fn lemma_insert_by_story_at(s: Seq<EventEntryModel>, x: EventEntryModel, j: int)
    requires
        0 <= j <= s.len(),
        forall|k: int| 0 <= k < j ==> s[k].story_id <= x.story_id,
        j < s.len() ==> s[j].story_id > x.story_id,
    ensures
        insert_by_story(s, x) == s.take(j) + seq![x] + s.skip(j),
    decreases j,
{
    if j == 0 {
        assert(insert_by_story(s, x) =~= s.take(0) + seq![x] + s.skip(0));
    } else {
        let rest = s.drop_first();
        assert(forall|k: int| 0 <= k < j - 1 ==> rest[k].story_id <= x.story_id);
        lemma_insert_by_story_at(rest, x, j - 1);
        assert(insert_by_story(s, x) =~= s.take(j) + seq![x] + s.skip(j));
    }
}

/// Sorts entries by the moment they occurred, ascending and stable.
pub fn sort_events_by_epoch(events: &Vec<EventEntry>) -> (r: Vec<EventEntry>)
    ensures
        r.deep_view() == sort_by_epoch(events.deep_view()),
{
    let ghost orig = events.deep_view();
    let mut out: Vec<EventEntry> = Vec::new();
    let mut i: usize = 0;
    while i < events.len()
        invariant
            i <= events.len(),
            orig == events.deep_view(),
            out.deep_view() == sort_by_epoch(orig.take(i as int)),
        decreases events.len() - i,
    {
        let ghost out_before = out.deep_view();
        let x = events[i].clone();
        assert(x@ == orig[i as int]);
        let mut j: usize = 0;
        while j < out.len() && out[j].epoch <= x.epoch
            invariant
                j <= out.len(),
                out.deep_view() == out_before,
                forall|k: int| 0 <= k < j ==> out_before[k].epoch <= x@.epoch,
            decreases out.len() - j,
        {
            assert(out_before[j as int].epoch == out@[j as int]@.epoch);
            j += 1;
        }
        proof {
            if j < out_before.len() {
                assert(out_before[j as int].epoch == out@[j as int]@.epoch);
            }
            lemma_insert_by_epoch_at(out_before, x@, j as int);
        }
        out.insert(j, x);
        proof {
            assert(out.deep_view() =~= out_before.take(j as int) + seq![x@] + out_before.skip(
                j as int,
            ));
            let t = orig.take(i + 1);
            assert(t.drop_last() =~= orig.take(i as int));
            assert(t.last() == orig[i as int]);
            assert(out.deep_view() == sort_by_epoch(orig.take(i + 1)));
        }
        i += 1;
    }
    proof {
        assert(orig.take(i as int) =~= orig);
    }
    out
}

/// Sorts entries by their subject story's id, ascending and stable.
pub fn sort_events_by_story(events: &Vec<EventEntry>) -> (r: Vec<EventEntry>)
    ensures
        r.deep_view() == sort_by_story(events.deep_view()),
{
    let ghost orig = events.deep_view();
    let mut out: Vec<EventEntry> = Vec::new();
    let mut i: usize = 0;
    while i < events.len()
        invariant
            i <= events.len(),
            orig == events.deep_view(),
            out.deep_view() == sort_by_story(orig.take(i as int)),
        decreases events.len() - i,
    {
        let ghost out_before = out.deep_view();
        let x = events[i].clone();
        assert(x@ == orig[i as int]);
        let mut j: usize = 0;
        while j < out.len() && out[j].story_id <= x.story_id
            invariant
                j <= out.len(),
                out.deep_view() == out_before,
                forall|k: int| 0 <= k < j ==> out_before[k].story_id <= x@.story_id,
            decreases out.len() - j,
        {
            assert(out_before[j as int].story_id == out@[j as int]@.story_id);
            j += 1;
        }
        proof {
            if j < out_before.len() {
                assert(out_before[j as int].story_id == out@[j as int]@.story_id);
            }
            lemma_insert_by_story_at(out_before, x@, j as int);
        }
        out.insert(j, x);
        proof {
            assert(out.deep_view() =~= out_before.take(j as int) + seq![x@] + out_before.skip(
                j as int,
            ));
            let t = orig.take(i + 1);
            assert(t.drop_last() =~= orig.take(i as int));
            assert(t.last() == orig[i as int]);
            assert(out.deep_view() == sort_by_story(orig.take(i + 1)));
        }
        i += 1;
    }
    proof {
        assert(orig.take(i as int) =~= orig);
    }
    out
}

/// Decides [`passes_filter`] for one record.
pub fn passes(a: &Activity, project_id: u64, policy: HighlightPolicy) -> (r: bool)
    ensures
        r == passes_filter(a@, project_id, policy),
{
    if a.project.id != project_id {
        return false;
    }
    if !str_eq(a.kind.as_str(), "story_update_activity") {
        return false;
    }
    match policy {
        HighlightPolicy::ShowAll => true,
        HighlightPolicy::NamedOnly => {
            let h = a.highlight.as_str();
            str_eq(h, "delivered") || str_eq(h, "started") || str_eq(h, "finished") || str_eq(
                h,
                "rejected",
            ) || str_eq(h, "accepted")
        },
    }
}

/// Buckets entries by calendar day, one bucket per contiguous run.
pub fn group_events_by_day(events: &Vec<EventEntry>) -> (r: Vec<DayEvents>)
    ensures
        r.deep_view() == group_by_day(events.deep_view()),
{
    let ghost orig = events.deep_view();
    let mut groups: Vec<DayEvents> = Vec::new();
    let mut i: usize = 0;
    while i < events.len()
        invariant
            i <= events.len(),
            orig == events.deep_view(),
            groups.deep_view() == group_by_day(orig.take(i as int)),
        decreases events.len() - i,
    {
        let ghost gs = groups.deep_view();
        let x = events[i].clone();
        assert(x@ == orig[i as int]);
        proof {
            assert(orig.take(i + 1).drop_last() =~= orig.take(i as int));
            assert(group_by_day(orig.take(i + 1)) == group_by_day_push(gs, x@));
        }
        let glen = groups.len();
        if glen > 0 && groups[glen - 1].day == x.day {
            assert(gs.last() == gs[glen - 1]);
            let mut g = groups.remove(glen - 1);
            assert(g@ == gs.last());
            let ghost g_events = g.events.deep_view();
            g.events.push(x);
            assert(g.events.deep_view() =~= g_events.push(x@));
            groups.push(g);
            proof {
                assert(groups.deep_view() =~= group_by_day_push(gs, x@));
            }
        } else {
            let mut fresh: Vec<EventEntry> = Vec::new();
            fresh.push(x);
            assert(fresh.deep_view() =~= seq![orig[i as int]]);
            groups.push(DayEvents { day: events[i].day, events: fresh });
            proof {
                assert(groups.deep_view() =~= group_by_day_push(gs, x@));
            }
        }
        i += 1;
    }
    proof {
        assert(orig.take(events.len() as int) =~= orig);
    }
    groups
}

/// Buckets entries by subject story, one bucket per contiguous run.
pub fn group_events_by_story(events: &Vec<EventEntry>) -> (r: Vec<StoryEvents>)
    ensures
        r.deep_view() == group_by_story(events.deep_view()),
{
    let ghost orig = events.deep_view();
    let mut groups: Vec<StoryEvents> = Vec::new();
    let mut i: usize = 0;
    while i < events.len()
        invariant
            i <= events.len(),
            orig == events.deep_view(),
            groups.deep_view() == group_by_story(orig.take(i as int)),
        decreases events.len() - i,
    {
        let ghost gs = groups.deep_view();
        let x = events[i].clone();
        assert(x@ == orig[i as int]);
        proof {
            assert(orig.take(i + 1).drop_last() =~= orig.take(i as int));
            assert(group_by_story(orig.take(i + 1)) == group_by_story_push(gs, x@));
        }
        let glen = groups.len();
        if glen > 0 && groups[glen - 1].story_id == x.story_id {
            assert(gs.last() == gs[glen - 1]);
            let mut g = groups.remove(glen - 1);
            assert(g@ == gs.last());
            let ghost g_events = g.events.deep_view();
            g.events.push(x);
            assert(g.events.deep_view() =~= g_events.push(x@));
            groups.push(g);
            proof {
                assert(groups.deep_view() =~= group_by_story_push(gs, x@));
            }
        } else {
            let mut fresh: Vec<EventEntry> = Vec::new();
            fresh.push(x);
            assert(fresh.deep_view() =~= seq![orig[i as int]]);
            groups.push(StoryEvents { story_id: events[i].story_id, events: fresh });
            proof {
                assert(groups.deep_view() =~= group_by_story_push(gs, x@));
            }
        }
        i += 1;
    }
    proof {
        assert(orig.take(events.len() as int) =~= orig);
    }
    groups
}

/// Every story bucket holds at least one entry.
proof fn lemma_group_by_story_nonempty(s: Seq<EventEntryModel>)
    ensures
        forall|k: int|
            0 <= k < group_by_story(s).len() ==> #[trigger] group_by_story(s)[k].events.len() > 0,
    decreases s.len(),
{
    if s.len() > 0 {
        let prev = group_by_story(s.drop_last());
        lemma_group_by_story_nonempty(s.drop_last());
        let x = s.last();
        let out = group_by_story(s);
        assert(out == group_by_story_push(prev, x));
        assert forall|k: int| 0 <= k < out.len() implies #[trigger] out[k].events.len() > 0 by {
            if prev.len() > 0 && prev.last().story_id == x.story_id {
                if k < out.len() - 1 {
                    assert(out[k] == prev[k]);
                } else {
                    assert(out[k].events == prev.last().events.push(x));
                }
            } else {
                if k < prev.len() {
                    assert(out[k] == prev[k]);
                } else {
                    assert(out[k].events == seq![x]);
                }
            }
        }
    }
}

/// One day's entries, sorted by story and bucketed, each bucket reduced to
/// its label and its chronological highlight tokens.
pub fn story_groups(events: &Vec<EventEntry>) -> (r: Vec<StoryGroup>)
    ensures
        r.deep_view() == story_groups_model(events.deep_view()),
{
    let sorted = sort_events_by_story(events);
    let buckets = group_events_by_story(&sorted);
    proof {
        lemma_group_by_story_nonempty(sorted.deep_view());
    }
    let ghost bs = buckets.deep_view();
    let mut out: Vec<StoryGroup> = Vec::new();
    let mut i: usize = 0;
    while i < buckets.len()
        invariant
            i <= buckets.len(),
            bs == buckets.deep_view(),
            forall|k: int| 0 <= k < bs.len() ==> #[trigger] bs[k].events.len() > 0,
            out.deep_view() == bs.take(i as int).map_values(
                |g: StoryEventsModel| story_group_of(g),
            ),
        decreases buckets.len() - i,
    {
        let b = &buckets[i];
        assert(b@ == bs[i as int]);
        let chron = sort_events_by_epoch(&b.events);
        let ghost ch = chron.deep_view();
        let mut hs: Vec<String> = Vec::new();
        let mut k: usize = 0;
        while k < chron.len()
            invariant
                k <= chron.len(),
                ch == chron.deep_view(),
                hs.deep_view() == ch.take(k as int).map_values(|e: EventEntryModel| e.highlight),
            decreases chron.len() - k,
        {
            let ghost hs_before = hs.deep_view();
            hs.push(chron[k].highlight.clone());
            proof {
                assert(ch[k as int] == chron@[k as int]@);
                assert(hs.deep_view() =~= hs_before.push(ch[k as int].highlight));
                assert(hs.deep_view() =~= ch.take(k + 1).map_values(
                    |e: EventEntryModel| e.highlight,
                ));
            }
            k += 1;
        }
        proof {
            assert(ch.take(chron.len() as int) =~= ch);
        }
        assert(b.events.deep_view() == bs[i as int].events);
        assert(b.events.len() > 0);
        let label = b.events[0].label.clone();
        assert(label@ == bs[i as int].events[0].label) by {
            assert(b.events.deep_view()[0] == b.events@[0].deep_view());
        }
        let sg = StoryGroup { story_id: b.story_id, label, highlights: hs };
        proof {
            assert(ch == sort_by_epoch(bs[i as int].events));
            assert(sg@.highlights =~~= story_group_of(bs[i as int]).highlights);
            assert(sg@ =~~= story_group_of(bs[i as int]));
        }
        let ghost out_before = out.deep_view();
        out.push(sg);
        proof {
            assert(out.deep_view() =~= out_before.push(sg@));
            assert(out.deep_view() =~= bs.take(i + 1).map_values(
                |g: StoryEventsModel| story_group_of(g),
            ));
        }
        i += 1;
    }
    proof {
        assert(bs.take(buckets.len() as int) =~= bs);
        assert(out.deep_view() =~~= story_groups_model(events.deep_view()));
    }
    out
}

/// Entries stand in non-decreasing order of their moment.
pub open spec fn epoch_sorted(s: Seq<EventEntryModel>) -> bool {
    forall|i: int, j: int| 0 <= i <= j < s.len() ==> s[i].epoch <= s[j].epoch
}

/// What one insertion step does: one entry more, the same entries as a
/// multiset, and order kept.
proof fn lemma_insert_by_epoch_basic(s: Seq<EventEntryModel>, x: EventEntryModel)
    ensures
        insert_by_epoch(s, x).len() == s.len() + 1,
        insert_by_epoch(s, x).to_multiset() == s.to_multiset().insert(x),
        epoch_sorted(s) ==> epoch_sorted(insert_by_epoch(s, x)),
    decreases s.len(),
{
    broadcast use vstd::seq_lib::group_to_multiset_ensures;
    broadcast use vstd::multiset::group_multiset_axioms;

    let out = insert_by_epoch(s, x);
    if s.len() == 0 {
        assert(seq![x] =~= Seq::<EventEntryModel>::empty().push(x));
        assert(Seq::<EventEntryModel>::empty().to_multiset() =~= Multiset::<
            EventEntryModel,
        >::empty()) by {
            vstd::seq_lib::to_multiset_len(Seq::<EventEntryModel>::empty());
        }
        assert(out.to_multiset() =~= s.to_multiset().insert(x));
    } else if s[0].epoch <= x.epoch {
        let rest = s.drop_first();
        lemma_insert_by_epoch_basic(rest, x);
        vstd::seq_lib::lemma_multiset_commutative(seq![s[0]], insert_by_epoch(rest, x));
        assert(s =~= seq![s[0]] + rest);
        vstd::seq_lib::lemma_multiset_commutative(seq![s[0]], rest);
        assert(out.to_multiset() =~= s.to_multiset().insert(x));
        if epoch_sorted(s) {
            assert(epoch_sorted(rest));
            let inner = insert_by_epoch(rest, x);
            assert forall|i: int, j: int| 0 <= i <= j < out.len() implies out[i].epoch
                <= out[j].epoch by {
                if i == 0 && j > 0 {
                    assert(out[j] == inner[j - 1]);
                    assert(inner.to_multiset().count(inner[j - 1]) > 0);
                    assert(inner[j - 1] == x || rest.contains(inner[j - 1]));
                }
            }
        }
    } else {
        vstd::seq_lib::lemma_multiset_commutative(seq![x], s);
        assert(seq![x] =~= Seq::<EventEntryModel>::empty().push(x));
        assert(Seq::<EventEntryModel>::empty().to_multiset() =~= Multiset::<
            EventEntryModel,
        >::empty()) by {
            vstd::seq_lib::to_multiset_len(Seq::<EventEntryModel>::empty());
        }
        assert(out.to_multiset() =~= s.to_multiset().insert(x));
    }
}

/// Sorting keeps the entries (as a multiset) and orders them by their
/// moment.
pub proof fn lemma_sort_by_epoch_properties(s: Seq<EventEntryModel>)
    ensures
        sort_by_epoch(s).len() == s.len(),
        sort_by_epoch(s).to_multiset() == s.to_multiset(),
        epoch_sorted(sort_by_epoch(s)),
    decreases s.len(),
{
    broadcast use vstd::seq_lib::group_to_multiset_ensures;
    broadcast use vstd::multiset::group_multiset_axioms;

    if s.len() == 0 {
    } else {
        let prefix = s.drop_last();
        lemma_sort_by_epoch_properties(prefix);
        lemma_insert_by_epoch_basic(sort_by_epoch(prefix), s.last());
        assert(s =~= prefix.push(s.last()));
    }
}

/// Within a story's group the highlight tokens follow the story's events in
/// non-decreasing order of occurrence: the group lists exactly the bucket's
/// events, chronologically.
pub proof fn lemma_story_group_chronological(g: StoryEventsModel)
    ensures
        story_group_of(g).highlights == sort_by_epoch(g.events).map_values(
            |e: EventEntryModel| e.highlight,
        ),
        epoch_sorted(sort_by_epoch(g.events)),
        sort_by_epoch(g.events).to_multiset() == g.events.to_multiset(),
{
    lemma_sort_by_epoch_properties(g.events);
}

/// Entries stand in non-decreasing order of their calendar day.
pub open spec fn day_sorted(s: Seq<EventEntryModel>) -> bool {
    forall|i: int, j: int| 0 <= i <= j < s.len() ==> s[i].day <= s[j].day
}

/// Bucketing day-ordered entries yields buckets with strictly ascending
/// days, the last bucket carrying the last entry's day.
proof fn lemma_group_by_day_ascending(s: Seq<EventEntryModel>)
    requires
        day_sorted(s),
    ensures
        forall|i: int, j: int|
            0 <= i < j < group_by_day(s).len() ==> #[trigger] group_by_day(s)[i].day
                < #[trigger] group_by_day(s)[j].day,
        group_by_day(s).len() > 0 ==> s.len() > 0 && group_by_day(s).last().day == s.last().day,
    decreases s.len(),
{
    if s.len() > 0 {
        let prefix = s.drop_last();
        assert(day_sorted(prefix)) by {
            assert(forall|i: int| 0 <= i < prefix.len() ==> prefix[i] == s[i]);
        }
        lemma_group_by_day_ascending(prefix);
        let prev = group_by_day(prefix);
        let x = s.last();
        let out = group_by_day(s);
        assert(out == group_by_day_push(prev, x));
        if prev.len() > 0 && prev.last().day == x.day {
            assert forall|i: int, j: int| 0 <= i < j < out.len() implies #[trigger] out[i].day
                < #[trigger] out[j].day by {
                if j < out.len() - 1 {
                    assert(out[i] == prev[i] && out[j] == prev[j]);
                } else {
                    assert(out[j].day == prev.last().day);
                    assert(out[i] == prev[i]);
                    assert(prev[i].day < prev[prev.len() - 1].day);
                }
            }
        } else {
            if prev.len() > 0 {
                assert(prefix.last() == s[s.len() - 2]);
                assert(s[s.len() - 2].day <= x.day);
                assert(prev.last().day < x.day);
            }
            assert forall|i: int, j: int| 0 <= i < j < out.len() implies #[trigger] out[i].day
                < #[trigger] out[j].day by {
                if j == out.len() - 1 {
                    assert(out[j].day == x.day);
                    assert(out[i] == prev[i]);
                    if i < prev.len() - 1 {
                        assert(prev[i].day < prev[prev.len() - 1].day);
                    }
                } else {
                    assert(out[i] == prev[i] && out[j] == prev[j]);
                }
            }
        }
    }
}

/// The report's day buckets stand in strictly ascending day order, whatever
/// the order of the records handed in.
pub proof fn lemma_report_days_ascending(
    events: Seq<ActivityModel>,
    project_id: u64,
    offset: int,
    policy: HighlightPolicy,
)
    ensures
        forall|i: int, j: int|
            0 <= i < j < aggregate_model(events, project_id, offset, policy).len()
                ==> #[trigger] aggregate_model(events, project_id, offset, policy)[i].day
                < #[trigger] aggregate_model(events, project_id, offset, policy)[j].day,
{
    broadcast use vstd::seq_lib::group_to_multiset_ensures;
    broadcast use vstd::multiset::group_multiset_axioms;

    let fl = filtered_events(events, project_id, policy);
    let entries = fl.map_values(|a: ActivityModel| event_model(a, offset));
    assert forall|k: int| 0 <= k < entries.len() implies #[trigger] entries[k].day == local_day(
        entries[k].epoch,
        offset,
    ) by {
        assert(entries[k] == event_model(fl[k], offset));
    }
    let sorted = sort_by_epoch(entries);
    lemma_sort_by_epoch_properties(entries);
    assert forall|k: int| 0 <= k < sorted.len() implies #[trigger] sorted[k].day == local_day(
        sorted[k].epoch,
        offset,
    ) by {
        assert(sorted.contains(sorted[k]));
        assert(sorted.to_multiset().count(sorted[k]) > 0);
        assert(entries.contains(sorted[k]));
        let m = choose|m: int| 0 <= m < entries.len() && entries[m] == sorted[k];
        assert(entries[m].day == local_day(entries[m].epoch, offset));
    }
    assert(day_sorted(sorted)) by {
        assert forall|i: int, j: int| 0 <= i <= j < sorted.len() implies sorted[i].day
            <= sorted[j].day by {
            crate::time::lemma_local_day_monotone(sorted[i].epoch, sorted[j].epoch, offset);
        }
    }
    lemma_group_by_day_ascending(sorted);
    let agg = aggregate_model(events, project_id, offset, policy);
    assert forall|i: int, j: int| 0 <= i < j < agg.len() implies #[trigger] agg[i].day
        < #[trigger] agg[j].day by {
        assert(agg[i] == day_group_of(group_by_day(sorted)[i]));
        assert(agg[j] == day_group_of(group_by_day(sorted)[j]));
        assert(group_by_day(sorted)[i].day < group_by_day(sorted)[j].day);
    }
}

/// What one record contributes to the report, read off the report: its
/// day, its story, and its highlight token.
pub open spec fn entry_triple(e: EventEntryModel) -> (int, u64, Seq<char>) {
    (e.day, e.story_id, e.highlight)
}

/// The triples of one story group of one day.
pub open spec fn story_triples(day: int, s: StoryGroupModel) -> Seq<(int, u64, Seq<char>)> {
    s.highlights.map_values(|h: Seq<char>| (day, s.story_id, h))
}

/// The triples of one day of the report.
pub open spec fn day_triples(d: DayGroupModel) -> Seq<(int, u64, Seq<char>)> {
    d.stories.map_values(|s: StoryGroupModel| story_triples(d.day, s)).flatten()
}

/// Every entry of the whole report, as triples in report order.
pub open spec fn report_triples(days: Seq<DayGroupModel>) -> Seq<(int, u64, Seq<char>)> {
    days.map_values(|d: DayGroupModel| day_triples(d)).flatten()
}

/// Two lists with the same elements keep the same elements under a map.
proof fn lemma_map_multiset<A, B>(s1: Seq<A>, s2: Seq<A>, f: spec_fn(A) -> B)
    requires
        s1.to_multiset() == s2.to_multiset(),
    ensures
        s1.map_values(f).to_multiset() == s2.map_values(f).to_multiset(),
    decreases s1.len(),
{
    broadcast use vstd::seq_lib::group_to_multiset_ensures;
    broadcast use vstd::multiset::group_multiset_axioms;

    if s1.len() == 0 {
        vstd::seq_lib::to_multiset_len(s1);
        vstd::seq_lib::to_multiset_len(s2);
        assert(s2.len() == 0);
        assert(s1.map_values(f) =~= s2.map_values(f));
    } else {
        let x = s1.last();
        assert(s1.contains(x));
        assert(s2.to_multiset().count(x) > 0);
        assert(s2.contains(x));
        let j = choose|j: int| 0 <= j < s2.len() && s2[j] == x;
        let s1r = s1.drop_last();
        let s2r = s2.remove(j);
        assert(s1 =~= s1r.push(x));
        assert(s1r.to_multiset() =~= s1.to_multiset().remove(x));
        assert(s2r.to_multiset() == s2.to_multiset().remove(x));
        lemma_map_multiset(s1r, s2r, f);
        assert(s1.map_values(f) =~= s1r.map_values(f).push(f(x)));
        assert(s2.map_values(f) =~= s2r.map_values(f).insert(j, f(x)));
        vstd::seq_lib::to_multiset_insert(s2r.map_values(f), j, f(x));
        assert(s1.map_values(f).to_multiset() =~= s2.map_values(f).to_multiset());
    }
}

/// What one story-insertion step does to the entries as a multiset.
proof fn lemma_insert_by_story_multiset(s: Seq<EventEntryModel>, x: EventEntryModel)
    ensures
        insert_by_story(s, x).to_multiset() == s.to_multiset().insert(x),
    decreases s.len(),
{
    broadcast use vstd::seq_lib::group_to_multiset_ensures;
    broadcast use vstd::multiset::group_multiset_axioms;

    let out = insert_by_story(s, x);
    if s.len() == 0 {
        assert(seq![x] =~= Seq::<EventEntryModel>::empty().push(x));
        assert(Seq::<EventEntryModel>::empty().to_multiset() =~= Multiset::<
            EventEntryModel,
        >::empty()) by {
            vstd::seq_lib::to_multiset_len(Seq::<EventEntryModel>::empty());
        }
        assert(out.to_multiset() =~= s.to_multiset().insert(x));
    } else if s[0].story_id <= x.story_id {
        let rest = s.drop_first();
        lemma_insert_by_story_multiset(rest, x);
        vstd::seq_lib::lemma_multiset_commutative(seq![s[0]], insert_by_story(rest, x));
        assert(s =~= seq![s[0]] + rest);
        vstd::seq_lib::lemma_multiset_commutative(seq![s[0]], rest);
        assert(out.to_multiset() =~= s.to_multiset().insert(x));
    } else {
        vstd::seq_lib::lemma_multiset_commutative(seq![x], s);
        assert(seq![x] =~= Seq::<EventEntryModel>::empty().push(x));
        assert(Seq::<EventEntryModel>::empty().to_multiset() =~= Multiset::<
            EventEntryModel,
        >::empty()) by {
            vstd::seq_lib::to_multiset_len(Seq::<EventEntryModel>::empty());
        }
        assert(out.to_multiset() =~= s.to_multiset().insert(x));
    }
}

/// Sorting by story keeps the entries as a multiset.
proof fn lemma_sort_by_story_multiset(s: Seq<EventEntryModel>)
    ensures
        sort_by_story(s).to_multiset() == s.to_multiset(),
    decreases s.len(),
{
    broadcast use vstd::seq_lib::group_to_multiset_ensures;

    if s.len() > 0 {
        let prefix = s.drop_last();
        lemma_sort_by_story_multiset(prefix);
        lemma_insert_by_story_multiset(sort_by_story(prefix), s.last());
        assert(s =~= prefix.push(s.last()));
    }
}

/// The day buckets hold, end to end, exactly the entries handed in.
proof fn lemma_group_by_day_flatten(s: Seq<EventEntryModel>)
    ensures
        group_by_day(s).map_values(|g: DayEventsModel| g.events).flatten() == s,
    decreases s.len(),
{
    if s.len() > 0 {
        let prefix = s.drop_last();
        lemma_group_by_day_flatten(prefix);
        let prev = group_by_day(prefix);
        let x = s.last();
        let m = prev.map_values(|g: DayEventsModel| g.events);
        let out = group_by_day(s);
        let m2 = out.map_values(|g: DayEventsModel| g.events);
        if prev.len() > 0 && prev.last().day == x.day {
            assert(m2 =~= m.update(m.len() - 1, m.last().push(x)));
            assert(m =~= m.drop_last().push(m.last()));
            assert(m2 =~= m.drop_last().push(m.last().push(x)));
            Seq::lemma_flatten_push(m.drop_last(), m.last());
            Seq::lemma_flatten_push(m.drop_last(), m.last().push(x));
            assert(m2.flatten() =~= m.flatten().push(x));
        } else {
            assert(m2 =~= m.push(seq![x]));
            Seq::lemma_flatten_push(m, seq![x]);
            assert(m2.flatten() =~= m.flatten().push(x));
        }
        assert(m2.flatten() =~= s);
    } else {
        assert(group_by_day(s).map_values(|g: DayEventsModel| g.events) =~= Seq::<
            Seq<EventEntryModel>,
        >::empty());
    }
}

/// The story buckets hold, end to end, exactly the entries handed in.
proof fn lemma_group_by_story_flatten(s: Seq<EventEntryModel>)
    ensures
        group_by_story(s).map_values(|g: StoryEventsModel| g.events).flatten() == s,
    decreases s.len(),
{
    if s.len() > 0 {
        let prefix = s.drop_last();
        lemma_group_by_story_flatten(prefix);
        let prev = group_by_story(prefix);
        let x = s.last();
        let m = prev.map_values(|g: StoryEventsModel| g.events);
        let out = group_by_story(s);
        let m2 = out.map_values(|g: StoryEventsModel| g.events);
        if prev.len() > 0 && prev.last().story_id == x.story_id {
            assert(m2 =~= m.update(m.len() - 1, m.last().push(x)));
            assert(m =~= m.drop_last().push(m.last()));
            assert(m2 =~= m.drop_last().push(m.last().push(x)));
            Seq::lemma_flatten_push(m.drop_last(), m.last());
            Seq::lemma_flatten_push(m.drop_last(), m.last().push(x));
            assert(m2.flatten() =~= m.flatten().push(x));
        } else {
            assert(m2 =~= m.push(seq![x]));
            Seq::lemma_flatten_push(m, seq![x]);
            assert(m2.flatten() =~= m.flatten().push(x));
        }
        assert(m2.flatten() =~= s);
    } else {
        assert(group_by_story(s).map_values(|g: StoryEventsModel| g.events) =~= Seq::<
            Seq<EventEntryModel>,
        >::empty());
    }
}

/// Every entry of a day bucket carries that bucket's day.
proof fn lemma_group_by_day_days(s: Seq<EventEntryModel>)
    ensures
        forall|k: int, m: int|
            0 <= k < group_by_day(s).len() && 0 <= m < group_by_day(s)[k].events.len() ==> (
            #[trigger] group_by_day(s)[k].events[m]).day == group_by_day(s)[k].day,
    decreases s.len(),
{
    if s.len() > 0 {
        let prefix = s.drop_last();
        lemma_group_by_day_days(prefix);
        let prev = group_by_day(prefix);
        let x = s.last();
        let out = group_by_day(s);
        assert forall|k: int, m: int|
            0 <= k < out.len() && 0 <= m < out[k].events.len() implies (
        #[trigger] out[k].events[m]).day == out[k].day by {
            if prev.len() > 0 && prev.last().day == x.day {
                if k < out.len() - 1 {
                    assert(out[k] == prev[k]);
                } else {
                    assert(out[k].events =~= prev.last().events.push(x));
                    assert(prev[prev.len() - 1] == prev.last());
                }
            } else {
                if k < prev.len() {
                    assert(out[k] == prev[k]);
                } else {
                    assert(out[k].events =~= seq![x]);
                }
            }
        }
    }
}

/// Every entry of a story bucket carries that bucket's story id.
proof fn lemma_group_by_story_ids(s: Seq<EventEntryModel>)
    ensures
        forall|k: int, m: int|
            0 <= k < group_by_story(s).len() && 0 <= m < group_by_story(s)[k].events.len() ==> (
            #[trigger] group_by_story(s)[k].events[m]).story_id == group_by_story(s)[k].story_id,
    decreases s.len(),
{
    if s.len() > 0 {
        let prefix = s.drop_last();
        lemma_group_by_story_ids(prefix);
        let prev = group_by_story(prefix);
        let x = s.last();
        let out = group_by_story(s);
        assert forall|k: int, m: int|
            0 <= k < out.len() && 0 <= m < out[k].events.len() implies (
        #[trigger] out[k].events[m]).story_id == out[k].story_id by {
            if prev.len() > 0 && prev.last().story_id == x.story_id {
                if k < out.len() - 1 {
                    assert(out[k] == prev[k]);
                } else {
                    assert(out[k].events =~= prev.last().events.push(x));
                    assert(prev[prev.len() - 1] == prev.last());
                }
            } else {
                if k < prev.len() {
                    assert(out[k] == prev[k]);
                } else {
                    assert(out[k].events =~= seq![x]);
                }
            }
        }
    }
}

/// Lists that agree piecewise as multisets agree end to end.
proof fn lemma_flatten_multiset_congruence<T>(x: Seq<Seq<T>>, y: Seq<Seq<T>>)
    requires
        x.len() == y.len(),
        forall|k: int| 0 <= k < x.len() ==> (#[trigger] x[k]).to_multiset() == y[k].to_multiset(),
    ensures
        x.flatten().to_multiset() == y.flatten().to_multiset(),
    decreases x.len(),
{
    broadcast use vstd::multiset::group_multiset_axioms;

    if x.len() > 0 {
        assert(x[0].to_multiset() == y[0].to_multiset());
        assert(forall|k: int|
            0 <= k < x.drop_first().len() ==> (#[trigger] x.drop_first()[k]).to_multiset()
                == y.drop_first()[k].to_multiset());
        lemma_flatten_multiset_congruence(x.drop_first(), y.drop_first());
        assert(x.flatten() == x[0] + x.drop_first().flatten());
        assert(y.flatten() == y[0] + y.drop_first().flatten());
        vstd::seq_lib::lemma_multiset_commutative(x[0], x.drop_first().flatten());
        vstd::seq_lib::lemma_multiset_commutative(y[0], y.drop_first().flatten());
        assert(x.flatten().to_multiset() =~= y.flatten().to_multiset());
    }
}

/// A map moves through a flatten: mapping the flattened list is flattening
/// the piecewise-mapped list.
proof fn lemma_map_flatten<A, B>(x: Seq<Seq<A>>, f: spec_fn(A) -> B)
    ensures
        x.flatten().map_values(f) == x.map_values(|s: Seq<A>| s.map_values(f)).flatten(),
    decreases x.len(),
{
    if x.len() == 0 {
        assert(x.flatten().map_values(f) =~= x.map_values(|s: Seq<A>| s.map_values(f)).flatten());
    } else {
        lemma_map_flatten(x.drop_first(), f);
        assert(x.flatten() == x[0] + x.drop_first().flatten());
        let y = x.map_values(|s: Seq<A>| s.map_values(f));
        assert(y.drop_first() =~= x.drop_first().map_values(|s: Seq<A>| s.map_values(f)));
        assert(y.flatten() == y[0] + y.drop_first().flatten());
        assert(x.flatten().map_values(f) =~= (x[0] + x.drop_first().flatten()).map_values(f));
        assert((x[0] + x.drop_first().flatten()).map_values(f) =~= x[0].map_values(f)
            + x.drop_first().flatten().map_values(f));
        assert(x.flatten().map_values(f) =~= y.flatten());
    }
}

/// A property of every entry handed to the story grouping holds in every
/// bucket.
proof fn lemma_group_by_story_preserves(s: Seq<EventEntryModel>, p: spec_fn(EventEntryModel) -> bool)
    requires
        forall|m: int| 0 <= m < s.len() ==> p(#[trigger] s[m]),
    ensures
        forall|k: int, m: int|
            0 <= k < group_by_story(s).len() && 0 <= m < group_by_story(s)[k].events.len() ==> p(
                #[trigger] group_by_story(s)[k].events[m],
            ),
    decreases s.len(),
{
    if s.len() > 0 {
        let prefix = s.drop_last();
        assert(forall|m: int| 0 <= m < prefix.len() ==> p(#[trigger] prefix[m]));
        lemma_group_by_story_preserves(prefix, p);
        let prev = group_by_story(prefix);
        let x = s.last();
        let out = group_by_story(s);
        assert forall|k: int, m: int|
            0 <= k < out.len() && 0 <= m < out[k].events.len() implies p(
            #[trigger] out[k].events[m],
        ) by {
            if prev.len() > 0 && prev.last().story_id == x.story_id {
                if k < out.len() - 1 {
                    assert(out[k] == prev[k]);
                } else {
                    assert(out[k].events =~= prev.last().events.push(x));
                    assert(prev[prev.len() - 1] == prev.last());
                }
            } else {
                if k < prev.len() {
                    assert(out[k] == prev[k]);
                } else {
                    assert(out[k].events =~= seq![x]);
                }
            }
        }
    }
}

/// One story bucket's triples are its entries' triples, in some order.
proof fn lemma_story_bucket_triples(day: int, sg: StoryEventsModel)
    requires
        forall|m: int| 0 <= m < sg.events.len() ==> (#[trigger] sg.events[m]).story_id
            == sg.story_id,
        forall|m: int| 0 <= m < sg.events.len() ==> (#[trigger] sg.events[m]).day == day,
    ensures
        story_triples(day, story_group_of(sg)).to_multiset() == sg.events.map_values(
            |e: EventEntryModel| entry_triple(e),
        ).to_multiset(),
{
    let srt = sort_by_epoch(sg.events);
    lemma_sort_by_epoch_properties(sg.events);
    let f = |e: EventEntryModel| (day, sg.story_id, e.highlight);
    assert(story_triples(day, story_group_of(sg)) =~= srt.map_values(f));
    lemma_map_multiset(srt, sg.events, f);
    assert(sg.events.map_values(f) =~= sg.events.map_values(|e: EventEntryModel| entry_triple(e)));
}

/// One day bucket's triples are its entries' triples, in some order.
proof fn lemma_day_bucket_triples(g: DayEventsModel)
    requires
        forall|m: int| 0 <= m < g.events.len() ==> (#[trigger] g.events[m]).day == g.day,
    ensures
        day_triples(day_group_of(g)).to_multiset() == g.events.map_values(
            |e: EventEntryModel| entry_triple(e),
        ).to_multiset(),
{
    broadcast use vstd::seq_lib::group_to_multiset_ensures;
    broadcast use vstd::multiset::group_multiset_axioms;

    let tr = |e: EventEntryModel| entry_triple(e);
    let srt = sort_by_story(g.events);
    lemma_sort_by_story_multiset(g.events);
    assert forall|m: int| 0 <= m < srt.len() implies (#[trigger] srt[m]).day == g.day by {
        assert(srt.contains(srt[m]));
        assert(srt.to_multiset().count(srt[m]) > 0);
        assert(g.events.contains(srt[m]));
        let w = choose|w: int| 0 <= w < g.events.len() && g.events[w] == srt[m];
        assert(g.events[w].day == g.day);
    }
    let buckets = group_by_story(srt);
    lemma_group_by_story_ids(srt);
    lemma_group_by_story_preserves(srt, |e: EventEntryModel| e.day == g.day);
    lemma_group_by_story_flatten(srt);
    let x = buckets.map_values(
        |sg: StoryEventsModel| story_triples(g.day, story_group_of(sg)),
    );
    assert(day_triples(day_group_of(g)) == x.flatten()) by {
        assert(day_group_of(g).stories =~= buckets.map_values(
            |sg: StoryEventsModel| story_group_of(sg),
        ));
        assert(day_group_of(g).stories.map_values(
            |s: StoryGroupModel| story_triples(g.day, s),
        ) =~= x);
    }
    let y = buckets.map_values(|sg: StoryEventsModel| sg.events.map_values(tr));
    assert forall|k: int| 0 <= k < x.len() implies (#[trigger] x[k]).to_multiset()
        == y[k].to_multiset() by {
        assert(forall|m: int|
            0 <= m < buckets[k].events.len() ==> (#[trigger] buckets[k].events[m]).story_id
                == buckets[k].story_id);
        assert(forall|m: int|
            0 <= m < buckets[k].events.len() ==> (|e: EventEntryModel| e.day == g.day)(
                #[trigger] buckets[k].events[m],
            ));
        lemma_story_bucket_triples(g.day, buckets[k]);
        assert(x[k] == story_triples(g.day, story_group_of(buckets[k])));
        assert(y[k] == buckets[k].events.map_values(tr));
    }
    lemma_flatten_multiset_congruence(x, y);
    let bm = buckets.map_values(|sg: StoryEventsModel| sg.events);
    lemma_map_flatten(bm, tr);
    assert(y =~= bm.map_values(|s: Seq<EventEntryModel>| s.map_values(tr)));
    assert(y.flatten() == srt.map_values(tr));
    lemma_map_multiset(srt, g.events, tr);
}

/// No record is lost and none is counted twice: as a multiset, the
/// day-story-highlight entries of the whole report are exactly the passing
/// records' day, story and highlight.
pub proof fn lemma_no_event_lost(
    events: Seq<ActivityModel>,
    project_id: u64,
    offset: int,
    policy: HighlightPolicy,
)
    ensures
        report_triples(aggregate_model(events, project_id, offset, policy)).to_multiset()
            == filtered_events(events, project_id, policy).map_values(
            |a: ActivityModel| entry_triple(event_model(a, offset)),
        ).to_multiset(),
{
    let fl = filtered_events(events, project_id, policy);
    let entries = fl.map_values(|a: ActivityModel| event_model(a, offset));
    let tr = |e: EventEntryModel| entry_triple(e);
    let sorted = sort_by_epoch(entries);
    lemma_sort_by_epoch_properties(entries);
    let buckets = group_by_day(sorted);
    lemma_group_by_day_days(sorted);
    lemma_group_by_day_flatten(sorted);
    let agg = aggregate_model(events, project_id, offset, policy);
    let x = buckets.map_values(|g: DayEventsModel| day_triples(day_group_of(g)));
    assert(report_triples(agg) == x.flatten()) by {
        assert(agg.map_values(|d: DayGroupModel| day_triples(d)) =~= x);
    }
    let y = buckets.map_values(|g: DayEventsModel| g.events.map_values(tr));
    assert forall|k: int| 0 <= k < x.len() implies (#[trigger] x[k]).to_multiset()
        == y[k].to_multiset() by {
        assert(forall|m: int|
            0 <= m < buckets[k].events.len() ==> (#[trigger] buckets[k].events[m]).day
                == buckets[k].day);
        lemma_day_bucket_triples(buckets[k]);
        assert(x[k] == day_triples(day_group_of(buckets[k])));
        assert(y[k] == buckets[k].events.map_values(tr));
    }
    lemma_flatten_multiset_congruence(x, y);
    let bm = buckets.map_values(|g: DayEventsModel| g.events);
    lemma_map_flatten(bm, tr);
    assert(y =~= bm.map_values(|s: Seq<EventEntryModel>| s.map_values(tr)));
    assert(y.flatten() == sorted.map_values(tr));
    lemma_map_multiset(sorted, entries, tr);
    assert(entries.map_values(tr) =~= fl.map_values(
        |a: ActivityModel| entry_triple(event_model(a, offset)),
    ));
}

/// Filtering is idempotent: what passed once passes again.
proof fn lemma_filter_idempotent<A>(s: Seq<A>, pred: spec_fn(A) -> bool)
    ensures
        s.filter(pred).filter(pred) == s.filter(pred),
    decreases s.len(),
{
    reveal(Seq::filter);
    if s.len() > 0 {
        let prefix = s.drop_last();
        lemma_filter_idempotent(prefix, pred);
        if pred(s.last()) {
            assert(prefix.filter(pred).push(s.last()).drop_last() =~= prefix.filter(pred));
            assert(prefix.filter(pred).push(s.last()).last() == s.last());
        }
    }
}

/// The filter commutes with the grouping: aggregating only the records that
/// pass the filter yields the very report that aggregating the whole feed
/// yields.
pub proof fn lemma_aggregate_of_filtered(
    events: Seq<ActivityModel>,
    project_id: u64,
    offset: int,
    policy: HighlightPolicy,
)
    ensures
        filtered_events(filtered_events(events, project_id, policy), project_id, policy)
            == filtered_events(events, project_id, policy),
        aggregate_model(filtered_events(events, project_id, policy), project_id, offset, policy)
            == aggregate_model(events, project_id, offset, policy),
        all_timestamps_parse(filtered_events(events, project_id, policy), project_id, policy)
            == all_timestamps_parse(events, project_id, policy),
{
    lemma_filter_idempotent(events, |a: ActivityModel| passes_filter(a, project_id, policy));
}

/// The records that pass the filter, as values.
pub fn filter_activities(events: &Vec<Activity>, project_id: u64, policy: HighlightPolicy) -> (r:
    Vec<Activity>)
    ensures
        r.deep_view() == filtered_events(events.deep_view(), project_id, policy),
{
    let ghost evsm = events.deep_view();
    let ghost pred = |a: ActivityModel| passes_filter(a, project_id, policy);
    let mut out: Vec<Activity> = Vec::new();
    let mut i: usize = 0;
    while i < events.len()
        invariant
            i <= events.len(),
            evsm == events.deep_view(),
            pred == (|a: ActivityModel| passes_filter(a, project_id, policy)),
            out.deep_view() == evsm.take(i as int).filter(pred),
        decreases events.len() - i,
    {
        let a = &events[i];
        assert(a@ == evsm[i as int]);
        proof {
            reveal(Seq::filter);
            assert(evsm.take(i + 1).drop_last() =~= evsm.take(i as int));
            assert(evsm.take(i + 1).last() == evsm[i as int]);
        }
        if passes(a, project_id, policy) {
            let ghost out_before = out.deep_view();
            out.push(a.clone());
            proof {
                assert(out.deep_view() =~= out_before.push(evsm[i as int]));
            }
        }
        i += 1;
    }
    proof {
        assert(evsm.take(events.len() as int) =~= evsm);
    }
    out
}

/// Where every record of `s1` has a readable timestamp and the first record
/// of `s2` has not, the first unreadable timestamp of `s1 + s2` is `s2`'s
/// first.
proof fn lemma_first_bad_after_good(s1: Seq<ActivityModel>, s2: Seq<ActivityModel>)
    requires
        forall|k: int|
            0 <= k < s1.len() ==> rfc3339_timestamp(#[trigger] s1[k].occurred_at) is Some,
        s2.len() > 0,
        rfc3339_timestamp(s2[0].occurred_at) is None,
    ensures
        first_bad_timestamp(s1 + s2) == s2[0].occurred_at,
    decreases s1.len(),
{
    if s1.len() == 0 {
        assert(s1 + s2 =~= s2);
    } else {
        assert((s1 + s2)[0] == s1[0]);
        assert((s1 + s2).drop_first() =~= s1.drop_first() + s2);
        lemma_first_bad_after_good(s1.drop_first(), s2);
    }
}

/// Builds the report: filters the records, parses each passing record's
/// timestamp, orders them by their moment, buckets them by calendar day in a
/// zone `tz_offset_seconds` east of UTC, and groups each day by story. Fails
/// with the first passing record whose timestamp is unreadable, and only
/// then.
pub fn aggregate(
    events: &Vec<Activity>,
    project_id: u64,
    tz_offset_seconds: i32,
    policy: HighlightPolicy,
) -> (r: Result<Vec<DayGroup>, AggregateError>)
    requires
        forall|k: int|
            0 <= k < events.deep_view().len() && passes_filter(
                #[trigger] events.deep_view()[k],
                project_id,
                policy,
            ) ==> events.deep_view()[k].primary_resources.len() > 0,
    ensures
        r is Ok <==> all_timestamps_parse(events.deep_view(), project_id, policy),
        r is Ok ==> r->Ok_0.deep_view() == aggregate_model(
            events.deep_view(),
            project_id,
            tz_offset_seconds as int,
            policy,
        ),
        r is Err ==> r->Err_0->MalformedTimestamp_0@ == first_bad_timestamp(
            filtered_events(events.deep_view(), project_id, policy),
        ),
{
    let ghost evsm = events.deep_view();
    let ghost pred = |a: ActivityModel| passes_filter(a, project_id, policy);
    let ghost off = tz_offset_seconds as int;
    let mut entries: Vec<EventEntry> = Vec::new();
    let mut i: usize = 0;
    while i < events.len()
        invariant
            i <= events.len(),
            evsm == events.deep_view(),
            pred == (|a: ActivityModel| passes_filter(a, project_id, policy)),
            off == tz_offset_seconds as int,
            forall|k: int|
                0 <= k < evsm.len() && passes_filter(#[trigger] evsm[k], project_id, policy)
                    ==> evsm[k].primary_resources.len() > 0,
            forall|k: int|
                0 <= k < evsm.take(i as int).filter(pred).len() ==> rfc3339_timestamp(
                    #[trigger] evsm.take(i as int).filter(pred)[k].occurred_at,
                ) is Some,
            entries.deep_view() == evsm.take(i as int).filter(pred).map_values(
                |a: ActivityModel| event_model(a, off),
            ),
        decreases events.len() - i,
    {
        let a = &events[i];
        assert(a@ == evsm[i as int]);
        let ghost prev = evsm.take(i as int).filter(pred);
        proof {
            reveal(Seq::filter);
            assert(evsm.take(i + 1).drop_last() =~= evsm.take(i as int));
            assert(evsm.take(i + 1).last() == evsm[i as int]);
            if pred(evsm[i as int]) {
                assert(evsm.take(i + 1).filter(pred) == prev.push(evsm[i as int]));
            } else {
                assert(evsm.take(i + 1).filter(pred) == prev);
            }
        }
        if passes(a, project_id, policy) {
            assert(evsm[i as int].primary_resources.len() > 0);
            match parse_rfc3339_timestamp(a.occurred_at.as_str()) {
                None => {
                    proof {
                        let fl = filtered_events(evsm, project_id, policy);
                        assert(evsm =~= evsm.take(i + 1) + evsm.skip(i + 1));
                        assert(fl == evsm.take(i + 1).filter(pred) + evsm.skip(i + 1).filter(pred));
                        let rest = seq![evsm[i as int]] + evsm.skip(i + 1).filter(pred);
                        assert(prev.push(evsm[i as int]) + evsm.skip(i + 1).filter(pred) =~= prev
                            + rest);
                        lemma_first_bad_after_good(prev, rest);
                        assert(fl[prev.len() as int] == evsm[i as int]);
                        assert(!all_timestamps_parse(evsm, project_id, policy));
                    }
                    return Err(AggregateError::MalformedTimestamp(a.occurred_at.clone()));
                },
                Some(seconds) => {
                    let day = day_of_timestamp(seconds, tz_offset_seconds);
                    let pr = &a.primary_resources[0];
                    assert(pr@ == evsm[i as int].primary_resources[0]) by {
                        assert(a.primary_resources.deep_view()[0]
                            == a.primary_resources@[0].deep_view());
                    }
                    let label = match &pr.name {
                        Some(n) => n.clone(),
                        None => pr.kind.clone(),
                    };
                    let entry = EventEntry {
                        epoch: seconds,
                        day,
                        story_id: pr.id,
                        label,
                        highlight: a.highlight.clone(),
                    };
                    proof {
                        assert(entry@ =~~= event_model(evsm[i as int], off));
                    }
                    let ghost entries_before = entries.deep_view();
                    entries.push(entry);
                    proof {
                        assert(entries.deep_view() =~= entries_before.push(
                            event_model(evsm[i as int], off),
                        ));
                        assert(entries.deep_view() =~= prev.push(evsm[i as int]).map_values(
                            |a: ActivityModel| event_model(a, off),
                        ));
                    }
                },
            }
        }
        i += 1;
    }
    proof {
        assert(evsm.take(events.len() as int) =~= evsm);
    }
    let sorted = sort_events_by_epoch(&entries);
    let buckets = group_events_by_day(&sorted);
    let ghost bs = buckets.deep_view();
    let mut out: Vec<DayGroup> = Vec::new();
    let mut i: usize = 0;
    while i < buckets.len()
        invariant
            i <= buckets.len(),
            bs == buckets.deep_view(),
            out.deep_view() == bs.take(i as int).map_values(|d: DayEventsModel| day_group_of(d)),
        decreases buckets.len() - i,
    {
        let b = &buckets[i];
        assert(b@ == bs[i as int]);
        let stories = story_groups(&b.events);
        let dg = DayGroup { day: b.day, stories };
        proof {
            assert(dg@ =~~= day_group_of(bs[i as int]));
        }
        let ghost out_before = out.deep_view();
        out.push(dg);
        proof {
            assert(out.deep_view() =~= out_before.push(dg@));
            assert(out.deep_view() =~= bs.take(i + 1).map_values(
                |d: DayEventsModel| day_group_of(d),
            ));
        }
        i += 1;
    }
    proof {
        assert(bs.take(buckets.len() as int) =~= bs);
        assert(out.deep_view() =~~= aggregate_model(evsm, project_id, off, policy));
    }
    Ok(out)
}

} // verus!
