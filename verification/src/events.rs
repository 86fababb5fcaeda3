//! The event engine: convert this frame's confirmed state changes into a
//! normalized, ordered event sequence. Events are a pure diff over the
//! change sets: hover transitions first, then selection transitions, then
//! the click events of a press edge; nothing is buffered or retried.

use vstd::prelude::*;

use crate::model::{Hover, IntersectionRecord, ObjectId, PointerInput};

verus! {

/// A change of the selection state of a selection-enabled pickable object.
#[derive(Clone, Copy, PartialEq, Eq, Structural, Debug)]
pub enum SelectionEvent {
    JustSelected(ObjectId),
    JustDeselected(ObjectId),
}

/// A change of the hover state of a hover-enabled pickable object.
#[derive(Clone, Copy, PartialEq, Eq, Structural, Debug)]
pub enum HoverEvent {
    JustEntered { entity: ObjectId, intersection: IntersectionRecord },
    HoverOver { entity: ObjectId, intersection: IntersectionRecord },
    JustLeft(ObjectId),
}

/// An event that wraps selection, hover and click events.
#[derive(Clone, Copy, PartialEq, Eq, Structural, Debug)]
pub enum PickingEvent {
    Selection(SelectionEvent),
    Hover(HoverEvent),
    Clicked { entity: ObjectId, intersection: IntersectionRecord },
}

/// One entry of the hover change set: a pickable object whose hover record
/// differs from the previous frame's snapshot, with its current value and
/// whether the record was created this frame.
#[derive(Clone, Copy, PartialEq, Eq, Structural, Debug)]
pub struct HoverChange {
    pub entity: ObjectId,
    pub hover: Hover,
    pub just_added: bool,
}

/// One entry of the selection change set.
#[derive(Clone, Copy, PartialEq, Eq, Structural, Debug)]
pub struct SelectionChange {
    pub entity: ObjectId,
    pub selected: bool,
    pub just_added: bool,
}

/// One row of the click-query snapshot: any object currently carrying a
/// hover record, with that record's value.
#[derive(Clone, Copy, PartialEq, Eq, Structural, Debug)]
pub struct HoverEntry {
    pub entity: ObjectId,
    pub hover: Hover,
}

/// The hover event one change entry stands for: entering where no previous
/// intersection was recorded, hovering over where one was, leaving where the
/// current intersection is absent.
pub open spec fn hover_event_of(c: HoverChange) -> PickingEvent {
    match c.hover.intersection {
        Some(rec) => if c.hover.last_intersection is None {
            PickingEvent::Hover(HoverEvent::JustEntered { entity: c.entity, intersection: rec })
        } else {
            PickingEvent::Hover(HoverEvent::HoverOver { entity: c.entity, intersection: rec })
        },
        None => PickingEvent::Hover(HoverEvent::JustLeft(c.entity)),
    }
}

/// The hover events of the change entries from position `i` on; entries of
/// records created this frame are suppressed.
pub open spec fn hover_events_from(changes: Seq<HoverChange>, i: int) -> Seq<PickingEvent>
    decreases changes.len() - i,
{
    if i < 0 || i >= changes.len() {
        Seq::empty()
    } else if changes[i].just_added {
        hover_events_from(changes, i + 1)
    } else {
        seq![hover_event_of(changes[i])] + hover_events_from(changes, i + 1)
    }
}

/// All hover events of a frame's hover change set.
pub open spec fn hover_events(changes: Seq<HoverChange>) -> Seq<PickingEvent> {
    hover_events_from(changes, 0)
}

/// The selection event one change entry stands for.
pub open spec fn selection_event_of(c: SelectionChange) -> PickingEvent {
    if c.selected {
        PickingEvent::Selection(SelectionEvent::JustSelected(c.entity))
    } else {
        PickingEvent::Selection(SelectionEvent::JustDeselected(c.entity))
    }
}

/// The selection events of the change entries from position `i` on; entries
/// of records created this frame are suppressed.
pub open spec fn selection_events_from(changes: Seq<SelectionChange>, i: int) -> Seq<PickingEvent>
    decreases changes.len() - i,
{
    if i < 0 || i >= changes.len() {
        Seq::empty()
    } else if changes[i].just_added {
        selection_events_from(changes, i + 1)
    } else {
        seq![selection_event_of(changes[i])] + selection_events_from(changes, i + 1)
    }
}

/// All selection events of a frame's selection change set.
pub open spec fn selection_events(changes: Seq<SelectionChange>) -> Seq<PickingEvent> {
    selection_events_from(changes, 0)
}

/// The click events of the snapshot rows from position `i` on: one per
/// object whose current intersection is present.
pub open spec fn click_events_from(entries: Seq<HoverEntry>, i: int) -> Seq<PickingEvent>
    decreases entries.len() - i,
{
    if i < 0 || i >= entries.len() {
        Seq::empty()
    } else {
        match entries[i].hover.intersection {
            Some(rec) => seq![
                PickingEvent::Clicked { entity: entries[i].entity, intersection: rec },
            ] + click_events_from(entries, i + 1),
            None => click_events_from(entries, i + 1),
        }
    }
}

/// All click events of a frame: one per currently hovered object when a
/// press edge fired, none otherwise. The edge is a single OR-combined
/// signal, so several input sources firing it in the same frame yield the
/// events once.
pub open spec fn click_events(entries: Seq<HoverEntry>, pressed: bool) -> Seq<PickingEvent> {
    if pressed {
        click_events_from(entries, 0)
    } else {
        Seq::empty()
    }
}

/// The whole event sequence of one frame, in the fixed rule order: hover
/// transitions, then selection transitions, then clicks.
pub open spec fn spec_picking_events(
    hover_changes: Seq<HoverChange>,
    selection_changes: Seq<SelectionChange>,
    snapshot: Seq<HoverEntry>,
    pressed: bool,
) -> Seq<PickingEvent> {
    hover_events(hover_changes) + selection_events(selection_changes) + click_events(
        snapshot,
        pressed,
    )
}

/// Whether an event is a hover transition (entered, over, left) of the
/// given object.
pub open spec fn is_hover_event_for(e: PickingEvent, id: ObjectId) -> bool {
    match e {
        PickingEvent::Hover(h) => match h {
            HoverEvent::JustEntered { entity, .. } => entity == id,
            HoverEvent::HoverOver { entity, .. } => entity == id,
            HoverEvent::JustLeft(entity) => entity == id,
        },
        _ => false,
    }
}

/// Whether an event is a selection transition of the given object.
pub open spec fn is_selection_event_for(e: PickingEvent, id: ObjectId) -> bool {
    match e {
        PickingEvent::Selection(s) => match s {
            SelectionEvent::JustSelected(entity) => entity == id,
            SelectionEvent::JustDeselected(entity) => entity == id,
        },
        _ => false,
    }
}

/// Hover change entries produce only hover-variant events.
pub proof fn lemma_hover_events_are_hover(changes: Seq<HoverChange>, i: int)
    ensures
        forall|k: int|
            0 <= k < hover_events_from(changes, i).len() ==> hover_events_from(
                changes,
                i,
            )[k] is Hover,
    decreases changes.len() - i,
{
    if i < 0 || i >= changes.len() {
    } else {
        lemma_hover_events_are_hover(changes, i + 1);
    }
}

/// Selection change entries produce only selection-variant events.
pub proof fn lemma_selection_events_are_selection(changes: Seq<SelectionChange>, i: int)
    ensures
        forall|k: int|
            0 <= k < selection_events_from(changes, i).len() ==> selection_events_from(
                changes,
                i,
            )[k] is Selection,
    decreases changes.len() - i,
{
    if i < 0 || i >= changes.len() {
    } else {
        lemma_selection_events_are_selection(changes, i + 1);
    }
}

/// Click rows produce only click-variant events.
pub proof fn lemma_click_events_are_clicks(entries: Seq<HoverEntry>, i: int)
    ensures
        forall|k: int|
            0 <= k < click_events_from(entries, i).len() ==> click_events_from(
                entries,
                i,
            )[k] is Clicked,
    decreases entries.len() - i,
{
    if i < 0 || i >= entries.len() {
    } else {
        lemma_click_events_are_clicks(entries, i + 1);
    }
}

/// Where every hover change entry of an object is a creation, the hover
/// events carry no transition of that object: a record created this frame is
/// suppressed, whatever its value.
pub proof fn lemma_hover_events_suppress_added(changes: Seq<HoverChange>, i: int, id: ObjectId)
    requires
        forall|k: int|
            0 <= k < changes.len() && changes[k].entity == id ==> changes[k].just_added,
    ensures
        forall|k: int|
            0 <= k < hover_events_from(changes, i).len() ==> !is_hover_event_for(
                #[trigger] hover_events_from(changes, i)[k],
                id,
            ),
    decreases changes.len() - i,
{
    if i < 0 || i >= changes.len() {
    } else {
        lemma_hover_events_suppress_added(changes, i + 1, id);
        let s = hover_events_from(changes, i);
        let rest = hover_events_from(changes, i + 1);
        if changes[i].just_added {
            assert(s == rest);
            assert forall|k: int| 0 <= k < s.len() implies !is_hover_event_for(s[k], id) by {
                assert(s[k] == rest[k]);
            }
        } else {
            assert(changes[i].entity != id);
            assert(s == seq![hover_event_of(changes[i])] + rest);
            assert forall|k: int| 0 <= k < s.len() implies !is_hover_event_for(s[k], id) by {
                if k == 0 {
                    assert(s[k] == hover_event_of(changes[i]));
                } else {
                    assert(s[k] == rest[k - 1]);
                }
            }
        }
    }
}

/// The selection counterpart of [`lemma_hover_events_suppress_added`].
pub proof fn lemma_selection_events_suppress_added(
    changes: Seq<SelectionChange>,
    i: int,
    id: ObjectId,
)
    requires
        forall|k: int|
            0 <= k < changes.len() && changes[k].entity == id ==> changes[k].just_added,
    ensures
        forall|k: int|
            0 <= k < selection_events_from(changes, i).len() ==> !is_selection_event_for(
                #[trigger] selection_events_from(changes, i)[k],
                id,
            ),
    decreases changes.len() - i,
{
    if i < 0 || i >= changes.len() {
    } else {
        lemma_selection_events_suppress_added(changes, i + 1, id);
        let s = selection_events_from(changes, i);
        let rest = selection_events_from(changes, i + 1);
        if changes[i].just_added {
            assert(s == rest);
            assert forall|k: int| 0 <= k < s.len() implies !is_selection_event_for(s[k], id) by {
                assert(s[k] == rest[k]);
            }
        } else {
            assert(changes[i].entity != id);
            assert(s == seq![selection_event_of(changes[i])] + rest);
            assert forall|k: int| 0 <= k < s.len() implies !is_selection_event_for(s[k], id) by {
                if k == 0 {
                    assert(s[k] == selection_event_of(changes[i]));
                } else {
                    assert(s[k] == rest[k - 1]);
                }
            }
        }
    }
}

/// The number of snapshot rows whose current intersection is present.
pub open spec fn hovered_count(entries: Seq<HoverEntry>, i: int) -> int
    decreases entries.len() - i,
{
    if i < 0 || i >= entries.len() {
        0
    } else if entries[i].hover.intersection is Some {
        1 + hovered_count(entries, i + 1)
    } else {
        hovered_count(entries, i + 1)
    }
}

/// A press edge yields exactly one click event per hovered object — however
/// many input sources fired the edge in the same frame, the events depend
/// only on the single OR-combined signal.
pub proof fn lemma_one_click_per_hovered_object(entries: Seq<HoverEntry>, i: int)
    ensures
        click_events_from(entries, i).len() == hovered_count(entries, i),
    decreases entries.len() - i,
{
    if i < 0 || i >= entries.len() {
    } else {
        lemma_one_click_per_hovered_object(entries, i + 1);
    }
}

/// Event engine: look for changes in hover or selection state and return
/// the corresponding events, followed by a click event for every currently
/// hovered object when a press edge fired. Entries whose record was created
/// this frame produce no transition event, whatever their value: a fresh
/// record's first observation is not an edge.
pub fn mesh_events_system(
    input: &PointerInput,
    hover_changes: &Vec<HoverChange>,
    selection_changes: &Vec<SelectionChange>,
    click_query: &Vec<HoverEntry>,
) -> (events: Vec<PickingEvent>)
    ensures
        events@ == spec_picking_events(
            hover_changes@,
            selection_changes@,
            click_query@,
            input.spec_press_edge(),
        ),
{
    let mut events: Vec<PickingEvent> = Vec::new();
    let mut i: usize = 0;
    while i < hover_changes.len()
        invariant
            0 <= i <= hover_changes.len(),
            events@ + hover_events_from(hover_changes@, i as int) == hover_events(hover_changes@),
        decreases hover_changes.len() - i,
    {
        let c = hover_changes[i];
        if !c.just_added {
            let ghost before = events@;
            match c.hover.intersection {
                Some(rec) => {
                    if matches!(c.hover.last_intersection, None) {
                        events.push(
                            PickingEvent::Hover(
                                HoverEvent::JustEntered { entity: c.entity, intersection: rec },
                            ),
                        );
                    } else {
                        events.push(
                            PickingEvent::Hover(
                                HoverEvent::HoverOver { entity: c.entity, intersection: rec },
                            ),
                        );
                    }
                },
                None => {
                    events.push(PickingEvent::Hover(HoverEvent::JustLeft(c.entity)));
                },
            }
            assert(events@ =~= before + seq![hover_event_of(hover_changes@[i as int])]);
            assert(events@ + hover_events_from(hover_changes@, i + 1) =~= before
                + hover_events_from(hover_changes@, i as int));
        }
        i += 1;
    }
    assert(hover_events_from(hover_changes@, i as int) =~= Seq::<PickingEvent>::empty());
    assert(events@ =~= hover_events(hover_changes@));
    let ghost after_hover = events@;
    let mut j: usize = 0;
    while j < selection_changes.len()
        invariant
            0 <= j <= selection_changes.len(),
            events@ + selection_events_from(selection_changes@, j as int) == after_hover
                + selection_events(selection_changes@),
        decreases selection_changes.len() - j,
    {
        let c = selection_changes[j];
        if !c.just_added {
            let ghost before = events@;
            if c.selected {
                events.push(PickingEvent::Selection(SelectionEvent::JustSelected(c.entity)));
            } else {
                events.push(PickingEvent::Selection(SelectionEvent::JustDeselected(c.entity)));
            }
            assert(events@ =~= before + seq![selection_event_of(selection_changes@[j as int])]);
            assert(events@ + selection_events_from(selection_changes@, j + 1) =~= before
                + selection_events_from(selection_changes@, j as int));
        }
        j += 1;
    }
    assert(selection_events_from(selection_changes@, j as int) =~= Seq::<PickingEvent>::empty());
    assert(events@ =~= after_hover + selection_events(selection_changes@));
    let ghost after_selection = events@;
    if input.press_edge() {
        let mut k: usize = 0;
        while k < click_query.len()
            invariant
                0 <= k <= click_query.len(),
                events@ + click_events_from(click_query@, k as int) == after_selection
                    + click_events_from(click_query@, 0),
            decreases click_query.len() - k,
        {
            let e = click_query[k];
            match e.hover.intersection {
                Some(rec) => {
                    let ghost before = events@;
                    events.push(PickingEvent::Clicked { entity: e.entity, intersection: rec });
                    assert(events@ + click_events_from(click_query@, k + 1) =~= before
                        + click_events_from(click_query@, k as int));
                },
                None => {
                },
            }
            k += 1;
        }
        assert(click_events_from(click_query@, k as int) =~= Seq::<PickingEvent>::empty());
        assert(events@ =~= after_selection + click_events(click_query@, true));
    }
    assert(events@ =~= spec_picking_events(
        hover_changes@,
        selection_changes@,
        click_query@,
        input.spec_press_edge(),
    ));
    events
}

} // verus!
