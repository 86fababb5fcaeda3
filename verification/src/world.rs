//! The frame driver: owns the object table and the previous frame's
//! snapshot, runs the suspension check, the focus resolver and the event
//! engine once per frame in that fixed order, and computes the change sets
//! the event engine diffs by comparing the table against the snapshot.

use vstd::prelude::*;

use crate::events::{
    mesh_events_system, spec_picking_events, HoverChange, HoverEntry, PickingEvent,
    SelectionChange,
};
use crate::focus::{
    clear_all_for_suspension, mesh_focus, pause_for_picking_blockers, spec_mesh_focus,
    suspension_flag,
};
use crate::model::{
    hit_lists, ids_distinct, Candidate, CandidateList, ObjectId, ObjectRecord, PausedForBlockers,
    PointerInput, Selection,
};

verus! {

/// The hover change set of a frame: every pickable object carrying a hover
/// record whose value differs from the previous frame's snapshot, or whose
/// record was created this frame.
pub open spec fn hover_changes_from(
    objects: Seq<ObjectRecord>,
    prev: Seq<ObjectRecord>,
    i: int,
) -> Seq<HoverChange>
    decreases objects.len() - i,
{
    if i < 0 || i >= objects.len() {
        Seq::empty()
    } else {
        let o = objects[i];
        let rest = hover_changes_from(objects, prev, i + 1);
        if o.pickable && o.hover is Some && (o.hover_added || o.hover != prev[i].hover) {
            seq![HoverChange { entity: o.id, hover: o.hover->0, just_added: o.hover_added }] + rest
        } else {
            rest
        }
    }
}

/// The selection change set of a frame: every pickable object carrying a
/// selection record whose value differs from the previous frame's snapshot,
/// or whose record was created this frame.
pub open spec fn selection_changes_from(
    objects: Seq<ObjectRecord>,
    prev: Seq<ObjectRecord>,
    i: int,
) -> Seq<SelectionChange>
    decreases objects.len() - i,
{
    if i < 0 || i >= objects.len() {
        Seq::empty()
    } else {
        let o = objects[i];
        let rest = selection_changes_from(objects, prev, i + 1);
        if o.pickable && o.selection is Some && (o.selection_added || o.selection
            != prev[i].selection) {
            seq![
                SelectionChange {
                    entity: o.id,
                    selected: o.selection->0.selected,
                    just_added: o.selection_added,
                },
            ] + rest
        } else {
            rest
        }
    }
}

/// The click-query snapshot of a frame: every object carrying a hover
/// record, with the record's current value.
pub open spec fn hover_entries_from(objects: Seq<ObjectRecord>, i: int) -> Seq<HoverEntry>
    decreases objects.len() - i,
{
    if i < 0 || i >= objects.len() {
        Seq::empty()
    } else {
        let o = objects[i];
        let rest = hover_entries_from(objects, i + 1);
        if o.hover is Some {
            seq![HoverEntry { entity: o.id, hover: o.hover->0 }] + rest
        } else {
            rest
        }
    }
}

/// One object with its creation stamps consumed at the end of a frame.
pub open spec fn clear_added(o: ObjectRecord) -> ObjectRecord {
    ObjectRecord { hover_added: false, selection_added: false, ..o }
}

/// The whole object table with its creation stamps consumed.
pub open spec fn clear_added_all(objects: Seq<ObjectRecord>) -> Seq<ObjectRecord> {
    Seq::new(objects.len(), |i: int| clear_added(objects[i]))
}

/// The object table at the end of one frame, before the creation stamps are
/// consumed: a suspended frame force-clears every pickable object, any other
/// frame runs the focus resolution.
pub open spec fn spec_frame_objects(
    objects: Seq<ObjectRecord>,
    sources: Seq<Seq<Candidate>>,
    input: PointerInput,
) -> Seq<ObjectRecord> {
    if suspension_flag(objects) {
        clear_all_for_suspension(objects)
    } else {
        spec_mesh_focus(objects, sources, input, false)
    }
}

/// The events one frame emits, given the object table at its start and the
/// snapshot the previous frame left behind.
pub open spec fn spec_frame_events(
    objects: Seq<ObjectRecord>,
    prev: Seq<ObjectRecord>,
    sources: Seq<Seq<Candidate>>,
    input: PointerInput,
) -> Seq<PickingEvent> {
    let resolved = spec_frame_objects(objects, sources, input);
    spec_picking_events(
        hover_changes_from(resolved, prev, 0),
        selection_changes_from(resolved, prev, 0),
        hover_entries_from(resolved, 0),
        input.spec_press_edge(),
    )
}

/// Exec computation of [`hover_changes_from`].
fn collect_hover_changes(objects: &Vec<ObjectRecord>, prev: &Vec<ObjectRecord>) -> (r: Vec<
    HoverChange,
>)
    requires
        prev@.len() == objects@.len(),
    ensures
        r@ == hover_changes_from(objects@, prev@, 0),
{
    let mut r: Vec<HoverChange> = Vec::new();
    let mut i: usize = 0;
    while i < objects.len()
        invariant
            0 <= i <= objects.len(),
            prev@.len() == objects@.len(),
            r@ + hover_changes_from(objects@, prev@, i as int) == hover_changes_from(
                objects@,
                prev@,
                0,
            ),
        decreases objects.len() - i,
    {
        let o = objects[i];
        match o.hover {
            Some(h) => {
                if o.pickable && (o.hover_added || !hover_opt_eq(o.hover, prev[i].hover)) {
                    let ghost before = r@;
                    r.push(HoverChange { entity: o.id, hover: h, just_added: o.hover_added });
                    assert(r@ + hover_changes_from(objects@, prev@, i + 1) =~= before
                        + hover_changes_from(objects@, prev@, i as int));
                }
            },
            None => {
            },
        }
        i += 1;
    }
    assert(hover_changes_from(objects@, prev@, i as int) =~= Seq::<HoverChange>::empty());
    assert(r@ =~= hover_changes_from(objects@, prev@, 0));
    r
}

/// Exec computation of [`selection_changes_from`].
fn collect_selection_changes(objects: &Vec<ObjectRecord>, prev: &Vec<ObjectRecord>) -> (r: Vec<
    SelectionChange,
>)
    requires
        prev@.len() == objects@.len(),
    ensures
        r@ == selection_changes_from(objects@, prev@, 0),
{
    let mut r: Vec<SelectionChange> = Vec::new();
    let mut i: usize = 0;
    while i < objects.len()
        invariant
            0 <= i <= objects.len(),
            prev@.len() == objects@.len(),
            r@ + selection_changes_from(objects@, prev@, i as int) == selection_changes_from(
                objects@,
                prev@,
                0,
            ),
        decreases objects.len() - i,
    {
        let o = objects[i];
        match o.selection {
            Some(s) => {
                if o.pickable && (o.selection_added || !selection_opt_eq(
                    o.selection,
                    prev[i].selection,
                )) {
                    let ghost before = r@;
                    r.push(
                        SelectionChange {
                            entity: o.id,
                            selected: s.selected,
                            just_added: o.selection_added,
                        },
                    );
                    assert(r@ + selection_changes_from(objects@, prev@, i + 1) =~= before
                        + selection_changes_from(objects@, prev@, i as int));
                }
            },
            None => {
            },
        }
        i += 1;
    }
    assert(selection_changes_from(objects@, prev@, i as int) =~= Seq::<SelectionChange>::empty());
    assert(r@ =~= selection_changes_from(objects@, prev@, 0));
    r
}

/// Exec computation of [`hover_entries_from`].
fn collect_hover_entries(objects: &Vec<ObjectRecord>) -> (r: Vec<HoverEntry>)
    ensures
        r@ == hover_entries_from(objects@, 0),
{
    let mut r: Vec<HoverEntry> = Vec::new();
    let mut i: usize = 0;
    while i < objects.len()
        invariant
            0 <= i <= objects.len(),
            r@ + hover_entries_from(objects@, i as int) == hover_entries_from(objects@, 0),
        decreases objects.len() - i,
    {
        let o = objects[i];
        match o.hover {
            Some(h) => {
                let ghost before = r@;
                r.push(HoverEntry { entity: o.id, hover: h });
                assert(r@ + hover_entries_from(objects@, i + 1) =~= before + hover_entries_from(
                    objects@,
                    i as int,
                ));
            },
            None => {
            },
        }
        i += 1;
    }
    assert(hover_entries_from(objects@, i as int) =~= Seq::<HoverEntry>::empty());
    assert(r@ =~= hover_entries_from(objects@, 0));
    r
}

/// Equality of two optional hover records.
fn hover_opt_eq(a: Option<crate::model::Hover>, b: Option<crate::model::Hover>) -> (r: bool)
    ensures
        r == (a == b),
{
    match (a, b) {
        (None, None) => true,
        (Some(x), Some(y)) => rec_opt_eq(x.intersection, y.intersection) && rec_opt_eq(
            x.last_intersection,
            y.last_intersection,
        ),
        _ => false,
    }
}

/// Equality of two optional intersection records.
fn rec_opt_eq(
    a: Option<crate::model::IntersectionRecord>,
    b: Option<crate::model::IntersectionRecord>,
) -> (r: bool)
    ensures
        r == (a == b),
{
    match (a, b) {
        (None, None) => true,
        (Some(x), Some(y)) => x.token == y.token,
        _ => false,
    }
}

/// Equality of two optional selection records.
fn selection_opt_eq(a: Option<Selection>, b: Option<Selection>) -> (r: bool)
    ensures
        r == (a == b),
{
    match (a, b) {
        (None, None) => true,
        (Some(x), Some(y)) => x.selected == y.selected,
        _ => false,
    }
}

/// The creation stamps an object enters the table with: a record present at
/// creation is marked as created this frame.
pub open spec fn stamped(o: ObjectRecord) -> ObjectRecord {
    ObjectRecord {
        hover_added: o.hover is Some,
        selection_added: o.selection is Some,
        ..o
    }
}

/// What [`Picking::set_interaction`] does to one object.
pub open spec fn with_interaction(
    o: ObjectRecord,
    id: ObjectId,
    level: crate::model::Interaction,
) -> ObjectRecord {
    if o.id == id {
        ObjectRecord { interaction: level, ..o }
    } else {
        o
    }
}

/// What [`Picking::set_selection`] does to one object.
pub open spec fn with_selection(o: ObjectRecord, id: ObjectId, selected: bool) -> ObjectRecord {
    if o.id == id && o.selection is Some {
        ObjectRecord { selection: Some(Selection { selected }), ..o }
    } else {
        o
    }
}

/// Focus resolution rewrites only an object's interaction level and hover
/// value: its identity, markers, policy, selection and creation stamps come
/// through every source's sweep unchanged, and a hover record never appears
/// or disappears.
pub proof fn lemma_focus_sources_structure(
    objects: Seq<ObjectRecord>,
    sources: Seq<Seq<Candidate>>,
    clicked: bool,
)
    ensures
        crate::focus::focus_sources(objects, sources, clicked).len() == objects.len(),
        forall|i: int|
            0 <= i < objects.len() ==> same_structure(
                #[trigger] crate::focus::focus_sources(objects, sources, clicked)[i],
                objects[i],
            ),
    decreases sources.len(),
{
    if sources.len() == 0 {
    } else {
        let next = crate::focus::focus_one_source(objects, sources[0], clicked);
        assert(forall|i: int|
            0 <= i < objects.len() ==> same_structure(#[trigger] next[i], objects[i]));
        lemma_focus_sources_structure(next, sources.skip(1), clicked);
    }
}

/// Two object records that agree on everything but the interaction level
/// and the hover value, with hover records present in both or in neither.
pub open spec fn same_structure(a: ObjectRecord, b: ObjectRecord) -> bool {
    &&& a.id == b.id
    &&& a.pickable == b.pickable
    &&& a.blocker == b.blocker
    &&& a.focus_policy == b.focus_policy
    &&& a.selection == b.selection
    &&& a.hover_added == b.hover_added
    &&& a.selection_added == b.selection_added
    &&& (a.hover is Some <==> b.hover is Some)
}

/// The whole frame keeps every object's structure: only interaction levels
/// and hover values move.
pub proof fn lemma_frame_preserves_structure(
    objects: Seq<ObjectRecord>,
    sources: Seq<Seq<Candidate>>,
    input: PointerInput,
)
    ensures
        spec_frame_objects(objects, sources, input).len() == objects.len(),
        forall|i: int|
            0 <= i < objects.len() ==> same_structure(
                #[trigger] spec_frame_objects(objects, sources, input)[i],
                objects[i],
            ),
{
    if suspension_flag(objects) {
    } else {
        let start = crate::focus::release_reset_all(objects, input.spec_release_edge());
        assert(start.len() == objects.len());
        assert(forall|i: int|
            0 <= i < objects.len() ==> same_structure(#[trigger] start[i], objects[i]));
        lemma_focus_sources_structure(start, sources, input.spec_press_edge());
    }
}

/// Focus resolution leaves objects without the pickable marker entirely
/// untouched.
pub proof fn lemma_focus_keeps_nonpickable(
    objects: Seq<ObjectRecord>,
    sources: Seq<Seq<Candidate>>,
    clicked: bool,
)
    ensures
        forall|i: int|
            0 <= i < objects.len() && !(#[trigger] objects[i]).pickable
                ==> crate::focus::focus_sources(objects, sources, clicked)[i] == objects[i],
    decreases sources.len(),
{
    if sources.len() == 0 {
    } else {
        let next = crate::focus::focus_one_source(objects, sources[0], clicked);
        lemma_focus_sources_structure(objects, seq![sources[0]], clicked);
        assert(forall|i: int|
            0 <= i < objects.len() && !(#[trigger] objects[i]).pickable ==> next[i] == objects[i]);
        lemma_focus_keeps_nonpickable(next, sources.skip(1), clicked);
    }
}

/// While suspended, the frame ends with every pickable object idle and
/// unhovered: its interaction level is `Idle` and its current intersection
/// is absent.
pub proof fn lemma_suspension_clears_picking_state(
    objects: Seq<ObjectRecord>,
    sources: Seq<Seq<Candidate>>,
    input: PointerInput,
    i: int,
)
    requires
        suspension_flag(objects),
        0 <= i < objects.len(),
        objects[i].pickable,
    ensures
        spec_frame_objects(objects, sources, input)[i].interaction
            == crate::model::Interaction::Idle,
        spec_frame_objects(objects, sources, input)[i].hover is Some ==> spec_frame_objects(
            objects,
            sources,
            input,
        )[i].hover->0.intersection is None,
{
}

/// Every change entry of an object whose hover record was created this
/// frame is marked as a creation.
proof fn lemma_hover_changes_entity_added(
    objects: Seq<ObjectRecord>,
    prev: Seq<ObjectRecord>,
    i: int,
    id: ObjectId,
)
    requires
        forall|j: int|
            0 <= j < objects.len() && (#[trigger] objects[j]).id == id ==> objects[j].hover_added,
    ensures
        forall|k: int|
            0 <= k < hover_changes_from(objects, prev, i).len() && (#[trigger] hover_changes_from(
                objects,
                prev,
                i,
            )[k]).entity == id ==> hover_changes_from(objects, prev, i)[k].just_added,
    decreases objects.len() - i,
{
    if i < 0 || i >= objects.len() {
    } else {
        lemma_hover_changes_entity_added(objects, prev, i + 1, id);
        let s = hover_changes_from(objects, prev, i);
        let rest = hover_changes_from(objects, prev, i + 1);
        let o = objects[i];
        if o.pickable && o.hover is Some && (o.hover_added || o.hover != prev[i].hover) {
            let e = HoverChange { entity: o.id, hover: o.hover->0, just_added: o.hover_added };
            assert(s == seq![e] + rest);
            assert forall|k: int|
                0 <= k < s.len() && (#[trigger] s[k]).entity == id implies s[k].just_added by {
                if k == 0 {
                    assert(s[k] == e);
                } else {
                    assert(s[k] == rest[k - 1]);
                }
            }
        }
    }
}

/// The selection counterpart of [`lemma_hover_changes_entity_added`].
proof fn lemma_selection_changes_entity_added(
    objects: Seq<ObjectRecord>,
    prev: Seq<ObjectRecord>,
    i: int,
    id: ObjectId,
)
    requires
        forall|j: int|
            0 <= j < objects.len() && (#[trigger] objects[j]).id == id
                ==> objects[j].selection_added,
    ensures
        forall|k: int|
            0 <= k < selection_changes_from(objects, prev, i).len() && (
            #[trigger] selection_changes_from(objects, prev, i)[k]).entity == id
                ==> selection_changes_from(objects, prev, i)[k].just_added,
    decreases objects.len() - i,
{
    if i < 0 || i >= objects.len() {
    } else {
        lemma_selection_changes_entity_added(objects, prev, i + 1, id);
        let s = selection_changes_from(objects, prev, i);
        let rest = selection_changes_from(objects, prev, i + 1);
        let o = objects[i];
        if o.pickable && o.selection is Some && (o.selection_added || o.selection
            != prev[i].selection) {
            let e = SelectionChange {
                entity: o.id,
                selected: o.selection->0.selected,
                just_added: o.selection_added,
            };
            assert(s == seq![e] + rest);
            assert forall|k: int|
                0 <= k < s.len() && (#[trigger] s[k]).entity == id implies s[k].just_added by {
                if k == 0 {
                    assert(s[k] == e);
                } else {
                    assert(s[k] == rest[k - 1]);
                }
            }
        }
    }
}

/// A record created this frame produces no transition event on the frame of
/// its creation, whatever its initial value: a frame's events carry no hover
/// transition of an object whose hover record is new, and no selection
/// transition of one whose selection record is new. (Click events are not
/// transitions: they come from the press edge and the current state, and a
/// press can click a just-created hovered record.)
pub proof fn lemma_created_record_emits_no_event(
    objects: Seq<ObjectRecord>,
    prev: Seq<ObjectRecord>,
    sources: Seq<Seq<Candidate>>,
    input: PointerInput,
    i: int,
)
    requires
        ids_distinct(objects),
        0 <= i < objects.len(),
    ensures
        objects[i].hover_added ==> forall|k: int|
            0 <= k < spec_frame_events(objects, prev, sources, input).len()
                ==> !crate::events::is_hover_event_for(
                #[trigger] spec_frame_events(objects, prev, sources, input)[k],
                objects[i].id,
            ),
        objects[i].selection_added ==> forall|k: int|
            0 <= k < spec_frame_events(objects, prev, sources, input).len()
                ==> !crate::events::is_selection_event_for(
                #[trigger] spec_frame_events(objects, prev, sources, input)[k],
                objects[i].id,
            ),
{
    let id = objects[i].id;
    let resolved = spec_frame_objects(objects, sources, input);
    lemma_frame_preserves_structure(objects, sources, input);
    let hc = hover_changes_from(resolved, prev, 0);
    let sc = selection_changes_from(resolved, prev, 0);
    let en = hover_entries_from(resolved, 0);
    let pressed = input.spec_press_edge();
    let hev = crate::events::hover_events(hc);
    let sev = crate::events::selection_events(sc);
    let cev = crate::events::click_events(en, pressed);
    let ev = spec_frame_events(objects, prev, sources, input);
    assert(ev == hev + sev + cev);
    crate::events::lemma_hover_events_are_hover(hc, 0);
    crate::events::lemma_selection_events_are_selection(sc, 0);
    if pressed {
        crate::events::lemma_click_events_are_clicks(en, 0);
    }
    if objects[i].hover_added {
        assert forall|j: int|
            0 <= j < resolved.len() && (#[trigger] resolved[j]).id == id implies
            resolved[j].hover_added by {
            assert(resolved[j].id == objects[j].id);
            if j < i {
                assert(objects[j].id != objects[i].id);
            }
            if i < j {
                assert(objects[i].id != objects[j].id);
            }
            assert(j == i);
        }
        lemma_hover_changes_entity_added(resolved, prev, 0, id);
        crate::events::lemma_hover_events_suppress_added(hc, 0, id);
        assert forall|k: int|
            0 <= k < ev.len() implies !crate::events::is_hover_event_for(ev[k], id) by {
            if k < hev.len() {
                assert(ev[k] == hev[k]);
            } else if k < hev.len() + sev.len() {
                assert(ev[k] == sev[k - hev.len()]);
            } else {
                assert(ev[k] == cev[k - hev.len() - sev.len()]);
            }
        }
    }
    if objects[i].selection_added {
        assert forall|j: int|
            0 <= j < resolved.len() && (#[trigger] resolved[j]).id == id implies
            resolved[j].selection_added by {
            assert(resolved[j].id == objects[j].id);
            if j < i {
                assert(objects[j].id != objects[i].id);
            }
            if i < j {
                assert(objects[i].id != objects[j].id);
            }
            assert(j == i);
        }
        lemma_selection_changes_entity_added(resolved, prev, 0, id);
        crate::events::lemma_selection_events_suppress_added(sc, 0, id);
        assert forall|k: int|
            0 <= k < ev.len() implies !crate::events::is_selection_event_for(ev[k], id) by {
            if k < hev.len() {
                assert(ev[k] == hev[k]);
            } else if k < hev.len() + sev.len() {
                assert(ev[k] == sev[k - hev.len()]);
            } else {
                assert(ev[k] == cev[k - hev.len() - sev.len()]);
            }
        }
    }
}

/// Where no object's hover record was created this frame and every hover
/// value equals the snapshot's, the hover change set is empty.
proof fn lemma_no_hover_changes(objects: Seq<ObjectRecord>, prev: Seq<ObjectRecord>, i: int)
    requires
        forall|j: int|
            0 <= j < objects.len() ==> !(#[trigger] objects[j]).hover_added && objects[j].hover
                == prev[j].hover,
    ensures
        hover_changes_from(objects, prev, i) == Seq::<HoverChange>::empty(),
    decreases objects.len() - i,
{
    if i < 0 || i >= objects.len() {
    } else {
        lemma_no_hover_changes(objects, prev, i + 1);
    }
}

/// The selection counterpart of [`lemma_no_hover_changes`].
proof fn lemma_no_selection_changes(objects: Seq<ObjectRecord>, prev: Seq<ObjectRecord>, i: int)
    requires
        forall|j: int|
            0 <= j < objects.len() ==> !(#[trigger] objects[j]).selection_added
                && objects[j].selection == prev[j].selection,
    ensures
        selection_changes_from(objects, prev, i) == Seq::<SelectionChange>::empty(),
    decreases objects.len() - i,
{
    if i < 0 || i >= objects.len() {
    } else {
        lemma_no_selection_changes(objects, prev, i + 1);
    }
}

/// Idempotence of a frame: running the suspension check, the focus resolver
/// and the event engine a second time with unchanged inputs emits no event.
///
/// The law asks that no press edge fires (a press edge clicks every hovered
/// object each time it fires, by design), that no object is at once pickable
/// and a blocker (such an object could flip the suspension flag between the
/// two runs), that at most one pointer source is active (a later source
/// overwrites an earlier one's result, so two sources can keep exchanging
/// hover values), and that every object the pointer resolves already holds
/// the intersection the candidate list gives it (the one-frame shift through
/// `last_intersection` otherwise emits one more hover-over on the second
/// run).
pub proof fn lemma_second_frame_emits_nothing(
    objects: Seq<ObjectRecord>,
    sources: Seq<Seq<Candidate>>,
    input: PointerInput,
)
    requires
        !input.spec_press_edge(),
        sources.len() <= 1,
        forall|i: int|
            0 <= i < objects.len() ==> !((#[trigger] objects[i]).pickable && objects[i].blocker),
        sources.len() == 1 ==> forall|i: int|
            0 <= i < objects.len() && (#[trigger] objects[i]).pickable && objects[i].hover is Some
                && crate::focus::resolved_match(
                crate::focus::resolved_candidates(objects, sources[0]),
                objects[i].id,
            ) is Some ==> objects[i].hover->0.intersection == crate::focus::resolved_match(
                crate::focus::resolved_candidates(objects, sources[0]),
                objects[i].id,
            ),
    ensures
        ({
            let settled = clear_added_all(spec_frame_objects(objects, sources, input));
            spec_frame_events(settled, settled, sources, input) == Seq::<PickingEvent>::empty()
        }),
{
    let clicked = input.spec_press_edge();
    let rel = input.spec_release_edge();
    let f1 = spec_frame_objects(objects, sources, input);
    let s1 = clear_added_all(f1);
    lemma_frame_preserves_structure(objects, sources, input);
    assert forall|i: int|
        0 <= i < objects.len() implies (#[trigger] s1[i]).id == objects[i].id && s1[i].pickable
        == objects[i].pickable && s1[i].blocker == objects[i].blocker && s1[i].focus_policy
        == objects[i].focus_policy && s1[i].selection == objects[i].selection && (s1[i].hover
        is Some <==> objects[i].hover is Some) && !s1[i].hover_added && !s1[i].selection_added
        && s1[i].hover == f1[i].hover && s1[i].interaction == f1[i].interaction by {
        assert(s1[i] == clear_added(f1[i]));
        assert(same_structure(f1[i], objects[i]));
    }
    let s2 = spec_frame_objects(s1, sources, input);
    lemma_frame_preserves_structure(s1, sources, input);
    if suspension_flag(objects) {
        // The suspending blocker is not pickable, so the forced clear leaves
        // it alone and the second frame suspends again; clearing is
        // idempotent on hover and touches no selection.
        let b = choose|b: int|
            0 <= b < objects.len() && objects[b].blocker && objects[b].interaction
                != crate::model::Interaction::Idle;
        assert(f1[b] == crate::focus::clear_for_suspension(objects[b]));
        assert(s1[b].blocker && s1[b].interaction != crate::model::Interaction::Idle);
        assert(suspension_flag(s1));
        assert forall|i: int|
            0 <= i < s1.len() implies (#[trigger] s2[i]).hover == s1[i].hover && s2[i].selection
            == s1[i].selection by {
            assert(s2[i] == clear_added(crate::focus::clear_for_suspension(s1[i])) || s2[i]
                == crate::focus::clear_for_suspension(s1[i]));
            assert(f1[i] == crate::focus::clear_for_suspension(objects[i]));
        }
    } else {
        // The second frame does not suspend either: blockers are not
        // pickable, and the resolver rewrites pickable objects only.
        let start1 = crate::focus::release_reset_all(objects, rel);
        assert(forall|i: int|
            0 <= i < objects.len() && !(#[trigger] objects[i]).pickable ==> start1[i]
                == objects[i]);
        lemma_focus_keeps_nonpickable(start1, sources, clicked);
        assert(f1 == crate::focus::focus_sources(start1, sources, clicked));
        assert forall|i: int|
            0 <= i < objects.len() && (#[trigger] objects[i]).blocker implies s1[i].interaction
            == objects[i].interaction by {
            assert(!objects[i].pickable);
            assert(f1[i] == start1[i]);
        }
        assert(!suspension_flag(s1)) by {
            if suspension_flag(s1) {
                let b = choose|b: int|
                    0 <= b < s1.len() && s1[b].blocker && s1[b].interaction
                        != crate::model::Interaction::Idle;
                assert(objects[b].blocker && objects[b].interaction
                    != crate::model::Interaction::Idle);
            }
        }
        let start2 = crate::focus::release_reset_all(s1, rel);
        assert(s2 == crate::focus::focus_sources(start2, sources, clicked));
        assert(forall|i: int|
            0 <= i < s1.len() ==> (#[trigger] start2[i]).hover == s1[i].hover && start2[i].selection
                == s1[i].selection && start2[i].id == s1[i].id && start2[i].pickable
                == s1[i].pickable && start2[i].focus_policy == s1[i].focus_policy);
        if sources.len() == 0 {
            assert(s2 == start2);
        } else {
            let hits = sources[0];
            assert(sources.skip(1) =~= Seq::<Seq<Candidate>>::empty());
            let one1 = crate::focus::focus_one_source(start1, hits, clicked);
            assert(f1 == crate::focus::focus_sources(one1, sources.skip(1), clicked));
            assert(f1 == one1);
            let one2 = crate::focus::focus_one_source(start2, hits, clicked);
            assert(s2 == crate::focus::focus_sources(one2, sources.skip(1), clicked));
            assert(s2 == one2);
            let r0 = crate::focus::resolved_candidates(objects, hits);
            crate::focus::lemma_resolved_congruence(objects, start1, hits, 0);
            crate::focus::lemma_resolved_congruence(objects, start2, hits, 0);
            assert(crate::focus::resolved_candidates(start1, hits) == r0);
            assert(crate::focus::resolved_candidates(start2, hits) == r0);
            assert forall|i: int|
                0 <= i < s1.len() implies (#[trigger] s2[i]).hover == s1[i].hover && s2[i].selection
                == s1[i].selection by {
                let m = crate::focus::resolved_match(r0, objects[i].id);
                assert(start1[i].id == objects[i].id && start2[i].id == objects[i].id);
                assert(one1[i] == crate::focus::apply_focus(start1[i], m, clicked));
                assert(one2[i] == crate::focus::apply_focus(start2[i], m, clicked));
                assert(start1[i].hover == objects[i].hover);
                if objects[i].pickable {
                    if objects[i].hover is Some {
                        if m is Some {
                            assert(objects[i].hover->0.intersection == m);
                        }
                    }
                } else {
                    assert(one1[i] == start1[i]);
                    assert(one2[i] == start2[i]);
                }
            }
        }
    }
    // With equal hover and selection state and no creation stamps, both
    // change sets are empty, and with no press edge there are no clicks.
    assert(forall|j: int|
        0 <= j < s2.len() ==> !(#[trigger] s2[j]).hover_added && !s2[j].selection_added);
    lemma_no_hover_changes(s2, s1, 0);
    lemma_no_selection_changes(s2, s1, 0);
    let en = hover_entries_from(s2, 0);
    assert(crate::events::hover_events(Seq::<crate::events::HoverChange>::empty()) =~= Seq::<
        PickingEvent,
    >::empty());
    assert(crate::events::selection_events(Seq::<crate::events::SelectionChange>::empty()) =~= Seq::<
        PickingEvent,
    >::empty());
    assert(crate::events::click_events(en, false) =~= Seq::<PickingEvent>::empty());
    assert(spec_frame_events(s1, s1, sources, input) =~= Seq::<PickingEvent>::empty());
}

/// The picking engine: the object table, and the snapshot of it taken when
/// the previous frame's events were computed, against which this frame's
/// changes are detected.
pub struct Picking {
    objects: Vec<ObjectRecord>,
    prev: Vec<ObjectRecord>,
}

impl Picking {
    /// The current object table.
    pub closed spec fn objects(&self) -> Seq<ObjectRecord> {
        self.objects@
    }

    /// The snapshot the change detection diffs against.
    pub closed spec fn snapshot(&self) -> Seq<ObjectRecord> {
        self.prev@
    }

    /// Well-formedness: the snapshot covers the same objects in the same
    /// order, and identity tokens are distinct.
    pub open spec fn wf(&self) -> bool {
        &&& self.snapshot().len() == self.objects().len()
        &&& forall|i: int|
            0 <= i < self.objects().len() ==> self.snapshot()[i].id == self.objects()[i].id
        &&& ids_distinct(self.objects())
    }

    /// An empty engine: no objects tracked yet.
    pub fn new() -> (p: Picking)
        ensures
            p.wf(),
            p.objects() == Seq::<ObjectRecord>::empty(),
    {
        Picking { objects: Vec::new(), prev: Vec::new() }
    }

    /// The number of tracked objects.
    pub fn len(&self) -> (n: usize)
        ensures
            n == self.objects().len(),
    {
        self.objects.len()
    }

    /// The object at a table position.
    pub fn object_at(&self, i: usize) -> (o: ObjectRecord)
        requires
            i < self.objects().len(),
        ensures
            o == self.objects()[i as int],
    {
        self.objects[i]
    }

    /// Track a new object. Records present at creation are stamped as
    /// created this frame, so the next frame's event engine suppresses
    /// their first observation.
    pub fn add_object(&mut self, o: ObjectRecord)
        requires
            old(self).wf(),
            forall|i: int|
                0 <= i < old(self).objects().len() ==> old(self).objects()[i].id != o.id,
        ensures
            final(self).wf(),
            final(self).objects() == old(self).objects().push(stamped(o)),
            final(self).snapshot() == old(self).snapshot().push(stamped(o)),
    {
        let rec = ObjectRecord {
            hover_added: matches!(o.hover, Some(_)),
            selection_added: matches!(o.selection, Some(_)),
            ..o
        };
        assert(rec == stamped(o));
        self.objects.push(rec);
        self.prev.push(rec);
        assert(ids_distinct(self.objects@));
    }

    /// Set the selection state of the object with the given identity, if it
    /// is tracked and carries a selection record; the change is picked up by
    /// the next frame's event engine. Application code toggles selection in
    /// reaction to interaction transitions; the engine itself never does.
    pub fn set_selection(&mut self, id: ObjectId, selected: bool) -> (found: bool)
        requires
            old(self).wf(),
        ensures
            final(self).wf(),
            final(self).snapshot() == old(self).snapshot(),
            final(self).objects() == Seq::new(
                old(self).objects().len(),
                |i: int| with_selection(old(self).objects()[i], id, selected),
            ),
            found == exists|i: int|
                0 <= i < old(self).objects().len() && old(self).objects()[i].id == id && old(
                    self,
                ).objects()[i].selection is Some,
    {
        let ghost target = Seq::new(
            self.objects@.len(),
            |i: int| with_selection(self.objects@[i], id, selected),
        );
        let mut out: Vec<ObjectRecord> = Vec::new();
        let mut found = false;
        let mut i: usize = 0;
        while i < self.objects.len()
            invariant
                0 <= i <= self.objects@.len(),
                out@ == target.take(i as int),
                target == Seq::new(
                    self.objects@.len(),
                    |k: int| with_selection(self.objects@[k], id, selected),
                ),
                found == exists|k: int|
                    0 <= k < i && self.objects@[k].id == id && self.objects@[k].selection is Some,
            decreases self.objects@.len() - i,
        {
            let o = self.objects[i];
            let r = if o.id == id && matches!(o.selection, Some(_)) {
                found = true;
                ObjectRecord { selection: Some(Selection { selected }), ..o }
            } else {
                o
            };
            assert(r == with_selection(self.objects@[i as int], id, selected));
            out.push(r);
            assert(out@ =~= target.take(i + 1 as int));
            i += 1;
        }
        assert(out@ =~= target);
        self.objects = out;
        assert(forall|k: int|
            0 <= k < self.objects@.len() ==> self.objects@[k].id == old(self).objects()[k].id);
        assert(ids_distinct(self.objects@));
        found
    }

    /// Write the interaction level of the object with the given identity.
    /// Interaction levels of blocking surfaces (user-interface nodes) are
    /// written by the host user-interface layer, outside this engine; this
    /// is how that write reaches the suspension check.
    pub fn set_interaction(&mut self, id: ObjectId, level: crate::model::Interaction) -> (found:
        bool)
        requires
            old(self).wf(),
        ensures
            final(self).wf(),
            final(self).snapshot() == old(self).snapshot(),
            final(self).objects() == Seq::new(
                old(self).objects().len(),
                |i: int| with_interaction(old(self).objects()[i], id, level),
            ),
            found == exists|i: int|
                0 <= i < old(self).objects().len() && old(self).objects()[i].id == id,
    {
        let ghost target = Seq::new(
            self.objects@.len(),
            |i: int| with_interaction(self.objects@[i], id, level),
        );
        let mut out: Vec<ObjectRecord> = Vec::new();
        let mut found = false;
        let mut i: usize = 0;
        while i < self.objects.len()
            invariant
                0 <= i <= self.objects@.len(),
                out@ == target.take(i as int),
                target == Seq::new(
                    self.objects@.len(),
                    |k: int| with_interaction(self.objects@[k], id, level),
                ),
                found == exists|k: int| 0 <= k < i && self.objects@[k].id == id,
            decreases self.objects@.len() - i,
        {
            let o = self.objects[i];
            let r = if o.id == id {
                found = true;
                ObjectRecord { interaction: level, ..o }
            } else {
                o
            };
            assert(r == with_interaction(self.objects@[i as int], id, level));
            out.push(r);
            assert(out@ =~= target.take(i + 1 as int));
            i += 1;
        }
        assert(out@ =~= target);
        self.objects = out;
        assert(forall|k: int|
            0 <= k < self.objects@.len() ==> self.objects@[k].id == old(self).objects()[k].id);
        assert(ids_distinct(self.objects@));
        found
    }

    /// Run one frame: the suspension check, then the focus resolver, then
    /// the event engine, in that fixed order. Returns the suspension flag
    /// and the frame's events; afterwards the creation stamps are consumed
    /// and the snapshot is moved up, so the next frame diffs against this
    /// frame's outcome.
    pub fn run_frame(&mut self, input: &PointerInput, sources: &Vec<CandidateList>) -> (out: (
        PausedForBlockers,
        Vec<PickingEvent>,
    ))
        requires
            old(self).wf(),
        ensures
            final(self).wf(),
            out.0.0 == suspension_flag(old(self).objects()),
            out.1@ == spec_frame_events(
                old(self).objects(),
                old(self).snapshot(),
                hit_lists(sources@),
                *input,
            ),
            final(self).objects() == clear_added_all(
                spec_frame_objects(old(self).objects(), hit_lists(sources@), *input),
            ),
            final(self).snapshot() == final(self).objects(),
    {
        let ghost lists = hit_lists(sources@);
        let paused = pause_for_picking_blockers(&mut self.objects);
        mesh_focus(&paused, input, sources, &mut self.objects);
        assert(self.objects@ == spec_frame_objects(old(self).objects(), lists, *input));
        proof {
            lemma_frame_preserves_structure(old(self).objects(), lists, *input);
        }
        let hc = collect_hover_changes(&self.objects, &self.prev);
        let sc = collect_selection_changes(&self.objects, &self.prev);
        let entries = collect_hover_entries(&self.objects);
        let events = mesh_events_system(input, &hc, &sc, &entries);
        let ghost resolved = self.objects@;
        let mut out: Vec<ObjectRecord> = Vec::new();
        let mut i: usize = 0;
        while i < self.objects.len()
            invariant
                0 <= i <= self.objects@.len(),
                out@ == clear_added_all(self.objects@).take(i as int),
            decreases self.objects@.len() - i,
        {
            let o = self.objects[i];
            let r = ObjectRecord { hover_added: false, selection_added: false, ..o };
            assert(r == clear_added(self.objects@[i as int]));
            out.push(r);
            assert(out@ =~= clear_added_all(self.objects@).take(i + 1 as int));
            i += 1;
        }
        assert(out@ =~= clear_added_all(self.objects@));
        let mut copy: Vec<ObjectRecord> = Vec::new();
        let mut j: usize = 0;
        while j < out.len()
            invariant
                0 <= j <= out@.len(),
                copy@ == out@.take(j as int),
            decreases out@.len() - j,
        {
            copy.push(out[j]);
            assert(copy@ =~= out@.take(j + 1 as int));
            j += 1;
        }
        assert(copy@ =~= out@);
        self.objects = out;
        self.prev = copy;
        assert(forall|k: int|
            0 <= k < self.objects@.len() ==> #[trigger] self.objects@[k].id == old(
                self,
            ).objects()[k].id);
        assert(ids_distinct(self.objects@));
        (paused, events)
    }
}

} // verus!
