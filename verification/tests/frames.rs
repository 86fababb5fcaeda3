use picking_core::events::{HoverEvent, PickingEvent, SelectionEvent};
use picking_core::model::{
    Candidate, CandidateList, FocusPolicy, Hover, Interaction, IntersectionRecord, ObjectRecord,
    PointerInput, Selection,
};
use picking_core::world::Picking;

fn rec(token: u64) -> IntersectionRecord {
    IntersectionRecord { token }
}

fn pickable(id: u64) -> ObjectRecord {
    ObjectRecord {
        id,
        pickable: true,
        blocker: false,
        interaction: Interaction::Idle,
        focus_policy: None,
        hover: Some(Hover { intersection: None, last_intersection: None }),
        selection: None,
        hover_added: false,
        selection_added: false,
    }
}

fn idle_input() -> PointerInput {
    PointerInput {
        mouse_just_pressed: false,
        mouse_just_released: false,
        touch_just_pressed: false,
        touch_just_released: false,
    }
}

fn source(hits: Vec<Candidate>) -> Vec<CandidateList> {
    vec![CandidateList { hits }]
}

fn find(p: &Picking, id: u64) -> ObjectRecord {
    let mut i = 0;
    while i < p.len() {
        let o = p.object_at(i);
        if o.id == id {
            return o;
        }
        i += 1;
    }
    panic!("object not tracked");
}

#[test]
fn created_records_emit_nothing_on_their_first_frame() {
    let mut p = Picking::new();
    let mut o = pickable(1);
    o.hover = Some(Hover { intersection: Some(rec(9)), last_intersection: None });
    o.selection = Some(Selection { selected: true });
    p.add_object(o);
    let (_, events) = p.run_frame(&idle_input(), &Vec::new());
    assert_eq!(events.len(), 0);
}

#[test]
fn hover_sequence_enter_over_leave() {
    let mut p = Picking::new();
    p.add_object(pickable(1));
    // Creation frame: the fresh record is suppressed.
    let (_, e0) = p.run_frame(&idle_input(), &Vec::new());
    assert_eq!(e0.len(), 0);
    // The record existed from a prior absent-state frame: entering is an edge.
    let (_, e1) = p.run_frame(
        &idle_input(),
        &source(vec![Candidate { object: 1, intersection: rec(11) }]),
    );
    assert_eq!(
        e1,
        vec![PickingEvent::Hover(HoverEvent::JustEntered { entity: 1, intersection: rec(11) })]
    );
    // Still intersecting, with a new record: hovering over.
    let (_, e2) = p.run_frame(
        &idle_input(),
        &source(vec![Candidate { object: 1, intersection: rec(12) }]),
    );
    assert_eq!(
        e2,
        vec![PickingEvent::Hover(HoverEvent::HoverOver { entity: 1, intersection: rec(12) })]
    );
    // Intersection lost (the pointer still reports, with no hits): leaving.
    let (_, e3) = p.run_frame(&idle_input(), &source(Vec::new()));
    assert_eq!(e3, vec![PickingEvent::Hover(HoverEvent::JustLeft(1))]);
}

#[test]
fn press_on_hovered_object_enters_then_clicks_once() {
    let mut p = Picking::new();
    p.add_object(pickable(7));
    let (_, e0) = p.run_frame(&idle_input(), &Vec::new());
    assert_eq!(e0.len(), 0);
    // Mouse and touch both fire the press edge: the OR-combined signal
    // clicks the one hovered object exactly once.
    let input = PointerInput {
        mouse_just_pressed: true,
        mouse_just_released: false,
        touch_just_pressed: true,
        touch_just_released: false,
    };
    let (_, events) = p.run_frame(
        &input,
        &source(vec![Candidate { object: 7, intersection: rec(5) }]),
    );
    assert_eq!(
        events,
        vec![
            PickingEvent::Hover(HoverEvent::JustEntered { entity: 7, intersection: rec(5) }),
            PickingEvent::Clicked { entity: 7, intersection: rec(5) },
        ]
    );
    let clicks = events
        .iter()
        .filter(|e| matches!(e, PickingEvent::Clicked { .. }))
        .count();
    assert_eq!(clicks, 1);
    assert_eq!(find(&p, 7).interaction, Interaction::Clicked);
}

#[test]
fn release_resets_clicked_to_idle() {
    let mut p = Picking::new();
    p.add_object(pickable(7));
    p.run_frame(&idle_input(), &Vec::new());
    let press = PointerInput { mouse_just_pressed: true, ..idle_input() };
    p.run_frame(&press, &source(vec![Candidate { object: 7, intersection: rec(5) }]));
    assert_eq!(find(&p, 7).interaction, Interaction::Clicked);
    let release = PointerInput { mouse_just_released: true, ..idle_input() };
    p.run_frame(&release, &source(vec![Candidate { object: 7, intersection: rec(5) }]));
    // Reset on the release edge, then re-promoted to Hovered by the same
    // frame's resolution.
    assert_eq!(find(&p, 7).interaction, Interaction::Hovered);
    p.run_frame(&release, &source(Vec::new()));
    assert_eq!(find(&p, 7).interaction, Interaction::Idle);
}

#[test]
fn suspension_clears_every_pickable_and_emits_just_left() {
    let mut p = Picking::new();
    p.add_object(pickable(1));
    let mut blocker = pickable(2);
    blocker.pickable = false;
    blocker.blocker = true;
    blocker.hover = None;
    p.add_object(blocker);
    p.run_frame(&idle_input(), &Vec::new());
    let (_, e1) = p.run_frame(
        &idle_input(),
        &source(vec![Candidate { object: 1, intersection: rec(3) }]),
    );
    assert_eq!(
        e1,
        vec![PickingEvent::Hover(HoverEvent::JustEntered { entity: 1, intersection: rec(3) })]
    );
    assert_eq!(find(&p, 1).interaction, Interaction::Hovered);
    // The blocking surface reports an interaction: the frame suspends and
    // force-clears all picking state, even though the candidate is still
    // under the pointer.
    assert!(p.set_interaction(2, Interaction::Hovered));
    let (paused, e2) = p.run_frame(
        &idle_input(),
        &source(vec![Candidate { object: 1, intersection: rec(3) }]),
    );
    assert!(paused.0);
    assert_eq!(e2, vec![PickingEvent::Hover(HoverEvent::JustLeft(1))]);
    let cleared = find(&p, 1);
    assert_eq!(cleared.interaction, Interaction::Idle);
    assert_eq!(cleared.hover.unwrap().intersection, None);
}

#[test]
fn second_frame_with_unchanged_inputs_emits_nothing() {
    let mut p = Picking::new();
    p.add_object(pickable(1));
    p.add_object(pickable(2));
    p.run_frame(&idle_input(), &Vec::new());
    let hits = vec![Candidate { object: 1, intersection: rec(4) }];
    let (_, e1) = p.run_frame(&idle_input(), &source(hits.clone()));
    assert_eq!(e1.len(), 1);
    // The one-frame shift through last_intersection settles after one more
    // run with the same inputs...
    let (_, e2) = p.run_frame(&idle_input(), &source(hits.clone()));
    assert_eq!(
        e2,
        vec![PickingEvent::Hover(HoverEvent::HoverOver { entity: 1, intersection: rec(4) })]
    );
    // ...and from a settled state, a repeated frame is silent.
    let (_, e3) = p.run_frame(&idle_input(), &source(hits.clone()));
    assert_eq!(e3.len(), 0);
    let (_, e4) = p.run_frame(&idle_input(), &source(hits));
    assert_eq!(e4.len(), 0);
}

#[test]
fn selection_toggles_emit_selected_then_deselected() {
    let mut p = Picking::new();
    let mut o = pickable(3);
    o.selection = Some(Selection { selected: false });
    p.add_object(o);
    let (_, e0) = p.run_frame(&idle_input(), &Vec::new());
    assert_eq!(e0.len(), 0);
    assert!(p.set_selection(3, true));
    let (_, e1) = p.run_frame(&idle_input(), &Vec::new());
    assert_eq!(e1, vec![PickingEvent::Selection(SelectionEvent::JustSelected(3))]);
    assert!(p.set_selection(3, false));
    let (_, e2) = p.run_frame(&idle_input(), &Vec::new());
    assert_eq!(e2, vec![PickingEvent::Selection(SelectionEvent::JustDeselected(3))]);
    // Unchanged selection emits nothing.
    assert!(p.set_selection(3, false));
    let (_, e3) = p.run_frame(&idle_input(), &Vec::new());
    assert_eq!(e3.len(), 0);
    // An untracked object, or one without a selection record, is not found.
    assert!(!p.set_selection(99, true));
}

#[test]
fn later_pointer_source_overwrites_earlier_resolution() {
    let mut p = Picking::new();
    p.add_object(pickable(1));
    p.add_object(pickable(2));
    p.run_frame(&idle_input(), &Vec::new());
    let sources = vec![
        CandidateList { hits: vec![Candidate { object: 1, intersection: rec(10) }] },
        CandidateList { hits: vec![Candidate { object: 2, intersection: rec(20) }] },
    ];
    p.run_frame(&idle_input(), &sources);
    // The second source's sweep demoted the first source's target again.
    assert_eq!(find(&p, 1).interaction, Interaction::Idle);
    assert_eq!(find(&p, 1).hover.unwrap().intersection, None);
    assert_eq!(find(&p, 2).interaction, Interaction::Hovered);
    assert_eq!(find(&p, 2).hover.unwrap().intersection, Some(rec(20)));
}

#[test]
fn last_intersection_holds_previous_frames_value() {
    let mut p = Picking::new();
    p.add_object(pickable(1));
    p.run_frame(&idle_input(), &Vec::new());
    p.run_frame(&idle_input(), &source(vec![Candidate { object: 1, intersection: rec(4) }]));
    let h1 = find(&p, 1).hover.unwrap();
    assert_eq!(h1.intersection, Some(rec(4)));
    assert_eq!(h1.last_intersection, None);
    p.run_frame(&idle_input(), &source(vec![Candidate { object: 1, intersection: rec(5) }]));
    let h2 = find(&p, 1).hover.unwrap();
    assert_eq!(h2.intersection, Some(rec(5)));
    assert_eq!(h2.last_intersection, Some(rec(4)));
    p.run_frame(&idle_input(), &source(Vec::new()));
    let h3 = find(&p, 1).hover.unwrap();
    assert_eq!(h3.intersection, None);
    assert_eq!(h3.last_intersection, None);
}

#[test]
fn pass_policy_objects_all_hover_in_one_frame() {
    let mut p = Picking::new();
    for id in 1..=3 {
        let mut o = pickable(id);
        o.focus_policy = Some(FocusPolicy::Pass);
        p.add_object(o);
    }
    p.run_frame(&idle_input(), &Vec::new());
    let hits = vec![
        Candidate { object: 1, intersection: rec(31) },
        Candidate { object: 2, intersection: rec(32) },
        Candidate { object: 3, intersection: rec(33) },
    ];
    p.run_frame(&idle_input(), &source(hits));
    for id in 1..=3 {
        let o = find(&p, id);
        assert_eq!(o.interaction, Interaction::Hovered);
        assert_eq!(o.hover.unwrap().intersection, Some(rec(30 + id)));
    }
}

#[test]
fn block_policy_resolves_only_the_nearest_object() {
    let mut p = Picking::new();
    p.add_object(pickable(1));
    p.add_object(pickable(2));
    p.run_frame(&idle_input(), &Vec::new());
    let hits = vec![
        Candidate { object: 1, intersection: rec(41) },
        Candidate { object: 2, intersection: rec(42) },
    ];
    p.run_frame(&idle_input(), &source(hits));
    assert_eq!(find(&p, 1).interaction, Interaction::Hovered);
    assert_eq!(find(&p, 1).hover.unwrap().intersection, Some(rec(41)));
    assert_eq!(find(&p, 2).interaction, Interaction::Idle);
    assert_eq!(find(&p, 2).hover.unwrap().intersection, None);
}
