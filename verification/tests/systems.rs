use picking_core::events::{
    mesh_events_system, HoverChange, HoverEntry, HoverEvent, PickingEvent, SelectionChange,
    SelectionEvent,
};
use picking_core::focus::{mesh_focus, pause_for_picking_blockers};
use picking_core::model::{
    Candidate, CandidateList, FocusPolicy, Hover, Interaction, IntersectionRecord, ObjectRecord,
    PausedForBlockers, PointerInput, Selection,
};

fn rec(token: u64) -> IntersectionRecord {
    IntersectionRecord { token }
}

fn pickable(id: u64) -> ObjectRecord {
    ObjectRecord {
        id,
        pickable: true,
        blocker: false,
        interaction: Interaction::Idle,
        focus_policy: None,
        hover: Some(Hover { intersection: None, last_intersection: None }),
        selection: None,
        hover_added: false,
        selection_added: false,
    }
}

fn idle_input() -> PointerInput {
    PointerInput {
        mouse_just_pressed: false,
        mouse_just_released: false,
        touch_just_pressed: false,
        touch_just_released: false,
    }
}

#[test]
fn hovered_reads_the_current_intersection() {
    let h = Hover { intersection: Some(rec(1)), last_intersection: None };
    assert!(h.hovered());
    let h = Hover { intersection: None, last_intersection: Some(rec(1)) };
    assert!(!h.hovered());
    let s = Selection { selected: true };
    assert!(s.selected());
}

#[test]
fn edges_are_or_combined() {
    let mut input = idle_input();
    assert!(!input.press_edge());
    assert!(!input.release_edge());
    input.touch_just_pressed = true;
    input.mouse_just_released = true;
    assert!(input.press_edge());
    assert!(input.release_edge());
}

#[test]
fn no_blockers_never_pauses() {
    let mut objects = vec![pickable(1), pickable(2)];
    objects[0].interaction = Interaction::Hovered;
    let before = objects.clone();
    let paused = pause_for_picking_blockers(&mut objects);
    assert_eq!(paused, PausedForBlockers(false));
    assert_eq!(objects, before);
}

#[test]
fn an_active_blocker_pauses_and_clears() {
    let mut hovered = pickable(1);
    hovered.interaction = Interaction::Hovered;
    hovered.hover = Some(Hover { intersection: Some(rec(1)), last_intersection: Some(rec(2)) });
    // Simultaneously pickable and a blocker: still force-cleared.
    let mut both = pickable(2);
    both.blocker = true;
    both.interaction = Interaction::Clicked;
    let mut objects = vec![hovered, both];
    let paused = pause_for_picking_blockers(&mut objects);
    assert_eq!(paused, PausedForBlockers(true));
    for o in &objects {
        assert_eq!(o.interaction, Interaction::Idle);
        assert_eq!(o.hover.unwrap().intersection, None);
    }
    // The previous-frame snapshot survives the forced clear.
    assert_eq!(objects[0].hover.unwrap().last_intersection, Some(rec(2)));
}

#[test]
fn paused_focus_is_a_no_op() {
    let mut objects = vec![pickable(1)];
    let before = objects.clone();
    let sources = vec![CandidateList {
        hits: vec![Candidate { object: 1, intersection: rec(1) }],
    }];
    mesh_focus(&PausedForBlockers(true), &idle_input(), &sources, &mut objects);
    assert_eq!(objects, before);
}

#[test]
fn focus_skips_untracked_candidates() {
    // The nearest hit names an object that is not pickable: resolution
    // walks past it to the next candidate.
    let mut ghost_hit = pickable(9);
    ghost_hit.pickable = false;
    let mut objects = vec![ghost_hit, pickable(1)];
    let sources = vec![CandidateList {
        hits: vec![
            Candidate { object: 9, intersection: rec(91) },
            Candidate { object: 1, intersection: rec(11) },
        ],
    }];
    mesh_focus(&PausedForBlockers(false), &idle_input(), &sources, &mut objects);
    assert_eq!(objects[1].interaction, Interaction::Hovered);
    assert_eq!(objects[1].hover.unwrap().intersection, Some(rec(11)));
    assert_eq!(objects[0].interaction, Interaction::Idle);
}

#[test]
fn press_promotes_to_clicked_and_demotes_others() {
    let mut other = pickable(2);
    other.interaction = Interaction::Hovered;
    other.hover = Some(Hover { intersection: Some(rec(2)), last_intersection: None });
    let mut objects = vec![pickable(1), other];
    let press = PointerInput { mouse_just_pressed: true, ..idle_input() };
    let sources = vec![CandidateList {
        hits: vec![Candidate { object: 1, intersection: rec(1) }],
    }];
    mesh_focus(&PausedForBlockers(false), &press, &sources, &mut objects);
    assert_eq!(objects[0].interaction, Interaction::Clicked);
    assert_eq!(objects[0].hover.unwrap().intersection, Some(rec(1)));
    // The unresolved object loses its hover level and its record empties.
    assert_eq!(objects[1].interaction, Interaction::Idle);
    assert_eq!(
        objects[1].hover.unwrap(),
        Hover { intersection: None, last_intersection: None }
    );
}

#[test]
fn pass_then_block_stops_resolution() {
    let mut near = pickable(1);
    near.focus_policy = Some(FocusPolicy::Pass);
    let middle = pickable(2); // no policy attached: defaults to Block
    let far = pickable(3);
    let mut objects = vec![near, middle, far];
    let sources = vec![CandidateList {
        hits: vec![
            Candidate { object: 1, intersection: rec(1) },
            Candidate { object: 2, intersection: rec(2) },
            Candidate { object: 3, intersection: rec(3) },
        ],
    }];
    mesh_focus(&PausedForBlockers(false), &idle_input(), &sources, &mut objects);
    assert_eq!(objects[0].interaction, Interaction::Hovered);
    assert_eq!(objects[1].interaction, Interaction::Hovered);
    assert_eq!(objects[2].interaction, Interaction::Idle);
    assert_eq!(objects[2].hover.unwrap().intersection, None);
}

#[test]
fn events_follow_the_rule_order() {
    let input = PointerInput { touch_just_pressed: true, ..idle_input() };
    let hover_changes = vec![HoverChange {
        entity: 1,
        hover: Hover { intersection: Some(rec(5)), last_intersection: Some(rec(4)) },
        just_added: false,
    }];
    let selection_changes = vec![SelectionChange { entity: 2, selected: true, just_added: false }];
    let click_query = vec![
        HoverEntry { entity: 1, hover: Hover { intersection: Some(rec(5)), last_intersection: None } },
        HoverEntry { entity: 3, hover: Hover { intersection: None, last_intersection: None } },
    ];
    let events = mesh_events_system(&input, &hover_changes, &selection_changes, &click_query);
    assert_eq!(
        events,
        vec![
            PickingEvent::Hover(HoverEvent::HoverOver { entity: 1, intersection: rec(5) }),
            PickingEvent::Selection(SelectionEvent::JustSelected(2)),
            PickingEvent::Clicked { entity: 1, intersection: rec(5) },
        ]
    );
}

#[test]
fn added_changes_are_suppressed() {
    let hover_changes = vec![
        HoverChange {
            entity: 1,
            hover: Hover { intersection: Some(rec(5)), last_intersection: None },
            just_added: true,
        },
        HoverChange {
            entity: 2,
            hover: Hover { intersection: None, last_intersection: None },
            just_added: false,
        },
    ];
    let selection_changes = vec![
        SelectionChange { entity: 3, selected: true, just_added: true },
        SelectionChange { entity: 4, selected: false, just_added: false },
    ];
    let events = mesh_events_system(&idle_input(), &hover_changes, &selection_changes, &Vec::new());
    assert_eq!(
        events,
        vec![
            PickingEvent::Hover(HoverEvent::JustLeft(2)),
            PickingEvent::Selection(SelectionEvent::JustDeselected(4)),
        ]
    );
}

#[test]
fn no_press_edge_no_clicks() {
    let click_query = vec![HoverEntry {
        entity: 1,
        hover: Hover { intersection: Some(rec(5)), last_intersection: None },
    }];
    let events = mesh_events_system(&idle_input(), &Vec::new(), &Vec::new(), &click_query);
    assert_eq!(events.len(), 0);
}

#[test]
fn press_clicks_every_hovered_object() {
    let input = PointerInput { mouse_just_pressed: true, ..idle_input() };
    let click_query = vec![
        HoverEntry { entity: 1, hover: Hover { intersection: Some(rec(1)), last_intersection: None } },
        HoverEntry { entity: 2, hover: Hover { intersection: None, last_intersection: Some(rec(9)) } },
        HoverEntry { entity: 3, hover: Hover { intersection: Some(rec(3)), last_intersection: None } },
    ];
    let events = mesh_events_system(&input, &Vec::new(), &Vec::new(), &click_query);
    assert_eq!(
        events,
        vec![
            PickingEvent::Clicked { entity: 1, intersection: rec(1) },
            PickingEvent::Clicked { entity: 3, intersection: rec(3) },
        ]
    );
}
