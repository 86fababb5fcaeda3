//! The suspension check and the focus resolver: per frame, compute the
//! blocker suspension flag, and pick the focused object(s) of every pointer
//! from its nearest-first candidate list, updating each pickable object's
//! interaction level and hover record exactly once.

use vstd::prelude::*;

use crate::model::{
    Candidate, CandidateList, FocusPolicy, Hover, Interaction, IntersectionRecord, ObjectId,
    ObjectRecord, PausedForBlockers, PointerInput,
};

verus! {

/// The suspension flag of a frame: true iff some blocking surface reports a
/// non-`Idle` interaction.
pub open spec fn suspension_flag(objects: Seq<ObjectRecord>) -> bool {
    exists|i: int|
        0 <= i < objects.len() && objects[i].blocker && objects[i].interaction != Interaction::Idle
}

/// What the forced-clear pass of a suspended frame does to one object:
/// a pickable object loses its interaction level and its current
/// intersection (its previous-frame snapshot is kept); others are untouched.
pub open spec fn clear_for_suspension(o: ObjectRecord) -> ObjectRecord {
    if o.pickable {
        ObjectRecord {
            interaction: Interaction::Idle,
            hover: match o.hover {
                Some(h) => Some(Hover { intersection: None, last_intersection: h.last_intersection }),
                None => None,
            },
            ..o
        }
    } else {
        o
    }
}

/// The whole object table after the forced-clear pass.
pub open spec fn clear_all_for_suspension(objects: Seq<ObjectRecord>) -> Seq<ObjectRecord> {
    Seq::new(objects.len(), |i: int| clear_for_suspension(objects[i]))
}

/// Exec mirror of [`clear_for_suspension`].
fn clear_record(o: ObjectRecord) -> (r: ObjectRecord)
    ensures
        r == clear_for_suspension(o),
{
    if o.pickable {
        ObjectRecord {
            interaction: Interaction::Idle,
            hover: match o.hover {
                Some(h) => Some(
                    Hover { intersection: None, last_intersection: h.last_intersection },
                ),
                None => None,
            },
            ..o
        }
    } else {
        o
    }
}

/// Suspension check: compute the suspension flag for this frame, and, when
/// it is set, force every pickable object's interaction level to `Idle` and
/// clear its current intersection, so that no stale focus state survives a
/// frame spent under an occluding surface.
pub fn pause_for_picking_blockers(objects: &mut Vec<ObjectRecord>) -> (paused: PausedForBlockers)
    ensures
        paused.0 == suspension_flag(old(objects)@),
        paused.0 ==> final(objects)@ == clear_all_for_suspension(old(objects)@),
        !paused.0 ==> final(objects)@ == old(objects)@,
{
    let mut any_blocking = false;
    let mut i: usize = 0;
    while i < objects.len()
        invariant
            0 <= i <= objects.len(),
            any_blocking == exists|k: int|
                0 <= k < i && objects@[k].blocker && objects@[k].interaction != Interaction::Idle,
        decreases objects.len() - i,
    {
        let o = objects[i];
        if o.blocker && !matches!(o.interaction, Interaction::Idle) {
            any_blocking = true;
        }
        i += 1;
    }
    if !any_blocking {
        return PausedForBlockers(false);
    }
    let mut cleared: Vec<ObjectRecord> = Vec::new();
    let mut j: usize = 0;
    while j < objects.len()
        invariant
            0 <= j <= objects.len(),
            cleared@ == clear_all_for_suspension(objects@).take(j as int),
        decreases objects.len() - j,
    {
        cleared.push(clear_record(objects[j]));
        assert(cleared@ =~= clear_all_for_suspension(objects@).take(j + 1 as int));
        j += 1;
    }
    assert(cleared@ =~= clear_all_for_suspension(objects@));
    *objects = cleared;
    PausedForBlockers(true)
}

/// The blocking policy an object resolves with: its attached policy, or
/// `Block` where none is attached.
pub open spec fn policy_of(o: ObjectRecord) -> FocusPolicy {
    match o.focus_policy {
        Some(p) => p,
        None => FocusPolicy::Block,
    }
}

/// The first pickable object with the given identity, searching the table
/// from position `i` on.
pub open spec fn find_pickable_from(objects: Seq<ObjectRecord>, id: ObjectId, i: int) -> Option<
    ObjectRecord,
>
    decreases objects.len() - i,
{
    if i < 0 || i >= objects.len() {
        None
    } else if objects[i].pickable && objects[i].id == id {
        Some(objects[i])
    } else {
        find_pickable_from(objects, id, i + 1)
    }
}

/// The pickable object with the given identity, if the table holds one.
pub open spec fn find_pickable(objects: Seq<ObjectRecord>, id: ObjectId) -> Option<ObjectRecord> {
    find_pickable_from(objects, id, 0)
}

/// Exec mirror of [`find_pickable`].
fn lookup_pickable(objects: &Vec<ObjectRecord>, id: ObjectId) -> (r: Option<ObjectRecord>)
    ensures
        r == find_pickable(objects@, id),
{
    let mut i: usize = 0;
    while i < objects.len()
        invariant
            0 <= i <= objects.len(),
            find_pickable(objects@, id) == find_pickable_from(objects@, id, i as int),
        decreases objects.len() - i,
    {
        let o = objects[i];
        if o.pickable && o.id == id {
            return Some(o);
        }
        i += 1;
    }
    None
}

/// The candidates of one pointer that take part in this frame's resolution:
/// the walk nearest-to-farthest keeps every hit whose object is pickable and
/// stops after the first kept hit whose object's policy is `Block`.
pub open spec fn resolved_from(objects: Seq<ObjectRecord>, hits: Seq<Candidate>, i: int) -> Seq<
    Candidate,
>
    decreases hits.len() - i,
{
    if i < 0 || i >= hits.len() {
        Seq::empty()
    } else {
        match find_pickable(objects, hits[i].object) {
            Some(o) => if policy_of(o) == FocusPolicy::Block {
                seq![hits[i]]
            } else {
                seq![hits[i]] + resolved_from(objects, hits, i + 1)
            },
            None => resolved_from(objects, hits, i + 1),
        }
    }
}

/// The resolved candidates of one pointer's whole candidate list.
pub open spec fn resolved_candidates(objects: Seq<ObjectRecord>, hits: Seq<Candidate>) -> Seq<
    Candidate,
> {
    resolved_from(objects, hits, 0)
}

/// The intersection record the resolution matched to the given object: that
/// of its last occurrence among the resolved candidates (a later entry of
/// the same object overwrites an earlier one), or `None` where the object
/// was not resolved.
pub open spec fn match_from(resolved: Seq<Candidate>, id: ObjectId, i: int) -> Option<
    IntersectionRecord,
>
    decreases i,
{
    if i <= 0 || i > resolved.len() {
        None
    } else if resolved[i - 1].object == id {
        Some(resolved[i - 1].intersection)
    } else {
        match_from(resolved, id, i - 1)
    }
}

/// The match of the given object in a resolved candidate sequence.
pub open spec fn resolved_match(resolved: Seq<Candidate>, id: ObjectId) -> Option<
    IntersectionRecord,
> {
    match_from(resolved, id, resolved.len() as int)
}

/// Exec mirror of [`resolved_match`].
fn lookup_match(resolved: &Vec<Candidate>, id: ObjectId) -> (r: Option<IntersectionRecord>)
    ensures
        r == resolved_match(resolved@, id),
{
    let mut i: usize = resolved.len();
    while i > 0
        invariant
            0 <= i <= resolved.len(),
            resolved_match(resolved@, id) == match_from(resolved@, id, i as int),
        decreases i,
    {
        let c = resolved[i - 1];
        if c.object == id {
            return Some(c.intersection);
        }
        i -= 1;
    }
    None
}

/// Exec computation of [`resolved_candidates`]: walk one pointer's hits
/// nearest-to-farthest, keeping each pickable hit, and stop at the first
/// kept hit whose object blocks.
fn collect_resolved(objects: &Vec<ObjectRecord>, hits: &Vec<Candidate>) -> (resolved: Vec<
    Candidate,
>)
    ensures
        resolved@ == resolved_candidates(objects@, hits@),
{
    let mut resolved: Vec<Candidate> = Vec::new();
    let mut i: usize = 0;
    let mut blocked = false;
    while i < hits.len() && !blocked
        invariant
            0 <= i <= hits.len(),
            !blocked ==> resolved_candidates(objects@, hits@) == resolved@ + resolved_from(
                objects@,
                hits@,
                i as int,
            ),
            blocked ==> resolved_candidates(objects@, hits@) == resolved@,
        decreases hits.len() - i,
    {
        let c = hits[i];
        match lookup_pickable(objects, c.object) {
            Some(o) => {
                resolved.push(c);
                let is_block = match o.focus_policy {
                    Some(FocusPolicy::Pass) => false,
                    _ => true,
                };
                if is_block {
                    blocked = true;
                    assert(resolved_from(objects@, hits@, i as int) =~= seq![hits@[i as int]]);
                    assert(resolved@ =~= resolved@.drop_last() + seq![hits@[i as int]]);
                } else {
                    assert(resolved_from(objects@, hits@, i as int) =~= seq![hits@[i as int]]
                        + resolved_from(objects@, hits@, i + 1));
                    assert(resolved@.drop_last() + resolved_from(objects@, hits@, i as int)
                        =~= resolved@ + resolved_from(objects@, hits@, i + 1));
                }
            },
            None => {
            },
        }
        i += 1;
    }
    if !blocked {
        assert(resolved_from(objects@, hits@, i as int) =~= Seq::<Candidate>::empty());
        assert(resolved@ + Seq::<Candidate>::empty() =~= resolved@);
    }
    resolved
}

/// What one pointer's resolution does to one object, given the match `m`
/// the resolution assigned to it. A resolved pickable object is promoted
/// (`Clicked` on a press edge, else `Hovered` from `Idle`) and its hover
/// record shifts: the current intersection becomes the previous one and the
/// match becomes current. An unresolved pickable object is demoted from
/// `Hovered` to `Idle` and its hover record is emptied.
pub open spec fn apply_focus(
    o: ObjectRecord,
    m: Option<IntersectionRecord>,
    clicked: bool,
) -> ObjectRecord {
    if !o.pickable {
        o
    } else {
        ObjectRecord {
            interaction: match m {
                Some(_) => if clicked {
                    Interaction::Clicked
                } else if o.interaction == Interaction::Idle {
                    Interaction::Hovered
                } else {
                    o.interaction
                },
                None => if o.interaction == Interaction::Hovered {
                    Interaction::Idle
                } else {
                    o.interaction
                },
            },
            hover: match o.hover {
                Some(h) => Some(
                    Hover {
                        intersection: m,
                        last_intersection: if m is Some {
                            h.intersection
                        } else {
                            None
                        },
                    },
                ),
                None => None,
            },
            ..o
        }
    }
}

/// Exec mirror of [`apply_focus`].
fn apply_focus_record(o: ObjectRecord, m: Option<IntersectionRecord>, clicked: bool) -> (r:
    ObjectRecord)
    ensures
        r == apply_focus(o, m, clicked),
{
    if !o.pickable {
        o
    } else {
        ObjectRecord {
            interaction: match m {
                Some(_) => if clicked {
                    Interaction::Clicked
                } else if matches!(o.interaction, Interaction::Idle) {
                    Interaction::Hovered
                } else {
                    o.interaction
                },
                None => if matches!(o.interaction, Interaction::Hovered) {
                    Interaction::Idle
                } else {
                    o.interaction
                },
            },
            hover: match o.hover {
                Some(h) => Some(
                    Hover {
                        intersection: m,
                        last_intersection: if matches!(m, Some(_)) {
                            h.intersection
                        } else {
                            None
                        },
                    },
                ),
                None => None,
            },
            ..o
        }
    }
}

/// The object table after one pointer source's resolution.
pub open spec fn focus_one_source(
    objects: Seq<ObjectRecord>,
    hits: Seq<Candidate>,
    clicked: bool,
) -> Seq<ObjectRecord> {
    let resolved = resolved_candidates(objects, hits);
    Seq::new(
        objects.len(),
        |i: int| apply_focus(objects[i], resolved_match(resolved, objects[i].id), clicked),
    )
}

/// The object table after the resolutions of all pointer sources, run
/// sequentially: a later source's sweep overwrites an earlier one's result
/// for any object both saw.
pub open spec fn focus_sources(
    objects: Seq<ObjectRecord>,
    sources: Seq<Seq<Candidate>>,
    clicked: bool,
) -> Seq<ObjectRecord>
    decreases sources.len(),
{
    if sources.len() == 0 {
        objects
    } else {
        focus_sources(focus_one_source(objects, sources[0], clicked), sources.skip(1), clicked)
    }
}

/// What a release edge does to one object: a pickable object's `Clicked`
/// level is reset to `Idle`.
pub open spec fn release_reset(o: ObjectRecord) -> ObjectRecord {
    if o.pickable && o.interaction == Interaction::Clicked {
        ObjectRecord { interaction: Interaction::Idle, ..o }
    } else {
        o
    }
}

/// The object table after the release-edge reset of a frame.
pub open spec fn release_reset_all(objects: Seq<ObjectRecord>, release: bool) -> Seq<
    ObjectRecord,
> {
    if release {
        Seq::new(objects.len(), |i: int| release_reset(objects[i]))
    } else {
        objects
    }
}

/// The whole focus resolution of one frame: a no-op while suspended; else
/// the release-edge reset followed by every pointer source's resolution.
pub open spec fn spec_mesh_focus(
    objects: Seq<ObjectRecord>,
    sources: Seq<Seq<Candidate>>,
    input: PointerInput,
    paused: bool,
) -> Seq<ObjectRecord> {
    if paused {
        objects
    } else {
        focus_sources(
            release_reset_all(objects, input.spec_release_edge()),
            sources,
            input.spec_press_edge(),
        )
    }
}

/// One pointer source's sweep: every object is rewritten from the resolved
/// candidates computed for that source.
fn sweep_source(objects: &mut Vec<ObjectRecord>, resolved: &Vec<Candidate>, clicked: bool)
    ensures
        final(objects)@ == Seq::new(
            old(objects)@.len(),
            |i: int| apply_focus(
                old(objects)@[i],
                resolved_match(resolved@, old(objects)@[i].id),
                clicked,
            ),
        ),
{
    let ghost target = Seq::new(
        objects@.len(),
        |i: int| apply_focus(objects@[i], resolved_match(resolved@, objects@[i].id), clicked),
    );
    let mut out: Vec<ObjectRecord> = Vec::new();
    let mut i: usize = 0;
    while i < objects.len()
        invariant
            0 <= i <= objects.len(),
            out@ == target.take(i as int),
            target == Seq::new(
                objects@.len(),
                |k: int| apply_focus(
                    objects@[k],
                    resolved_match(resolved@, objects@[k].id),
                    clicked,
                ),
            ),
        decreases objects.len() - i,
    {
        let o = objects[i];
        let m = lookup_match(resolved, o.id);
        out.push(apply_focus_record(o, m, clicked));
        assert(out@ =~= target.take(i + 1 as int));
        i += 1;
    }
    assert(out@ =~= target);
    *objects = out;
}

/// Focus resolver: update the interaction level and hover record of every
/// pickable object from this frame's pointer inputs and candidate lists.
///
/// While the frame is suspended the resolver leaves every object untouched.
/// Otherwise a release edge first resets every `Clicked` object to `Idle`;
/// then each pointer source's candidate list is walked nearest-to-farthest,
/// promoting the resolved objects (to `Clicked` on a press edge, else from
/// `Idle` to `Hovered`), honouring each resolved object's blocking policy,
/// and rewriting every pickable object's hover record from the resolution.
pub fn mesh_focus(
    paused: &PausedForBlockers,
    input: &PointerInput,
    sources: &Vec<CandidateList>,
    objects: &mut Vec<ObjectRecord>,
)
    ensures
        final(objects)@ == spec_mesh_focus(
            old(objects)@,
            crate::model::hit_lists(sources@),
            *input,
            paused.0,
        ),
{
    if paused.0 {
        return ;
    }
    let ghost lists = crate::model::hit_lists(sources@);
    if input.release_edge() {
        let ghost target = Seq::new(objects@.len(), |i: int| release_reset(objects@[i]));
        let mut out: Vec<ObjectRecord> = Vec::new();
        let mut i: usize = 0;
        while i < objects.len()
            invariant
                0 <= i <= objects.len(),
                out@ == target.take(i as int),
                target == Seq::new(objects@.len(), |k: int| release_reset(objects@[k])),
            decreases objects.len() - i,
        {
            let o = objects[i];
            let r = if o.pickable && matches!(o.interaction, Interaction::Clicked) {
                ObjectRecord { interaction: Interaction::Idle, ..o }
            } else {
                o
            };
            assert(r == release_reset(objects@[i as int]));
            out.push(r);
            assert(out@ =~= target.take(i + 1 as int));
            i += 1;
        }
        assert(out@ =~= target);
        *objects = out;
    }
    let ghost start = objects@;
    assert(start == release_reset_all(old(objects)@, input.spec_release_edge()));
    let clicked = input.press_edge();
    assert(lists.skip(0) =~= lists);
    let mut k: usize = 0;
    while k < sources.len()
        invariant
            0 <= k <= sources.len(),
            lists == crate::model::hit_lists(sources@),
            lists.len() == sources@.len(),
            focus_sources(objects@, lists.skip(k as int), clicked) == focus_sources(
                start,
                lists,
                clicked,
            ),
        decreases sources.len() - k,
    {
        let resolved = collect_resolved(objects, &sources[k].hits);
        assert(lists[k as int] == sources@[k as int].hits@);
        let ghost before = objects@;
        sweep_source(objects, &resolved, clicked);
        assert(objects@ =~= focus_one_source(before, lists[k as int], clicked));
        assert(lists.skip(k as int)[0] == lists[k as int]);
        assert(lists.skip(k as int).skip(1) =~= lists.skip(k + 1 as int));
        k += 1;
    }
    assert(lists.skip(sources@.len() as int) =~= Seq::<Seq<Candidate>>::empty());
}

/// A found pickable object really stands in the table, is pickable, and
/// carries the searched identity.
pub proof fn lemma_find_pickable_found(objects: Seq<ObjectRecord>, id: ObjectId, i: int)
    requires
        find_pickable_from(objects, id, i) is Some,
    ensures
        exists|j: int|
            i <= j < objects.len() && objects[j] == find_pickable_from(objects, id, i)->0
                && #[trigger] objects[j].pickable && objects[j].id == id,
    decreases objects.len() - i,
{
    if i < 0 || i >= objects.len() {
    } else if objects[i].pickable && objects[i].id == id {
        assert(objects[i] == find_pickable_from(objects, id, i)->0);
    } else {
        lemma_find_pickable_found(objects, id, i + 1);
    }
}

/// An object that occurs among the resolved candidates has a match.
pub proof fn lemma_occurrence_has_match(resolved: Seq<Candidate>, id: ObjectId, i: int, j: int)
    requires
        0 <= j < i <= resolved.len(),
        resolved[j].object == id,
    ensures
        match_from(resolved, id, i) is Some,
    decreases i,
{
    if resolved[i - 1].object == id {
    } else {
        lemma_occurrence_has_match(resolved, id, i - 1, j);
    }
}

/// A match comes from a resolved candidate of the same object.
pub proof fn lemma_match_has_occurrence(resolved: Seq<Candidate>, id: ObjectId, i: int)
    requires
        match_from(resolved, id, i) is Some,
        i <= resolved.len(),
    ensures
        exists|j: int|
            0 <= j < i && #[trigger] resolved[j].object == id && resolved[j].intersection
                == match_from(resolved, id, i)->0,
    decreases i,
{
    if i <= 0 || i > resolved.len() {
    } else if resolved[i - 1].object == id {
        assert(resolved[i - 1].object == id && resolved[i - 1].intersection == match_from(
            resolved,
            id,
            i,
        )->0);
    } else {
        lemma_match_has_occurrence(resolved, id, i - 1);
    }
}

/// Under the `Block` policy a pointer resolves at most one candidate, and
/// that candidate is the nearest hit whose object is pickable: every hit
/// before it finds no pickable object, and where no hit finds one, nothing
/// is resolved.
pub proof fn lemma_block_policy_nearest(objects: Seq<ObjectRecord>, hits: Seq<Candidate>, i: int)
    requires
        forall|k: int|
            0 <= k < objects.len() && #[trigger] objects[k].pickable ==> policy_of(objects[k])
                == FocusPolicy::Block,
        0 <= i <= hits.len(),
    ensures
        resolved_from(objects, hits, i).len() <= 1,
        resolved_from(objects, hits, i).len() == 1 ==> exists|j: int|
            i <= j < hits.len() && resolved_from(objects, hits, i) == seq![hits[j]]
                && #[trigger] find_pickable(objects, hits[j].object) is Some && forall|k: int|
                i <= k < j ==> find_pickable(objects, #[trigger] hits[k].object) is None,
        resolved_from(objects, hits, i).len() == 0 ==> forall|j: int|
            i <= j < hits.len() ==> find_pickable(objects, #[trigger] hits[j].object) is None,
    decreases hits.len() - i,
{
    if i >= hits.len() {
    } else {
        match find_pickable(objects, hits[i].object) {
            Some(o) => {
                lemma_find_pickable_found(objects, hits[i].object, 0);
                assert(policy_of(o) == FocusPolicy::Block);
                assert(resolved_from(objects, hits, i) == seq![hits[i]]);
            },
            None => {
                lemma_block_policy_nearest(objects, hits, i + 1);
            },
        }
    }
}

/// Under the `Block` policy, with distinct identity tokens, at most one
/// object receives a pointer's resolved focus update; every other object is
/// swept with no match (demoted from `Hovered` and its hover emptied).
pub proof fn lemma_block_policy_at_most_one_object(
    objects: Seq<ObjectRecord>,
    hits: Seq<Candidate>,
    clicked: bool,
)
    requires
        forall|k: int|
            0 <= k < objects.len() && #[trigger] objects[k].pickable ==> policy_of(objects[k])
                == FocusPolicy::Block,
        crate::model::ids_distinct(objects),
    ensures
        forall|i: int, j: int|
            0 <= i < j < objects.len() ==> !(resolved_match(
                resolved_candidates(objects, hits),
                #[trigger] objects[i].id,
            ) is Some && resolved_match(
                resolved_candidates(objects, hits),
                #[trigger] objects[j].id,
            ) is Some),
        forall|i: int|
            0 <= i < objects.len() && resolved_match(
                resolved_candidates(objects, hits),
                #[trigger] objects[i].id,
            ) is None ==> focus_one_source(objects, hits, clicked)[i] == apply_focus(
                objects[i],
                None,
                clicked,
            ),
{
    let resolved = resolved_candidates(objects, hits);
    lemma_block_policy_nearest(objects, hits, 0);
    assert forall|i: int, j: int| 0 <= i < j < objects.len() implies !(resolved_match(
        resolved,
        #[trigger] objects[i].id,
    ) is Some && resolved_match(resolved, #[trigger] objects[j].id) is Some) by {
        if resolved_match(resolved, objects[i].id) is Some && resolved_match(
            resolved,
            objects[j].id,
        ) is Some {
            lemma_match_has_occurrence(resolved, objects[i].id, resolved.len() as int);
            lemma_match_has_occurrence(resolved, objects[j].id, resolved.len() as int);
            assert(objects[i].id == objects[j].id);
        }
    }
}

/// Under the `Pass` policy every hit of a pointer is resolved: where each
/// hit's object is pickable with policy `Pass`, the resolved candidates are
/// the whole candidate list.
pub proof fn lemma_pass_policy_resolves_all(
    objects: Seq<ObjectRecord>,
    hits: Seq<Candidate>,
    i: int,
)
    requires
        forall|j: int|
            0 <= j < hits.len() ==> (#[trigger] find_pickable(objects, hits[j].object)) is Some
                && policy_of(find_pickable(objects, hits[j].object)->0) == FocusPolicy::Pass,
        0 <= i <= hits.len(),
    ensures
        resolved_from(objects, hits, i) == hits.skip(i),
    decreases hits.len() - i,
{
    if i >= hits.len() {
        assert(hits.skip(i) =~= Seq::<Candidate>::empty());
    } else {
        lemma_pass_policy_resolves_all(objects, hits, i + 1);
        assert(resolved_from(objects, hits, i) =~= seq![hits[i]] + hits.skip(i + 1));
        assert(seq![hits[i]] + hits.skip(i + 1) =~= hits.skip(i));
    }
}

/// Under the `Pass` policy every pickable object that a pointer's candidate
/// list names receives the resolved update in the same frame: it gets a
/// match, its interaction is promoted, and its hover gains a present
/// intersection.
pub proof fn lemma_pass_policy_all_updated(
    objects: Seq<ObjectRecord>,
    hits: Seq<Candidate>,
    clicked: bool,
    i: int,
)
    requires
        forall|j: int|
            0 <= j < hits.len() ==> (#[trigger] find_pickable(objects, hits[j].object)) is Some
                && policy_of(find_pickable(objects, hits[j].object)->0) == FocusPolicy::Pass,
        0 <= i < objects.len(),
        objects[i].pickable,
        exists|j: int| 0 <= j < hits.len() && #[trigger] hits[j].object == objects[i].id,
    ensures
        resolved_match(resolved_candidates(objects, hits), objects[i].id) is Some,
        focus_one_source(objects, hits, clicked)[i].interaction == (if clicked {
            Interaction::Clicked
        } else if objects[i].interaction == Interaction::Idle {
            Interaction::Hovered
        } else {
            objects[i].interaction
        }),
        objects[i].hover is Some ==> focus_one_source(
            objects,
            hits,
            clicked,
        )[i].hover->0.intersection is Some,
{
    lemma_pass_policy_resolves_all(objects, hits, 0);
    let resolved = resolved_candidates(objects, hits);
    assert(resolved =~= hits.skip(0));
    assert(resolved =~= hits);
    let j = choose|j: int| 0 <= j < hits.len() && #[trigger] hits[j].object == objects[i].id;
    lemma_occurrence_has_match(resolved, objects[i].id, resolved.len() as int, j);
    assert(focus_one_source(objects, hits, clicked)[i] == apply_focus(
        objects[i],
        resolved_match(resolved, objects[i].id),
        clicked,
    ));
}

/// Whether a pickable object is found for an identity, and the policy it
/// resolves with, depend only on each object's identity, pickable marker and
/// attached policy.
pub proof fn lemma_find_pickable_congruence(
    a: Seq<ObjectRecord>,
    b: Seq<ObjectRecord>,
    id: ObjectId,
    i: int,
)
    requires
        a.len() == b.len(),
        forall|j: int|
            0 <= j < a.len() ==> (#[trigger] a[j]).id == b[j].id && a[j].pickable == b[j].pickable
                && a[j].focus_policy == b[j].focus_policy,
    ensures
        find_pickable_from(a, id, i) is Some <==> find_pickable_from(b, id, i) is Some,
        find_pickable_from(a, id, i) is Some ==> policy_of(find_pickable_from(a, id, i)->0)
            == policy_of(find_pickable_from(b, id, i)->0),
    decreases a.len() - i,
{
    if i < 0 || i >= a.len() {
    } else if a[i].pickable && a[i].id == id {
    } else {
        lemma_find_pickable_congruence(a, b, id, i + 1);
    }
}

/// A pointer's resolution depends only on each object's identity, pickable
/// marker and attached policy: the mutable interaction and hover state play
/// no part in which candidates are resolved.
pub proof fn lemma_resolved_congruence(
    a: Seq<ObjectRecord>,
    b: Seq<ObjectRecord>,
    hits: Seq<Candidate>,
    i: int,
)
    requires
        a.len() == b.len(),
        forall|j: int|
            0 <= j < a.len() ==> (#[trigger] a[j]).id == b[j].id && a[j].pickable == b[j].pickable
                && a[j].focus_policy == b[j].focus_policy,
    ensures
        resolved_from(a, hits, i) == resolved_from(b, hits, i),
    decreases hits.len() - i,
{
    if i < 0 || i >= hits.len() {
    } else {
        lemma_find_pickable_congruence(a, b, hits[i].object, 0);
        match find_pickable(a, hits[i].object) {
            Some(o) => {
                if policy_of(o) == FocusPolicy::Block {
                } else {
                    lemma_resolved_congruence(a, b, hits, i + 1);
                }
            },
            None => {
                lemma_resolved_congruence(a, b, hits, i + 1);
            },
        }
    }
}

/// In an unsuspended single-pointer frame, a pickable object's
/// `last_intersection` is never stale: after the frame it is exactly the
/// intersection the object had before the frame where the object was
/// resolved, and absent where it was not — never a value from more than one
/// frame back.
pub proof fn lemma_last_intersection_fresh(
    objects: Seq<ObjectRecord>,
    hits: Seq<Candidate>,
    input: PointerInput,
    i: int,
)
    requires
        0 <= i < objects.len(),
        objects[i].pickable,
        objects[i].hover is Some,
    ensures
        ({
            let result = spec_mesh_focus(objects, seq![hits], input, false);
            let before = objects[i].hover->0;
            let after = result[i].hover->0;
            &&& result[i].hover is Some
            &&& (after.last_intersection == before.intersection || after.last_intersection is None)
            &&& (after.intersection is Some ==> after.last_intersection == before.intersection)
        }),
{
    let start = release_reset_all(objects, input.spec_release_edge());
    assert(start[i].hover == objects[i].hover);
    let lists = seq![hits];
    assert(lists[0] == hits);
    assert(lists.skip(1) =~= Seq::<Seq<Candidate>>::empty());
    let one = focus_one_source(start, hits, input.spec_press_edge());
    assert(focus_sources(start, lists, input.spec_press_edge()) == focus_sources(
        one,
        lists.skip(1),
        input.spec_press_edge(),
    ));
    assert(one[i] == apply_focus(
        start[i],
        resolved_match(resolved_candidates(start, hits), start[i].id),
        input.spec_press_edge(),
    ));
}

} // verus!
