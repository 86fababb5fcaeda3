//! The data model: objects eligible for picking, their optional capability
//! records (hover tracking, blocking policy, selection, blocker marker), the
//! per-frame pointer inputs, and the candidate lists supplied by the raycast
//! subsystem.

use vstd::prelude::*;

verus! {

/// Stable identity token of an object, handed out by the host object store.
pub type ObjectId = u64;

/// Opaque descriptor of one surface hit produced by the raycast subsystem.
/// The engine never looks inside a hit: it only clones and compares them,
/// so a hit is modelled by an identity token chosen by the producer.
#[derive(Clone, Copy, PartialEq, Eq, Structural, Debug)]
pub struct IntersectionRecord {
    pub token: u64,
}

/// Per-object interaction level, owned by the focus resolver.
#[derive(Clone, Copy, PartialEq, Eq, Structural, Debug)]
pub enum Interaction {
    Idle,
    Hovered,
    Clicked,
}

/// Whether a hit on an object stops farther candidates of the same pointer
/// from being considered focused. An object without an attached policy
/// defaults to `Block`.
#[derive(Clone, Copy, PartialEq, Eq, Structural, Debug)]
pub enum FocusPolicy {
    Block,
    Pass,
}

/// Tracks the current hover state to be used with change tracking in the
/// events system. `last_intersection` holds the value `intersection` had at
/// the previous frame's resolution.
#[derive(Clone, Copy, PartialEq, Eq, Structural, Debug)]
pub struct Hover {
    pub intersection: Option<IntersectionRecord>,
    pub last_intersection: Option<IntersectionRecord>,
}

impl Hover {
    /// An object is hovered while its current intersection is present.
    pub fn hovered(&self) -> (r: bool)
        ensures
            r == (self.intersection is Some),
    {
        match self.intersection {
            Some(_) => true,
            None => false,
        }
    }
}

/// Selection state, toggled by application code outside this engine; the
/// events system only reads it.
#[derive(Clone, Copy, PartialEq, Eq, Structural, Debug)]
pub struct Selection {
    pub selected: bool,
}

impl Selection {
    pub fn selected(&self) -> (r: bool)
        ensures
            r == self.selected,
    {
        self.selected
    }
}

/// One object as the engine sees it: its identity, its capability markers,
/// and its optional attached records. An absent record disables the
/// corresponding behaviour for the object.
///
/// The `hover_added` / `selection_added` stamps mark records created this
/// frame: a just-created record must not trigger a transition event on its
/// first observation, so the events system suppresses it. The frame driver
/// clears the stamps at the end of the frame.
#[derive(Clone, Copy, PartialEq, Eq, Structural, Debug)]
pub struct ObjectRecord {
    pub id: ObjectId,
    /// The object participates in focus resolution (pickable-mesh marker);
    /// it then always carries an interaction level.
    pub pickable: bool,
    /// The object is a blocking surface (a UI node or an explicit blocker
    /// marker): a non-`Idle` interaction on it suspends all picking.
    pub blocker: bool,
    pub interaction: Interaction,
    pub focus_policy: Option<FocusPolicy>,
    pub hover: Option<Hover>,
    pub selection: Option<Selection>,
    pub hover_added: bool,
    pub selection_added: bool,
}

/// Process-wide flag: picking is suspended for this frame because some
/// blocking surface reports a non-`Idle` interaction.
#[derive(Clone, Copy, PartialEq, Eq, Structural, Debug)]
pub struct PausedForBlockers(pub bool);

/// One candidate hit of a pointer: the object and its intersection record.
#[derive(Clone, Copy, PartialEq, Eq, Structural, Debug)]
pub struct Candidate {
    pub object: ObjectId,
    pub intersection: IntersectionRecord,
}

/// The candidate hits of one pointer source for this frame, nearest first.
pub struct CandidateList {
    pub hits: Vec<Candidate>,
}

/// Edge signals from input polling for this frame. Mouse and touch edges are
/// OR-combined by the engine: any source firing counts once.
#[derive(Clone, Copy, PartialEq, Eq, Structural, Debug)]
pub struct PointerInput {
    pub mouse_just_pressed: bool,
    pub mouse_just_released: bool,
    pub touch_just_pressed: bool,
    pub touch_just_released: bool,
}

impl PointerInput {
    /// A press edge fired this frame, whatever the source.
    pub open spec fn spec_press_edge(self) -> bool {
        self.mouse_just_pressed || self.touch_just_pressed
    }

    /// A release edge fired this frame, whatever the source.
    pub open spec fn spec_release_edge(self) -> bool {
        self.mouse_just_released || self.touch_just_released
    }

    pub fn press_edge(&self) -> (r: bool)
        ensures
            r == self.spec_press_edge(),
    {
        self.mouse_just_pressed || self.touch_just_pressed
    }

    pub fn release_edge(&self) -> (r: bool)
        ensures
            r == self.spec_release_edge(),
    {
        self.mouse_just_released || self.touch_just_released
    }
}

/// Objects carry pairwise distinct identity tokens.
pub open spec fn ids_distinct(objects: Seq<ObjectRecord>) -> bool {
    forall|i: int, j: int|
        0 <= i < j < objects.len() ==> objects[i].id != objects[j].id
}

/// The candidate lists of all pointer sources, as mathematical sequences.
pub open spec fn hit_lists(sources: Seq<CandidateList>) -> Seq<Seq<Candidate>> {
    sources.map_values(|s: CandidateList| s.hits@)
}

} // verus!
