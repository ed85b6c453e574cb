//! The mathematical model of the editor: its state as plain values, and
//! every edit and every state transition as a function on that state.

use vstd::prelude::*;
use crate::geometry::{Vec2, UNIT};
use crate::key::{AnimationKey, AnimationKeyPointField};
use crate::sequence::{
    sorted_by_x,
    strictly_sorted_by_x,
    has_x,
    upper_bound,
    insert_sorted,
    sort_by_x,
    first_index_of,
    lemma_upper_bound,
    lemma_insert_sorted,
    lemma_sort_by_x,
    lemma_first_index_of,
};

verus! {

/// Smallest and largest number of curve samples per frame.
pub const MIN_RESOLUTION: usize = 5;

pub const MAX_RESOLUTION: usize = 500;

/// Why an edit was refused.
#[derive(Clone, Copy, Debug, PartialEq, Eq, Structural)]
pub enum EditError {
    /// Removing the key would leave fewer than two keys.
    CannotRemove,
    /// The new key would stand at the x of an existing key.
    DegenerateInsert,
}

/// What the editor reports to the user after an event.
#[derive(Clone, Copy, Debug, PartialEq, Eq, Structural)]
pub enum Notice {
    Nothing,
    TangentLockToggled,
    KeyRemoved,
    CannotRemove,
    KeyAdded,
    DegenerateInsert,
}

/// An entry of the context menu.
#[derive(Clone, Copy, Debug, PartialEq, Eq, Structural)]
pub enum MenuAction {
    DeleteKey,
    ToggleTangentLock,
    AddKeyHere,
    Close,
}

/// One input event, with pointer coordinates in model space.
#[derive(Clone, Copy, Debug, PartialEq, Eq, Structural)]
pub enum EditorEvent {
    /// The primary button went down at a point.
    PrimaryPress(Vec2),
    /// The pointer moved by a delta while the primary button is held.
    PrimaryDrag(Vec2),
    /// The primary button was released, or pointer capture was lost.
    PrimaryRelease,
    /// The secondary button was clicked at a point.
    SecondaryClick(Vec2),
    /// An entry of the open context menu was chosen.
    Menu(MenuAction),
    /// A click with modifier keys held: `command` toggles a tangent lock,
    /// `alt` deletes a key or adds one on empty space.
    ModifiedClick { pointer: Vec2, command: bool, alt: bool },
    /// The pointer rests at a point, or has left the plot.
    Hover(Option<Vec2>),
}

/// The three states of the interaction.
pub enum EditorState {
    Idle,
    Dragging(int, AnimationKeyPointField),
    ContextMenuOpen(Vec2, Option<(int, AnimationKeyPointField)>),
}

/// The editor's state as plain values.
pub struct CurveModel {
    pub constrain_to_01: bool,
    pub curve_resolution: nat,
    pub dragged: Option<(int, AnimationKeyPointField)>,
    pub hovered: Option<(int, AnimationKeyPointField)>,
    pub anchor: Option<Vec2>,
    pub points: Seq<AnimationKey>,
}

/// The least y a key may have.
pub open spec fn y_min(constrain_to_01: bool) -> int {
    if constrain_to_01 {
        0
    } else {
        -(UNIT as int)
    }
}

/// Whether a position lies in the editing domain: x in `[0, 1]`, y in
/// `[0, 1]` when constrained and in `[-1, 1]` otherwise.
pub open spec fn in_domain(pos: Vec2, constrain_to_01: bool) -> bool {
    0 <= pos.x <= UNIT && y_min(constrain_to_01) <= pos.y <= UNIT
}

/// The position clamped into the editing domain.
pub open spec fn clamp_to_domain(pos: Vec2, constrain_to_01: bool) -> Vec2 {
    pos.spec_clamp(
        Vec2 { x: 0, y: y_min(constrain_to_01) as i32 },
        Vec2 { x: UNIT, y: UNIT },
    )
}

/// Whether the handle `field` of key number `i` out of `len` can be
/// interacted with: the first key has no incoming and the last key no
/// outgoing tangent handle.
pub open spec fn interactive(i: int, field: AnimationKeyPointField, len: int) -> bool {
    &&& 0 <= i < len
    &&& !(i == 0 && field == AnimationKeyPointField::TanIn)
    &&& !(i == len - 1 && field == AnimationKeyPointField::TanOut)
}

/// The handle that key number `i` of `s` offers to a pointer at `ptr`.
pub open spec fn key_hit(s: Seq<AnimationKey>, i: int, ptr: Vec2) -> Option<AnimationKeyPointField> {
    s[i].spec_hit(ptr, i > 0, i < s.len() - 1)
}

/// The first key from `from` on that offers a handle to a pointer at
/// `ptr`, with that handle.
pub open spec fn first_hit(s: Seq<AnimationKey>, ptr: Vec2, from: int) -> Option<
    (int, AnimationKeyPointField),
>
    decreases s.len() - from,
{
    if from < 0 || from >= s.len() {
        None
    } else {
        match key_hit(s, from, ptr) {
            Some(f) => Some((from, f)),
            None => first_hit(s, ptr, from + 1),
        }
    }
}

/// What `first_hit` finds is an interactive handle of a key that is hit,
/// and no key before it is hit.
pub proof fn lemma_first_hit(s: Seq<AnimationKey>, ptr: Vec2, from: int)
    requires
        0 <= from,
    ensures
        match first_hit(s, ptr, from) {
            Some((i, f)) => {
                &&& from <= i < s.len()
                &&& key_hit(s, i, ptr) == Some(f)
                &&& interactive(i, f, s.len() as int)
                &&& forall|j: int| from <= j < i ==> key_hit(s, j, ptr) is None
            },
            None => forall|j: int| from <= j < s.len() ==> key_hit(s, j, ptr) is None,
        },
    decreases s.len() - from,
{
    if from < s.len() {
        s[from].lemma_hit_is_nearest(ptr, from > 0, from < s.len() - 1);
        if key_hit(s, from, ptr) is None {
            lemma_first_hit(s, ptr, from + 1);
        }
    }
}

/// Where the handles of two keys are both within reach of the pointer,
/// the hit test answers with a key no later than the earlier of the two.
pub proof fn lemma_hit_priority(s: Seq<AnimationKey>, ptr: Vec2, i: int, j: int)
    requires
        0 <= i < j < s.len(),
        key_hit(s, i, ptr) is Some,
        key_hit(s, j, ptr) is Some,
    ensures
        first_hit(s, ptr, 0) matches Some((k, f)) && k <= i && (k == i ==> key_hit(s, i, ptr)
            == Some(f)),
{
    lemma_first_hit(s, ptr, 0);
}

impl CurveModel {
    /// The state of the interaction.
    pub open spec fn state(self) -> EditorState {
        match self.dragged {
            Some((i, f)) => EditorState::Dragging(i, f),
            None => match self.anchor {
                Some(a) => EditorState::ContextMenuOpen(a, self.hovered),
                None => EditorState::Idle,
            },
        }
    }

    /// The invariant of the editor: at least two keys, each well formed,
    /// in ascending order of x; every key but one whose position is being
    /// dragged lies in the domain; the dragged and the hovered handle are
    /// interactive handles of existing keys; during a drag no menu is open
    /// and nothing is hovered.
    pub open spec fn wf(self) -> bool {
        &&& self.points.len() >= 2
        &&& forall|i: int| 0 <= i < self.points.len() ==> (#[trigger] self.points[i]).wf()
        &&& sorted_by_x(self.points)
        &&& forall|i: int|
            0 <= i < self.points.len() && self.dragged != Some((i, AnimationKeyPointField::Pos))
                ==> in_domain((#[trigger] self.points[i]).pos, self.constrain_to_01)
        &&& (self.dragged matches Some((i, f)) ==> interactive(i, f, self.points.len() as int))
        &&& (self.hovered matches Some((i, f)) ==> interactive(i, f, self.points.len() as int))
        &&& (self.dragged is Some ==> self.anchor is None && self.hovered is None)
        &&& MIN_RESOLUTION <= self.curve_resolution <= MAX_RESOLUTION
    }

    /// The editor as it starts: three keys on the diagonal, nothing
    /// dragged or hovered, no menu.
    pub open spec fn initial() -> CurveModel {
        CurveModel {
            constrain_to_01: false,
            curve_resolution: 50,
            dragged: None,
            hovered: None,
            anchor: None,
            points: seq![
                AnimationKey::spec_new(Vec2 { x: 0, y: 0 }),
                AnimationKey::spec_new(Vec2 { x: 5_000, y: 5_000 }),
                AnimationKey::spec_new(Vec2 { x: 10_000, y: 10_000 }),
            ],
        }
    }

    /// The handle under a pointer at `ptr`.
    pub open spec fn intersected(self, ptr: Vec2) -> Option<(int, AnimationKeyPointField)> {
        first_hit(self.points, ptr, 0)
    }

    /// Inserting a key at `pos`, clamped into the domain. A drag in
    /// progress ends as by a release. The insertion is refused, with the
    /// keys unchanged, where a key already stands at the clamped x.
    /// Otherwise the key takes its place in the order, and nothing is
    /// hovered.
    pub open spec fn add_key(self, pos: Vec2) -> (CurveModel, Result<int, EditError>) {
        let p = clamp_to_domain(pos, self.constrain_to_01);
        let r = self.release();
        if has_x(r.points, p.x as int) {
            (r, Err(EditError::DegenerateInsert))
        } else {
            (
                CurveModel {
                    points: insert_sorted(r.points, AnimationKey::spec_new(p)),
                    hovered: None,
                    ..r
                },
                Ok(upper_bound(r.points, p.x as int)),
            )
        }
    }

    /// Removing key number `i`. Refused, with nothing changed, where only
    /// two keys are left. Otherwise a drag in progress ends as by a
    /// release, the key leaves, and nothing is hovered.
    pub open spec fn remove_key(self, i: int) -> (CurveModel, Result<(), EditError>) {
        let r = self.release();
        if self.points.len() <= 2 {
            (self, Err(EditError::CannotRemove))
        } else {
            (CurveModel { points: r.points.remove(i), hovered: None, ..r }, Ok(()))
        }
    }

    /// Flipping the tangent lock of key number `i`.
    pub open spec fn toggle_tangent_lock(self, i: int, field: AnimationKeyPointField) -> CurveModel {
        CurveModel {
            points: self.points.update(i, self.points[i].spec_toggle_tangent(field)),
            ..self
        }
    }

    /// Moving the dragged handle by `delta`. After a move of a position
    /// the keys are sorted again and the drag follows the moved key.
    pub open spec fn update_dragged(self, delta: Vec2) -> CurveModel {
        match self.dragged {
            None => self,
            Some((i, f)) => {
                let moved = self.points[i].spec_translate(f, delta);
                let pts = self.points.update(i, moved);
                if f == AnimationKeyPointField::Pos {
                    let sorted = sort_by_x(pts);
                    CurveModel {
                        points: sorted,
                        dragged: Some((first_index_of(sorted, moved), f)),
                        ..self
                    }
                } else {
                    CurveModel { points: pts, ..self }
                }
            },
        }
    }

    /// Ending a drag: a dragged position is clamped into the domain, and
    /// nothing is dragged any more.
    pub open spec fn release(self) -> CurveModel {
        match self.dragged {
            None => self,
            Some((i, f)) => {
                if f == AnimationKeyPointField::Pos {
                    let k = self.points[i];
                    CurveModel {
                        points: self.points.update(
                            i,
                            AnimationKey { pos: clamp_to_domain(k.pos, self.constrain_to_01), ..k },
                        ),
                        dragged: None,
                        ..self
                    }
                } else {
                    CurveModel { dragged: None, ..self }
                }
            },
        }
    }

    /// Switching the y range. Switching the constraint on clamps every
    /// key's y into `[0, 1]`.
    pub open spec fn set_constrain(self, on: bool) -> CurveModel {
        CurveModel {
            constrain_to_01: on,
            points: if on {
                Seq::new(
                    self.points.len(),
                    |i: int|
                        AnimationKey {
                            pos: Vec2 {
                                x: self.points[i].pos.x,
                                y: crate::geometry::clamp_int(
                                    self.points[i].pos.y as int,
                                    0,
                                    UNIT as int,
                                ) as i32,
                            },
                            ..self.points[i]
                        },
                )
            } else {
                self.points
            },
            ..self
        }
    }

    /// The primary button goes down at `ptr`. Ignored while a menu is
    /// open. Otherwise a drag in progress ends as by a release, and a drag
    /// of the handle under the pointer begins, if there is one.
    pub open spec fn press(self, ptr: Vec2) -> CurveModel {
        if self.anchor is Some {
            self
        } else {
            let r = self.release();
            CurveModel { dragged: r.intersected(ptr), hovered: None, ..r }
        }
    }

    /// The secondary button is clicked at `ptr`. When idle, the menu opens
    /// there, for the handle under the pointer if there is one.
    pub open spec fn secondary_click(self, ptr: Vec2) -> CurveModel {
        if self.dragged is Some || self.anchor is Some {
            self
        } else {
            CurveModel { anchor: Some(ptr), hovered: self.intersected(ptr), ..self }
        }
    }

    /// An entry of the context menu is chosen. An entry that the menu does
    /// not offer for its target changes nothing; every other one closes the
    /// menu. Deleting is offered for a position while more than two keys
    /// exist, toggling the lock for a tangent, adding a key on empty space.
    pub open spec fn menu(self, action: MenuAction) -> (CurveModel, Notice) {
        match self.anchor {
            None => (self, Notice::Nothing),
            Some(a) => {
                let closed = CurveModel { anchor: None, hovered: None, ..self };
                match action {
                    MenuAction::Close => (closed, Notice::Nothing),
                    MenuAction::DeleteKey => match self.hovered {
                        Some((i, f)) => if f == AnimationKeyPointField::Pos && self.points.len()
                            > 2 {
                            (closed.remove_key(i).0, Notice::KeyRemoved)
                        } else {
                            (self, Notice::Nothing)
                        },
                        None => (self, Notice::Nothing),
                    },
                    MenuAction::ToggleTangentLock => match self.hovered {
                        Some((i, f)) => if f != AnimationKeyPointField::Pos {
                            (closed.toggle_tangent_lock(i, f), Notice::TangentLockToggled)
                        } else {
                            (self, Notice::Nothing)
                        },
                        None => (self, Notice::Nothing),
                    },
                    MenuAction::AddKeyHere => match self.hovered {
                        Some(_) => (self, Notice::Nothing),
                        None => {
                            let r = closed.add_key(a);
                            (
                                r.0,
                                if r.1 is Ok {
                                    Notice::KeyAdded
                                } else {
                                    Notice::DegenerateInsert
                                },
                            )
                        },
                    },
                }
            },
        }
    }

    /// A click at `ptr` with modifier keys held, when idle: on a tangent
    /// with `command` the lock is toggled; on a position with `alt` the key
    /// is deleted, or the refusal reported; on empty space with `alt` a key
    /// is added.
    pub open spec fn modified_click(self, ptr: Vec2, command: bool, alt: bool) -> (
        CurveModel,
        Notice,
    ) {
        if self.dragged is Some || self.anchor is Some {
            (self, Notice::Nothing)
        } else {
            match self.intersected(ptr) {
                Some((i, f)) => if f != AnimationKeyPointField::Pos && command {
                    (self.toggle_tangent_lock(i, f), Notice::TangentLockToggled)
                } else if f == AnimationKeyPointField::Pos && alt {
                    let r = self.remove_key(i);
                    (
                        r.0,
                        if r.1 is Ok {
                            Notice::KeyRemoved
                        } else {
                            Notice::CannotRemove
                        },
                    )
                } else {
                    (self, Notice::Nothing)
                },
                None => if alt {
                    let r = self.add_key(ptr);
                    (
                        r.0,
                        if r.1 is Ok {
                            Notice::KeyAdded
                        } else {
                            Notice::DegenerateInsert
                        },
                    )
                } else {
                    (self, Notice::Nothing)
                },
            }
        }
    }

    /// The pointer rests at `ptr`. During a drag nothing is hovered; while
    /// a menu is open the hover stays; otherwise the handle under the
    /// pointer is hovered.
    pub open spec fn hover(self, ptr: Option<Vec2>) -> CurveModel {
        if self.dragged is Some {
            CurveModel { hovered: None, ..self }
        } else if self.anchor is Some {
            self
        } else {
            CurveModel {
                hovered: match ptr {
                    Some(p) => self.intersected(p),
                    None => None,
                },
                ..self
            }
        }
    }

    /// The state after one event, and what is reported.
    pub open spec fn step(self, event: EditorEvent) -> (CurveModel, Notice) {
        match event {
            EditorEvent::PrimaryPress(p) => (self.press(p), Notice::Nothing),
            EditorEvent::PrimaryDrag(d) => (self.update_dragged(d), Notice::Nothing),
            EditorEvent::PrimaryRelease => (self.release(), Notice::Nothing),
            EditorEvent::SecondaryClick(p) => (self.secondary_click(p), Notice::Nothing),
            EditorEvent::Menu(a) => self.menu(a),
            EditorEvent::ModifiedClick { pointer, command, alt } => self.modified_click(
                pointer,
                command,
                alt,
            ),
            EditorEvent::Hover(p) => (self.hover(p), Notice::Nothing),
        }
    }

    /// The state after a sequence of events.
    pub open spec fn run(self, events: Seq<EditorEvent>) -> CurveModel
        decreases events.len(),
    {
        if events.len() == 0 {
            self
        } else {
            self.run(events.drop_last()).step(events.last()).0
        }
    }

    /// The editor starts in a state that meets the invariant.
    pub proof fn lemma_initial_wf()
        ensures
            Self::initial().wf(),
            Self::initial().state() == EditorState::Idle,
            strictly_sorted_by_x(Self::initial().points),
    {
    }

    /// A release keeps the invariant and the order of the keys, leaves
    /// every key inside the domain, and ends the drag.
    pub proof fn lemma_release_wf(self)
        requires
            self.wf(),
        ensures
            self.release().wf(),
            self.release().dragged is None,
            self.release().points.len() == self.points.len(),
            forall|i: int|
                0 <= i < self.points.len() ==> in_domain(
                    (#[trigger] self.release().points[i]).pos,
                    self.constrain_to_01,
                ),
            self.dragged is None ==> self.release() == self,
    {
        let r = self.release();
        match self.dragged {
            None => {},
            Some((i, f)) => {
                if f == AnimationKeyPointField::Pos {
                    assert forall|a: int, b: int| 0 <= a < b < r.points.len() implies r.points[a].pos.x
                        <= r.points[b].pos.x by {
                        assert(self.points[a].pos.x <= self.points[b].pos.x);
                        if a != i {
                            assert(in_domain(self.points[a].pos, self.constrain_to_01));
                        }
                        if b != i {
                            assert(in_domain(self.points[b].pos, self.constrain_to_01));
                        }
                    }
                    assert forall|a: int| 0 <= a < r.points.len() implies in_domain(
                        (#[trigger] r.points[a]).pos,
                        self.constrain_to_01,
                    ) by {
                        if a != i {
                            assert(in_domain(self.points[a].pos, self.constrain_to_01));
                        }
                    }
                    assert forall|a: int| 0 <= a < r.points.len() implies (
                    #[trigger] r.points[a]).wf() by {
                        assert(self.points[a].wf());
                    }
                } else {
                    assert forall|a: int| 0 <= a < r.points.len() implies in_domain(
                        (#[trigger] r.points[a]).pos,
                        self.constrain_to_01,
                    ) by {
                        assert(self.dragged != Some((a, AnimationKeyPointField::Pos)));
                    }
                }
            },
        }
    }

    /// Adding a key keeps the invariant. Where it succeeds there is one
    /// key more, the new key stands at the index that is returned, and keys
    /// whose x were all different still have different x.
    pub proof fn lemma_add_key_wf(self, pos: Vec2)
        requires
            self.wf(),
        ensures
            self.add_key(pos).0.wf(),
            self.add_key(pos).1 is Err ==> self.add_key(pos).0 == self.release(),
            self.add_key(pos).1 is Err <==> has_x(
                self.release().points,
                clamp_to_domain(pos, self.constrain_to_01).x as int,
            ),
            self.add_key(pos).1 matches Ok(i) ==> {
                &&& self.add_key(pos).0.points.len() == self.points.len() + 1
                &&& 0 <= i <= self.points.len()
                &&& self.add_key(pos).0.points[i] == AnimationKey::spec_new(
                    clamp_to_domain(pos, self.constrain_to_01),
                )
                &&& self.add_key(pos).0.dragged is None
                &&& (strictly_sorted_by_x(self.release().points) ==> strictly_sorted_by_x(
                    self.add_key(pos).0.points,
                ))
            },
    {
        let p = clamp_to_domain(pos, self.constrain_to_01);
        let r = self.release();
        self.lemma_release_wf();
        if !has_x(r.points, p.x as int) {
            let k = AnimationKey::spec_new(p);
            let n = self.add_key(pos).0;
            let at = upper_bound(r.points, p.x as int);
            lemma_insert_sorted(r.points, k);
            lemma_upper_bound(r.points, p.x as int);
            assert(k.wf());
            assert forall|a: int| 0 <= a < n.points.len() implies (#[trigger] n.points[a]).wf()
                && in_domain(n.points[a].pos, n.constrain_to_01) by {
                if a < at {
                    assert(n.points[a] == r.points[a]);
                } else if a > at {
                    assert(n.points[a] == r.points[a - 1]);
                }
            }
        }
    }

    /// Removing a key keeps the invariant: the sequence never drops below
    /// two keys.
    pub proof fn lemma_remove_key_wf(self, i: int)
        requires
            self.wf(),
            0 <= i < self.points.len(),
        ensures
            self.remove_key(i).0.wf(),
            self.remove_key(i).0.points.len() >= 2,
            self.remove_key(i).1 is Err <==> self.points.len() == 2,
            self.remove_key(i).1 is Err ==> self.remove_key(i).0 == self,
            self.remove_key(i).1 is Ok ==> self.remove_key(i).0.points.len() == self.points.len()
                - 1,
    {
        let r = self.release();
        self.lemma_release_wf();
        if self.points.len() > 2 {
            let n = self.remove_key(i).0;
            assert forall|a: int| 0 <= a < n.points.len() implies (#[trigger] n.points[a]).wf()
                && in_domain(n.points[a].pos, n.constrain_to_01) by {
                if a < i {
                    assert(n.points[a] == r.points[a]);
                } else {
                    assert(n.points[a] == r.points[a + 1]);
                }
            }
            assert forall|a: int, b: int| 0 <= a < b < n.points.len() implies n.points[a].pos.x
                <= n.points[b].pos.x by {
                let a0 = if a < i {
                    a
                } else {
                    a + 1
                };
                let b0 = if b < i {
                    b
                } else {
                    b + 1
                };
                assert(r.points[a0].pos.x <= r.points[b0].pos.x);
            }
        }
    }

    /// Flipping a tangent lock keeps the invariant.
    pub proof fn lemma_toggle_tangent_lock_wf(self, i: int, field: AnimationKeyPointField)
        requires
            self.wf(),
            0 <= i < self.points.len(),
        ensures
            self.toggle_tangent_lock(i, field).wf(),
    {
        let n = self.toggle_tangent_lock(i, field);
        self.points[i].lemma_toggle_wf(field);
        assert forall|a: int| 0 <= a < n.points.len() implies (#[trigger] n.points[a]).wf() by {
            if a != i {
                assert(n.points[a] == self.points[a]);
            }
        }
        assert forall|a: int, b: int| 0 <= a < b < n.points.len() implies n.points[a].pos.x
            <= n.points[b].pos.x by {
            assert(self.points[a].pos.x <= self.points[b].pos.x);
        }
        assert forall|a: int|
            0 <= a < n.points.len() && n.dragged != Some(
                (a, AnimationKeyPointField::Pos),
            ) implies in_domain((#[trigger] n.points[a]).pos, n.constrain_to_01) by {
            assert(in_domain(self.points[a].pos, self.constrain_to_01));
        }
    }

    /// Moving the dragged handle keeps the invariant: the keys are in
    /// ascending order after every move, a locked key's tangents are
    /// opposite, and the drag stays on the key that was moved, still by
    /// the same kind of handle.
    pub proof fn lemma_update_dragged_wf(self, delta: Vec2)
        requires
            self.wf(),
        ensures
            self.update_dragged(delta).wf(),
            sorted_by_x(self.update_dragged(delta).points),
            self.update_dragged(delta).points.len() == self.points.len(),
            self.dragged matches Some((i, f)) ==> {
                &&& self.update_dragged(delta).dragged matches Some((j, g))
                &&& g == f
                &&& 0 <= j < self.points.len()
                &&& self.update_dragged(delta).points[j] == self.points[i].spec_translate(
                    f,
                    delta,
                )
                &&& (f != AnimationKeyPointField::Pos ==> j == i)
                &&& self.update_dragged(delta).points.to_multiset() == self.points.update(
                    i,
                    self.points[i].spec_translate(f, delta),
                ).to_multiset()
            },
            self.dragged is None ==> self.update_dragged(delta) == self,
    {
        match self.dragged {
            None => {},
            Some((i, f)) => {
                let old_key = self.points[i];
                let moved = old_key.spec_translate(f, delta);
                let pts = self.points.update(i, moved);
                let n = self.update_dragged(delta);
                old_key.lemma_translate_wf(f, delta);
                assert forall|a: int| 0 <= a < pts.len() implies (#[trigger] pts[a]).wf() by {
                    if a != i {
                        assert(pts[a] == self.points[a]);
                    }
                }
                if f == AnimationKeyPointField::Pos {
                    let sorted = sort_by_x(pts);
                    lemma_sort_by_x(pts);
                    crate::sequence::lemma_sort_members(pts);
                    lemma_first_index_of(sorted, moved);
                    assert(pts[i] == moved);
                    assert(sorted.contains(moved));
                    let j = first_index_of(sorted, moved);
                    assert forall|a: int| 0 <= a < sorted.len() implies (#[trigger] sorted[a]).wf() by {
                        assert(pts.contains(sorted[a]));
                    }
                    assert forall|a: int| 0 <= a < sorted.len() && a != j implies in_domain(
                        (#[trigger] sorted[a]).pos,
                        self.constrain_to_01,
                    ) by {
                        let v = sorted[a];
                        if v == moved {
                            crate::sequence::lemma_two_places_count(sorted, a, j);
                            let b = crate::sequence::lemma_count_two_places(pts, i);
                            assert(pts[b] == self.points[b]);
                            assert(in_domain(self.points[b].pos, self.constrain_to_01));
                        } else {
                            assert(pts.contains(v));
                            let b = choose|b: int| 0 <= b < pts.len() && pts[b] == v;
                            assert(b != i);
                            assert(pts[b] == self.points[b]);
                            assert(in_domain(self.points[b].pos, self.constrain_to_01));
                        }
                    }
                } else {
                    assert(moved.pos == old_key.pos);
                    assert forall|a: int, b: int| 0 <= a < b < pts.len() implies pts[a].pos.x
                        <= pts[b].pos.x by {
                        assert(self.points[a].pos.x <= self.points[b].pos.x);
                    }
                    assert forall|a: int| 0 <= a < pts.len() implies in_domain(
                        (#[trigger] pts[a]).pos,
                        self.constrain_to_01,
                    ) by {
                        assert(self.dragged != Some((a, AnimationKeyPointField::Pos)));
                        assert(in_domain(self.points[a].pos, self.constrain_to_01));
                    }
                }
            },
        }
    }

    /// Switching the y range keeps the invariant.
    pub proof fn lemma_set_constrain_wf(self, on: bool)
        requires
            self.wf(),
        ensures
            self.set_constrain(on).wf(),
            self.set_constrain(on).points.len() == self.points.len(),
    {
        let n = self.set_constrain(on);
        if on {
            assert forall|a: int| 0 <= a < n.points.len() implies (#[trigger] n.points[a]).wf() by {
                assert(self.points[a].wf());
            }
            assert forall|a: int, b: int| 0 <= a < b < n.points.len() implies n.points[a].pos.x
                <= n.points[b].pos.x by {
                assert(self.points[a].pos.x <= self.points[b].pos.x);
            }
            assert forall|a: int|
                0 <= a < n.points.len() && n.dragged != Some(
                    (a, AnimationKeyPointField::Pos),
                ) implies in_domain((#[trigger] n.points[a]).pos, n.constrain_to_01) by {
                assert(in_domain(self.points[a].pos, self.constrain_to_01));
            }
        } else {
            assert forall|a: int|
                0 <= a < n.points.len() && n.dragged != Some(
                    (a, AnimationKeyPointField::Pos),
                ) implies in_domain((#[trigger] n.points[a]).pos, n.constrain_to_01) by {
                assert(in_domain(self.points[a].pos, self.constrain_to_01));
            }
        }
    }

    /// Every event keeps the invariant.
    pub proof fn lemma_step_wf(self, event: EditorEvent)
        requires
            self.wf(),
        ensures
            self.step(event).0.wf(),
    {
        match event {
            EditorEvent::PrimaryPress(p) => {
                self.lemma_release_wf();
                lemma_first_hit(self.release().points, p, 0);
            },
            EditorEvent::PrimaryDrag(d) => {
                self.lemma_update_dragged_wf(d);
            },
            EditorEvent::PrimaryRelease => {
                self.lemma_release_wf();
            },
            EditorEvent::SecondaryClick(p) => {
                lemma_first_hit(self.points, p, 0);
            },
            EditorEvent::Menu(a) => {
                self.lemma_menu_wf(a);
            },
            EditorEvent::ModifiedClick { pointer, command, alt } => {
                self.lemma_modified_click_wf(pointer, command, alt);
            },
            EditorEvent::Hover(p) => {
                match p {
                    Some(q) => {
                        lemma_first_hit(self.points, q, 0);
                    },
                    None => {},
                }
            },
        }
    }

    /// A menu entry keeps the invariant, and leaves at least two keys.
    pub proof fn lemma_menu_wf(self, action: MenuAction)
        requires
            self.wf(),
        ensures
            self.menu(action).0.wf(),
    {
        match self.anchor {
            None => {},
            Some(a) => {
                let closed = CurveModel { anchor: None, hovered: None, ..self };
                assert(closed.wf());
                match self.hovered {
                    Some((i, f)) => {
                        closed.lemma_remove_key_wf(i);
                        closed.lemma_toggle_tangent_lock_wf(i, f);
                    },
                    None => {
                        closed.lemma_add_key_wf(a);
                    },
                }
            },
        }
    }

    /// A click with modifiers keeps the invariant.
    pub proof fn lemma_modified_click_wf(self, ptr: Vec2, command: bool, alt: bool)
        requires
            self.wf(),
        ensures
            self.modified_click(ptr, command, alt).0.wf(),
    {
        if self.dragged is None && self.anchor is None {
            lemma_first_hit(self.points, ptr, 0);
            match self.intersected(ptr) {
                Some((i, f)) => {
                    self.lemma_toggle_tangent_lock_wf(i, f);
                    self.lemma_remove_key_wf(i);
                },
                None => {
                    self.lemma_add_key_wf(ptr);
                },
            }
        }
    }

    /// Whatever events arrive, in whatever order: the keys stay in
    /// ascending order of x, there are never fewer than two of them, and
    /// the tangents of every locked key are opposite.
    pub proof fn lemma_run_wf(self, events: Seq<EditorEvent>)
        requires
            self.wf(),
        ensures
            self.run(events).wf(),
            sorted_by_x(self.run(events).points),
            self.run(events).points.len() >= 2,
            forall|i: int|
                0 <= i < self.run(events).points.len() && (
                #[trigger] self.run(events).points[i]).tangent_locked ==> self.run(
                    events,
                ).points[i].mirrored(),
        decreases events.len(),
    {
        if events.len() > 0 {
            self.lemma_run_wf(events.drop_last());
            self.run(events.drop_last()).lemma_step_wf(events.last());
        }
        let r = self.run(events);
        assert forall|i: int| 0 <= i < r.points.len() && (#[trigger] r.points[i]).tangent_locked implies r.points[i].mirrored() by {
            assert(r.points[i].wf());
        }
    }
}

} // verus!
