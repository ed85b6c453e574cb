//! The editor: the key sequence with its interaction state, the edits on
//! it, the event loop's transition function and the per-frame draw lists.

use vstd::prelude::*;
use crate::geometry::{Vec2, UNIT};
use crate::key::{AnimationKey, AnimationKeyPointField};
use crate::model::{
    CurveModel,
    EditError,
    EditorEvent,
    MenuAction,
    Notice,
    MIN_RESOLUTION,
    MAX_RESOLUTION,
    first_hit,
    key_hit,
    lemma_first_hit,
    clamp_to_domain,
};
use crate::sequence::{sort_keys, position_of, has_x, lemma_upper_bound_unique};
use crate::splines::{get_hermite, sample_x};

verus! {

/// A handle reference with its index as a mathematical integer.
pub open spec fn handle_model(h: Option<(usize, AnimationKeyPointField)>) -> Option<
    (int, AnimationKeyPointField),
> {
    match h {
        Some((i, f)) => Some((i as int, f)),
        None => None,
    }
}

/// A circle to draw for one handle of one key.
#[derive(Clone, Copy, Debug, PartialEq, Eq, Structural)]
pub struct KeyMarker {
    /// Index of the key.
    pub key_index: usize,
    /// Which handle of the key it marks.
    pub field: AnimationKeyPointField,
    /// Centre of the circle, in model space.
    pub center: Vec2,
    /// Whether the key's tangents are locked.
    pub locked: bool,
    /// Whether the handle is the hovered one and gets a highlight stroke.
    pub hovered: bool,
}

/// The marker for the handle `field` of key number `i`.
pub open spec fn marker(
    s: Seq<AnimationKey>,
    hovered: Option<(int, AnimationKeyPointField)>,
    i: int,
    field: AnimationKeyPointField,
) -> KeyMarker {
    KeyMarker {
        key_index: i as usize,
        field,
        center: s[i].handle_point(field),
        locked: s[i].tangent_locked,
        hovered: hovered == Some((i, field)),
    }
}

/// The markers of key number `i`: incoming tangent, position, outgoing
/// tangent, without the incoming tangent of the first and the outgoing
/// tangent of the last key.
pub open spec fn key_markers(
    s: Seq<AnimationKey>,
    hovered: Option<(int, AnimationKeyPointField)>,
    i: int,
) -> Seq<KeyMarker> {
    let before = if i > 0 {
        seq![marker(s, hovered, i, AnimationKeyPointField::TanIn)]
    } else {
        Seq::<KeyMarker>::empty()
    };
    let behind = if i < s.len() - 1 {
        seq![marker(s, hovered, i, AnimationKeyPointField::TanOut)]
    } else {
        Seq::<KeyMarker>::empty()
    };
    before + seq![marker(s, hovered, i, AnimationKeyPointField::Pos)] + behind
}

/// The markers of the first `n` keys, key by key.
pub open spec fn markers_upto(
    s: Seq<AnimationKey>,
    hovered: Option<(int, AnimationKeyPointField)>,
    n: int,
) -> Seq<KeyMarker>
    decreases n,
{
    if n <= 0 {
        Seq::<KeyMarker>::empty()
    } else {
        markers_upto(s, hovered, n - 1) + key_markers(s, hovered, n - 1)
    }
}

/// The guide line through key number `i`: the end of the incoming
/// tangent, the position, the end of the outgoing tangent, without the
/// incoming end on the first and the outgoing end on the last key.
pub open spec fn tangent_line(s: Seq<AnimationKey>, i: int) -> Seq<Vec2> {
    let before = if i > 0 {
        seq![s[i].handle_point(AnimationKeyPointField::TanIn)]
    } else {
        Seq::<Vec2>::empty()
    };
    let behind = if i < s.len() - 1 {
        seq![s[i].handle_point(AnimationKeyPointField::TanOut)]
    } else {
        Seq::<Vec2>::empty()
    };
    before + seq![s[i].pos] + behind
}

/// The interactive curve editor.
pub struct CurveEditor {
    constrain_to_01: bool,
    curve_resolution: usize,
    dragged_object: Option<(usize, AnimationKeyPointField)>,
    hovered_object: Option<(usize, AnimationKeyPointField)>,
    right_click_pos: Option<Vec2>,
    points: Vec<AnimationKey>,
}

impl View for CurveEditor {
    type V = CurveModel;

    closed spec fn view(&self) -> CurveModel {
        CurveModel {
            constrain_to_01: self.constrain_to_01,
            curve_resolution: self.curve_resolution as nat,
            dragged: handle_model(self.dragged_object),
            hovered: handle_model(self.hovered_object),
            anchor: self.right_click_pos,
            points: self.points@,
        }
    }
}

impl CurveEditor {
    /// An editor with three keys on the diagonal of the unit square.
    pub fn new() -> (e: CurveEditor)
        ensures
            e@ == CurveModel::initial(),
            e@.wf(),
    {
        let mut points: Vec<AnimationKey> = Vec::new();
        points.push(AnimationKey::new(Vec2 { x: 0, y: 0 }));
        points.push(AnimationKey::new(Vec2 { x: 5_000, y: 5_000 }));
        points.push(AnimationKey::new(Vec2 { x: 10_000, y: 10_000 }));
        proof {
            assert(points@ =~= CurveModel::initial().points);
            CurveModel::lemma_initial_wf();
        }
        CurveEditor {
            constrain_to_01: false,
            curve_resolution: 50,
            dragged_object: None,
            hovered_object: None,
            right_click_pos: None,
            points,
        }
    }

    /// Whether y is limited to `[0, 1]` rather than `[-1, 1]`.
    pub fn constrain_to_01(&self) -> (r: bool)
        ensures
            r == self@.constrain_to_01,
    {
        self.constrain_to_01
    }

    /// The number of intervals the curve is sampled at for drawing.
    pub fn curve_resolution(&self) -> (r: usize)
        ensures
            r == self@.curve_resolution,
    {
        self.curve_resolution
    }

    /// The keys, in ascending order of x.
    pub fn points(&self) -> (r: &Vec<AnimationKey>)
        ensures
            r@ == self@.points,
    {
        &self.points
    }

    /// The handle that is being dragged.
    pub fn dragged_object(&self) -> (r: Option<(usize, AnimationKeyPointField)>)
        ensures
            handle_model(r) == self@.dragged,
    {
        self.dragged_object
    }

    /// The handle under the pointer, or the target of the open menu.
    pub fn hovered_object(&self) -> (r: Option<(usize, AnimationKeyPointField)>)
        ensures
            handle_model(r) == self@.hovered,
    {
        self.hovered_object
    }

    /// Where the context menu was opened, while it is open.
    pub fn right_click_pos(&self) -> (r: Option<Vec2>)
        ensures
            r == self@.anchor,
    {
        self.right_click_pos
    }

    /// Sets the number of sampling intervals, limited to the range from
    /// `MIN_RESOLUTION` to `MAX_RESOLUTION`.
    pub fn set_curve_resolution(&mut self, resolution: usize)
        requires
            old(self)@.wf(),
        ensures
            final(self)@ == (CurveModel {
                curve_resolution: crate::geometry::clamp_int(
                    resolution as int,
                    MIN_RESOLUTION as int,
                    MAX_RESOLUTION as int,
                ) as nat,
                ..old(self)@
            }),
            final(self)@.wf(),
    {
        self.curve_resolution = if resolution < MIN_RESOLUTION {
            MIN_RESOLUTION
        } else if resolution > MAX_RESOLUTION {
            MAX_RESOLUTION
        } else {
            resolution
        };
    }

    /// Switches the y range. Switching the constraint on clamps the y of
    /// every key into `[0, 1]`.
    pub fn set_constrain_to_01(&mut self, on: bool)
        requires
            old(self)@.wf(),
        ensures
            final(self)@ == old(self)@.set_constrain(on),
            final(self)@.wf(),
    {
        self.constrain_to_01 = on;
        if on {
            let n = self.points.len();
            let mut i: usize = 0;
            while i < n
                invariant
                    0 <= i <= n,
                    n == self.points@.len(),
                    n == old(self).points@.len(),
                    forall|j: int|
                        0 <= j < i ==> #[trigger] self.points@[j] == old(self)@.set_constrain(
                            true,
                        ).points[j],
                    forall|j: int| i <= j < n ==> #[trigger] self.points@[j] == old(self).points@[j],
                    self.constrain_to_01 == on,
                    self.curve_resolution == old(self).curve_resolution,
                    self.dragged_object == old(self).dragged_object,
                    self.hovered_object == old(self).hovered_object,
                    self.right_click_pos == old(self).right_click_pos,
                decreases n - i,
            {
                let mut k = self.points[i];
                k.pos.y = crate::geometry::clamp_coord(k.pos.y, 0, UNIT);
                self.points.set(i, k);
                i += 1;
            }
            proof {
                assert(self.points@ =~= old(self)@.set_constrain(true).points);
            }
        }
        proof {
            old(self)@.lemma_set_constrain_wf(on);
        }
    }

    /// The handle under a pointer at `ptr_coord`: on the first key, in
    /// ascending order of x, that has an interactive handle within the
    /// click radius, the nearest such handle. The incoming tangent of the
    /// first key and the outgoing tangent of the last key are never hit.
    pub fn intersected_key(&self, ptr_coord: Vec2) -> (r: Option<(usize, AnimationKeyPointField)>)
        ensures
            handle_model(r) == self@.intersected(ptr_coord),
            match r {
                Some((i, f)) => {
                    &&& i < self@.points.len()
                    &&& key_hit(self@.points, i as int, ptr_coord) == Some(f)
                    &&& forall|j: int| 0 <= j < i ==> key_hit(self@.points, j, ptr_coord) is None
                },
                None => forall|j: int|
                    0 <= j < self@.points.len() ==> key_hit(self@.points, j, ptr_coord) is None,
            },
    {
        let n = self.points.len();
        let mut i: usize = 0;
        proof {
            lemma_first_hit(self.points@, ptr_coord, 0);
        }
        while i < n
            invariant
                0 <= i <= n,
                n == self.points@.len(),
                first_hit(self.points@, ptr_coord, i as int) == first_hit(self.points@, ptr_coord, 0),
                forall|j: int| 0 <= j < i ==> key_hit(self.points@, j, ptr_coord) is None,
            decreases n - i,
        {
            match self.points[i].hit_test(ptr_coord, i > 0, i + 1 < n) {
                Some(f) => {
                    return Some((i, f));
                },
                None => {},
            }
            i += 1;
        }
        None
    }

    /// Ends a drag: a dragged position is clamped into the domain, and
    /// nothing is dragged any more.
    pub fn release_drag(&mut self)
        requires
            old(self)@.wf(),
        ensures
            final(self)@ == old(self)@.release(),
            final(self)@.wf(),
            final(self)@.dragged is None,
    {
        proof {
            old(self)@.lemma_release_wf();
        }
        if let Some((i, f)) = self.dragged_object {
            if f == AnimationKeyPointField::Pos {
                let lo: i32 = if self.constrain_to_01 {
                    0
                } else {
                    -UNIT
                };
                let mut k = self.points[i];
                k.pos = k.pos.clamp(Vec2 { x: 0, y: lo }, Vec2 { x: UNIT, y: UNIT });
                self.points.set(i, k);
            }
            self.dragged_object = None;
        }
    }

    /// Inserts a key at `pos`, clamped into the domain, with short
    /// horizontal locked tangents, at its place in the order, and returns
    /// its index. A drag in progress ends first. Where a key already
    /// stands at the clamped x, nothing is inserted.
    pub fn add_key(&mut self, pos: Vec2) -> (r: Result<usize, EditError>)
        requires
            old(self)@.wf(),
        ensures
            final(self)@ == old(self)@.add_key(pos).0,
            match r {
                Ok(i) => old(self)@.add_key(pos).1 == Ok::<int, EditError>(i as int),
                Err(e) => old(self)@.add_key(pos).1 == Err::<int, EditError>(e),
            },
            final(self)@.wf(),
            r is Err <==> has_x(
                old(self)@.release().points,
                clamp_to_domain(pos, old(self)@.constrain_to_01).x as int,
            ),
            r matches Ok(i) ==> i < final(self)@.points.len() && final(self)@.points[i as int]
                == AnimationKey::spec_new(clamp_to_domain(pos, old(self)@.constrain_to_01)),
    {
        proof {
            old(self)@.lemma_add_key_wf(pos);
        }
        self.release_drag();
        let lo: i32 = if self.constrain_to_01 {
            0
        } else {
            -UNIT
        };
        let new_pos = pos.clamp(Vec2 { x: 0, y: lo }, Vec2 { x: UNIT, y: UNIT });
        let mut j: usize = self.points.len();
        while j > 0 && self.points[j - 1].pos.x > new_pos.x
            invariant
                0 <= j <= self.points@.len(),
                forall|m: int| j <= m < self.points@.len() ==> (#[trigger] self.points@[m]).pos.x
                    > new_pos.x,
            decreases j,
        {
            j -= 1;
        }
        proof {
            lemma_upper_bound_unique(self.points@, new_pos.x as int, j as int);
        }
        if j > 0 && self.points[j - 1].pos.x == new_pos.x {
            return Err(EditError::DegenerateInsert);
        }
        proof {
            let s = self.points@;
            if has_x(s, new_pos.x as int) {
                let w = choose|w: int| 0 <= w < s.len() && #[trigger] s[w].pos.x == new_pos.x;
                if w < j {
                    assert(s[w].pos.x <= s[j - 1].pos.x);
                } else {
                    assert(s[w].pos.x > new_pos.x);
                }
            }
        }
        self.points.insert(j, AnimationKey::new(new_pos));
        self.hovered_object = None;
        Ok(j)
    }

    /// Removes the key at `key_index`. Where only two keys are left it is
    /// refused and nothing changes. Otherwise a drag in progress ends, the
    /// key leaves, and nothing is hovered.
    pub fn remove_key(&mut self, key_index: usize) -> (r: Result<(), EditError>)
        requires
            old(self)@.wf(),
            key_index < old(self)@.points.len(),
        ensures
            final(self)@ == old(self)@.remove_key(key_index as int).0,
            r == old(self)@.remove_key(key_index as int).1,
            r is Err <==> old(self)@.points.len() == 2,
            r is Err ==> r == Err::<(), EditError>(EditError::CannotRemove) && final(self)@ == old(
                self,
            )@,
            final(self)@.wf(),
            final(self)@.points.len() >= 2,
    {
        proof {
            old(self)@.lemma_remove_key_wf(key_index as int);
        }
        if self.points.len() <= 2 {
            return Err(EditError::CannotRemove);
        }
        self.release_drag();
        self.points.remove(key_index);
        self.hovered_object = None;
        Ok(())
    }

    /// Flips the tangent lock of the key at `key_index`. Switching the
    /// lock on keeps the handle named by `field` and sets the other one to
    /// its opposite.
    pub fn toggle_tangent_lock(&mut self, key_index: usize, field: AnimationKeyPointField)
        requires
            old(self)@.wf(),
            key_index < old(self)@.points.len(),
        ensures
            final(self)@ == old(self)@.toggle_tangent_lock(key_index as int, field),
            final(self)@.wf(),
    {
        proof {
            old(self)@.lemma_toggle_tangent_lock_wf(key_index as int, field);
            assert(old(self)@.points[key_index as int].wf());
        }
        let mut k = self.points[key_index];
        k.toggle_tangent(field);
        self.points.set(key_index, k);
    }

    /// Moves the dragged handle by `drag_delta`. After a move of a
    /// position the keys are sorted again, and the drag follows the moved
    /// key to its new index.
    pub fn update_dragged_object(&mut self, drag_delta: Vec2)
        requires
            old(self)@.wf(),
        ensures
            final(self)@ == old(self)@.update_dragged(drag_delta),
            final(self)@.wf(),
    {
        proof {
            old(self)@.lemma_update_dragged_wf(drag_delta);
        }
        if let Some((i, f)) = self.dragged_object {
            let mut key = self.points[i];
            key.translate(&f, drag_delta);
            self.points.set(i, key);
            if f == AnimationKeyPointField::Pos {
                sort_keys(&mut self.points);
                proof {
                    crate::sequence::lemma_sort_members(
                        old(self).points@.update(i as int, key),
                    );
                    assert(old(self).points@.update(i as int, key)[i as int] == key);
                }
                match position_of(&self.points, &key) {
                    Some(j) => {
                        self.dragged_object = Some((j, f));
                    },
                    None => {
                        self.dragged_object = None;
                    },
                }
            }
        }
    }

    /// The primary button goes down at `ptr_coord`. Ignored while the
    /// menu is open. Otherwise a drag in progress ends as by a release,
    /// and the handle under the pointer, if any, is dragged from now on.
    pub fn press(&mut self, ptr_coord: Vec2)
        requires
            old(self)@.wf(),
        ensures
            final(self)@ == old(self)@.press(ptr_coord),
            final(self)@.wf(),
    {
        proof {
            old(self)@.lemma_step_wf(EditorEvent::PrimaryPress(ptr_coord));
        }
        if self.right_click_pos.is_none() {
            self.release_drag();
            self.dragged_object = self.intersected_key(ptr_coord);
            self.hovered_object = None;
        }
    }

    /// The secondary button is clicked at `ptr_coord`. When idle, the
    /// context menu opens there, for the handle under the pointer if there
    /// is one; otherwise nothing changes.
    pub fn secondary_click(&mut self, ptr_coord: Vec2)
        requires
            old(self)@.wf(),
        ensures
            final(self)@ == old(self)@.secondary_click(ptr_coord),
            final(self)@.wf(),
    {
        proof {
            old(self)@.lemma_step_wf(EditorEvent::SecondaryClick(ptr_coord));
        }
        if self.dragged_object.is_none() && self.right_click_pos.is_none() {
            self.hovered_object = self.intersected_key(ptr_coord);
            self.right_click_pos = Some(ptr_coord);
        }
    }

    /// An entry of the context menu is chosen. An entry that the menu does
    /// not offer for its target changes nothing; every other one closes
    /// the menu and reports what was done.
    pub fn menu_action(&mut self, action: MenuAction) -> (notice: Notice)
        requires
            old(self)@.wf(),
        ensures
            final(self)@ == old(self)@.menu(action).0,
            notice == old(self)@.menu(action).1,
            final(self)@.wf(),
    {
        proof {
            old(self)@.lemma_menu_wf(action);
        }
        let anchor = match self.right_click_pos {
            Some(a) => a,
            None => {
                return Notice::Nothing;
            },
        };
        let target = self.hovered_object;
        match action {
            MenuAction::Close => {
                self.right_click_pos = None;
                self.hovered_object = None;
                Notice::Nothing
            },
            MenuAction::DeleteKey => match target {
                Some((i, f)) => {
                    if f == AnimationKeyPointField::Pos && self.points.len() > 2 {
                        self.right_click_pos = None;
                        self.hovered_object = None;
                        let _ = self.remove_key(i);
                        Notice::KeyRemoved
                    } else {
                        Notice::Nothing
                    }
                },
                None => Notice::Nothing,
            },
            MenuAction::ToggleTangentLock => match target {
                Some((i, f)) => {
                    if f != AnimationKeyPointField::Pos {
                        self.right_click_pos = None;
                        self.hovered_object = None;
                        self.toggle_tangent_lock(i, f);
                        Notice::TangentLockToggled
                    } else {
                        Notice::Nothing
                    }
                },
                None => Notice::Nothing,
            },
            MenuAction::AddKeyHere => match target {
                Some(_) => Notice::Nothing,
                None => {
                    self.right_click_pos = None;
                    self.hovered_object = None;
                    match self.add_key(anchor) {
                        Ok(_) => Notice::KeyAdded,
                        Err(_) => Notice::DegenerateInsert,
                    }
                },
            },
        }
    }

    /// A click at `ptr_coord` with modifier keys held. When idle: on a
    /// tangent with `command` its lock is toggled; on a position with
    /// `alt` the key is deleted, or the refusal reported; on empty space
    /// with `alt` a key is added there.
    pub fn modified_click(&mut self, ptr_coord: Vec2, command: bool, alt: bool) -> (notice: Notice)
        requires
            old(self)@.wf(),
        ensures
            final(self)@ == old(self)@.modified_click(ptr_coord, command, alt).0,
            notice == old(self)@.modified_click(ptr_coord, command, alt).1,
            final(self)@.wf(),
    {
        proof {
            old(self)@.lemma_modified_click_wf(ptr_coord, command, alt);
        }
        if self.dragged_object.is_some() || self.right_click_pos.is_some() {
            return Notice::Nothing;
        }
        match self.intersected_key(ptr_coord) {
            Some((i, f)) => {
                if f != AnimationKeyPointField::Pos && command {
                    self.toggle_tangent_lock(i, f);
                    Notice::TangentLockToggled
                } else if f == AnimationKeyPointField::Pos && alt {
                    match self.remove_key(i) {
                        Ok(_) => Notice::KeyRemoved,
                        Err(_) => Notice::CannotRemove,
                    }
                } else {
                    Notice::Nothing
                }
            },
            None => {
                if alt {
                    match self.add_key(ptr_coord) {
                        Ok(_) => Notice::KeyAdded,
                        Err(_) => Notice::DegenerateInsert,
                    }
                } else {
                    Notice::Nothing
                }
            },
        }
    }

    /// The pointer rests at `ptr_coord`, or is outside the plot. During a
    /// drag nothing is hovered; while the menu is open the hover stays;
    /// otherwise the handle under the pointer is hovered.
    pub fn hover(&mut self, ptr_coord: Option<Vec2>)
        requires
            old(self)@.wf(),
        ensures
            final(self)@ == old(self)@.hover(ptr_coord),
            final(self)@.wf(),
    {
        proof {
            old(self)@.lemma_step_wf(EditorEvent::Hover(ptr_coord));
        }
        if self.dragged_object.is_some() {
            self.hovered_object = None;
        } else if self.right_click_pos.is_none() {
            self.hovered_object = match ptr_coord {
                Some(p) => self.intersected_key(p),
                None => None,
            };
        }
    }

    /// Applies one input event and returns what is to be reported to the
    /// user.
    pub fn handle_event(&mut self, event: EditorEvent) -> (notice: Notice)
        requires
            old(self)@.wf(),
        ensures
            final(self)@ == old(self)@.step(event).0,
            notice == old(self)@.step(event).1,
            final(self)@.wf(),
    {
        match event {
            EditorEvent::PrimaryPress(p) => {
                self.press(p);
                Notice::Nothing
            },
            EditorEvent::PrimaryDrag(d) => {
                self.update_dragged_object(d);
                Notice::Nothing
            },
            EditorEvent::PrimaryRelease => {
                self.release_drag();
                Notice::Nothing
            },
            EditorEvent::SecondaryClick(p) => {
                self.secondary_click(p);
                Notice::Nothing
            },
            EditorEvent::Menu(a) => self.menu_action(a),
            EditorEvent::ModifiedClick { pointer, command, alt } => self.modified_click(
                pointer,
                command,
                alt,
            ),
            EditorEvent::Hover(p) => {
                self.hover(p);
                Notice::Nothing
            },
        }
    }

    /// Puts the editor back into the state it starts in.
    pub fn reset(&mut self)
        ensures
            final(self)@ == CurveModel::initial(),
            final(self)@.wf(),
    {
        *self = CurveEditor::new();
    }

    /// The value of the curve at `time`: the y of the first key at or
    /// before it, the y of the last key at or behind it, and in between
    /// the y of the Bezier segment between the two neighbours of `time`.
    pub fn evaluate(&self, time: i32) -> (y: i32)
        requires
            self@.wf(),
        ensures
            y as int == crate::splines::spec_evaluate(self@.points, time as int),
            time <= self@.points.first().pos.x ==> y == self@.points.first().pos.y,
            time >= self@.points.last().pos.x && time > self@.points.first().pos.x ==> y
                == self@.points.last().pos.y,
    {
        proof {
            assert forall|i: int| 0 <= i < self.points@.len() implies (
            #[trigger] self.points@[i]).in_range() by {
                assert(self.points@[i].wf());
            }
        }
        crate::splines::evaluate(&self.points, time)
    }

    /// The sampled curve: `curve_resolution + 1` points at evenly spaced x
    /// from 0 to one unit, each with the curve's value there.
    pub fn draw_curve(&self) -> (pts: Vec<Vec2>)
        requires
            self@.wf(),
        ensures
            pts@.len() == self@.curve_resolution + 1,
            forall|i: int|
                0 <= i <= self@.curve_resolution ==> {
                    &&& (#[trigger] pts@[i]).x as int == sample_x(
                        i,
                        self@.curve_resolution as int,
                    )
                    &&& pts@[i].y as int == crate::splines::spec_evaluate(
                        self@.points,
                        sample_x(i, self@.curve_resolution as int),
                    )
                },
    {
        proof {
            assert forall|i: int| 0 <= i < self.points@.len() implies (
            #[trigger] self.points@[i]).in_range() by {
                assert(self.points@[i].wf());
            }
        }
        get_hermite(&self.points, self.curve_resolution)
    }

    /// The tangent guide lines, one polyline per key.
    pub fn draw_tangent_lines(&self) -> (lines: Vec<Vec<Vec2>>)
        requires
            self@.wf(),
        ensures
            lines@.len() == self@.points.len(),
            forall|i: int|
                0 <= i < lines@.len() ==> (#[trigger] lines@[i])@ == tangent_line(self@.points, i),
    {
        let n = self.points.len();
        let mut lines: Vec<Vec<Vec2>> = Vec::new();
        let mut i: usize = 0;
        while i < n
            invariant
                0 <= i <= n,
                n == self.points@.len(),
                self@.wf(),
                lines@.len() == i,
                forall|j: int|
                    0 <= j < i ==> (#[trigger] lines@[j])@ == tangent_line(self.points@, j),
            decreases n - i,
        {
            let pt = &self.points[i];
            proof {
                assert(self.points@[i as int].wf());
            }
            let mut pts: Vec<Vec2> = Vec::new();
            if i > 0 {
                pts.push(pt.tangent_in_screen());
            }
            pts.push(pt.pos);
            if i + 1 < n {
                pts.push(pt.tangent_out_screen());
            }
            proof {
                assert(pts@ =~= tangent_line(self.points@, i as int));
            }
            lines.push(pts);
            i += 1;
        }
        lines
    }

    /// The circles to draw for the handles, key by key: for each key its
    /// incoming tangent, its position and its outgoing tangent, without
    /// the incoming tangent of the first and the outgoing tangent of the
    /// last key. The hovered handle is flagged.
    pub fn draw_keys(&self) -> (markers: Vec<KeyMarker>)
        requires
            self@.wf(),
        ensures
            markers@ == markers_upto(self@.points, self@.hovered, self@.points.len() as int),
    {
        let n = self.points.len();
        let mut markers: Vec<KeyMarker> = Vec::new();
        let mut i: usize = 0;
        while i < n
            invariant
                0 <= i <= n,
                n == self.points@.len(),
                self@.wf(),
                markers@ == markers_upto(self.points@, handle_model(self.hovered_object), i as int),
            decreases n - i,
        {
            let pt = &self.points[i];
            let ghost before = markers@;
            proof {
                assert(self.points@[i as int].wf());
            }
            if i > 0 {
                markers.push(
                    KeyMarker {
                        key_index: i,
                        field: AnimationKeyPointField::TanIn,
                        center: pt.tangent_in_screen(),
                        locked: pt.tangent_locked,
                        hovered: self.is_hovered(i, AnimationKeyPointField::TanIn),
                    },
                );
            }
            markers.push(
                KeyMarker {
                    key_index: i,
                    field: AnimationKeyPointField::Pos,
                    center: pt.pos,
                    locked: pt.tangent_locked,
                    hovered: self.is_hovered(i, AnimationKeyPointField::Pos),
                },
            );
            if i + 1 < n {
                markers.push(
                    KeyMarker {
                        key_index: i,
                        field: AnimationKeyPointField::TanOut,
                        center: pt.tangent_out_screen(),
                        locked: pt.tangent_locked,
                        hovered: self.is_hovered(i, AnimationKeyPointField::TanOut),
                    },
                );
            }
            proof {
                assert(markers@ =~= before + key_markers(
                    self.points@,
                    handle_model(self.hovered_object),
                    i as int,
                ));
            }
            i += 1;
        }
        markers
    }

    /// Whether the handle `field` of the key at `key_index` is hovered.
    pub fn is_hovered(&self, key_index: usize, field: AnimationKeyPointField) -> (r: bool)
        ensures
            r == (self@.hovered == Some((key_index as int, field))),
    {
        match self.hovered_object {
            Some((i, f)) => i == key_index && f == field,
            None => false,
        }
    }
}

impl Default for CurveEditor {
    fn default() -> (e: CurveEditor)
        ensures
            e@ == CurveModel::initial(),
            e@.wf(),
    {
        CurveEditor::new()
    }
}

} // verus!
