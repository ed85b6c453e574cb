//! A control key of the curve: a position with two tangent handles.

use vstd::prelude::*;
use crate::geometry::{Vec2, coord_in_range, COORD_MAX};

verus! {

/// Length of the horizontal tangents a fresh key starts with.
pub const TANGENT_LENGTH: i32 = 400;

/// A handle is hit when the pointer is closer to it than this.
pub const CIRCLE_CLICK_RADIUS: i32 = 300;

/// One of the three draggable parts of a key.
#[derive(Clone, Copy, Debug, PartialEq, Eq, Structural)]
pub enum AnimationKeyPointField {
    Pos,
    TanIn,
    TanOut,
}

/// A control key. The tangents are offsets from `pos`, not absolute points.
#[derive(Clone, Copy, Debug, PartialEq, Eq, Structural)]
pub struct AnimationKey {
    pub pos: Vec2,
    pub tangent_in: Vec2,
    pub tangent_out: Vec2,
    pub tangent_locked: bool,
}

/// Squared distance from `ptr` to a handle at `base + offset`.
pub open spec fn offset_dist_sq(base: Vec2, offset: Vec2, ptr: Vec2) -> int {
    (base.x + offset.x - ptr.x) * (base.x + offset.x - ptr.x) + (base.y + offset.y - ptr.y) * (
    base.y + offset.y - ptr.y)
}

/// Squared click radius.
pub open spec fn click_radius_sq() -> int {
    (CIRCLE_CLICK_RADIUS as int) * (CIRCLE_CLICK_RADIUS as int)
}

fn coord_ok(c: i32) -> (r: bool)
    ensures
        r == coord_in_range(c as int),
{
    -COORD_MAX <= c && c <= COORD_MAX
}

fn handle_dist_sq(base: Vec2, offset: Vec2, ptr: Vec2) -> (r: i128)
    ensures
        r as int == offset_dist_sq(base, offset, ptr),
        r >= 0,
{
    let dx: i128 = base.x as i128 + offset.x as i128 - ptr.x as i128;
    let dy: i128 = base.y as i128 + offset.y as i128 - ptr.y as i128;
    assert(0 <= dx * dx <= 0x2_0000_0000 * 0x2_0000_0000) by (nonlinear_arith)
        requires
            -0x2_0000_0000 <= dx <= 0x2_0000_0000,
    ;
    assert(0 <= dy * dy <= 0x2_0000_0000 * 0x2_0000_0000) by (nonlinear_arith)
        requires
            -0x2_0000_0000 <= dy <= 0x2_0000_0000,
    ;
    dx * dx + dy * dy
}

impl AnimationKeyPointField {
    /// Whether this names one of the two tangent handles.
    pub open spec fn is_tangent(self) -> bool {
        self != AnimationKeyPointField::Pos
    }

    /// Rank used to break ties between handles at equal distance.
    pub open spec fn rank(self) -> int {
        match self {
            AnimationKeyPointField::Pos => 0,
            AnimationKeyPointField::TanIn => 1,
            AnimationKeyPointField::TanOut => 2,
        }
    }
}

impl AnimationKey {
    /// All stored coordinates are inside the representable range.
    pub open spec fn in_range(self) -> bool {
        self.pos.in_range() && self.tangent_in.in_range() && self.tangent_out.in_range()
    }

    /// The two tangents are opposite and of equal length.
    pub open spec fn mirrored(self) -> bool {
        self.tangent_out.x == -self.tangent_in.x && self.tangent_out.y == -self.tangent_in.y
    }

    /// In range, and mirrored whenever the tangents are locked.
    pub open spec fn wf(self) -> bool {
        self.in_range() && (self.tangent_locked ==> self.mirrored())
    }

    /// The key that `new` builds at `pos`.
    pub open spec fn spec_new(pos: Vec2) -> AnimationKey {
        AnimationKey {
            pos,
            tangent_in: Vec2 { x: (-TANGENT_LENGTH) as i32, y: 0 },
            tangent_out: Vec2 { x: TANGENT_LENGTH, y: 0 },
            tangent_locked: true,
        }
    }

    /// What `translate` makes of a key.
    pub open spec fn spec_translate(self, field: AnimationKeyPointField, delta: Vec2) -> AnimationKey {
        match field {
            AnimationKeyPointField::Pos => AnimationKey { pos: self.pos.spec_plus(delta), ..self },
            AnimationKeyPointField::TanIn => {
                let t = self.tangent_in.spec_plus(delta);
                AnimationKey {
                    tangent_in: t,
                    tangent_out: if self.tangent_locked {
                        t.spec_negated()
                    } else {
                        self.tangent_out
                    },
                    ..self
                }
            },
            AnimationKeyPointField::TanOut => {
                let t = self.tangent_out.spec_plus(delta);
                AnimationKey {
                    tangent_out: t,
                    tangent_in: if self.tangent_locked {
                        t.spec_negated()
                    } else {
                        self.tangent_in
                    },
                    ..self
                }
            },
        }
    }

    /// What `toggle_tangent` makes of a key. When the lock is being switched
    /// on, the handle named by `field` stays and the other one becomes its
    /// opposite; `Pos` counts as the incoming handle.
    pub open spec fn spec_toggle_tangent(self, field: AnimationKeyPointField) -> AnimationKey {
        if self.tangent_locked {
            AnimationKey { tangent_locked: false, ..self }
        } else if field == AnimationKeyPointField::TanOut {
            AnimationKey {
                tangent_in: self.tangent_out.spec_negated(),
                tangent_locked: true,
                ..self
            }
        } else {
            AnimationKey {
                tangent_out: self.tangent_in.spec_negated(),
                tangent_locked: true,
                ..self
            }
        }
    }

    /// The point at which the handle `field` of this key lies.
    pub open spec fn handle_point(self, field: AnimationKeyPointField) -> Vec2 {
        match field {
            AnimationKeyPointField::Pos => self.pos,
            AnimationKeyPointField::TanIn => Vec2 {
                x: (self.pos.x + self.tangent_in.x) as i32,
                y: (self.pos.y + self.tangent_in.y) as i32,
            },
            AnimationKeyPointField::TanOut => Vec2 {
                x: (self.pos.x + self.tangent_out.x) as i32,
                y: (self.pos.y + self.tangent_out.y) as i32,
            },
        }
    }

    /// Squared distance from `ptr` to the handle `field` of this key.
    pub open spec fn field_dist_sq(self, field: AnimationKeyPointField, ptr: Vec2) -> int {
        match field {
            AnimationKeyPointField::Pos => offset_dist_sq(self.pos, Vec2 { x: 0, y: 0 }, ptr),
            AnimationKeyPointField::TanIn => offset_dist_sq(self.pos, self.tangent_in, ptr),
            AnimationKeyPointField::TanOut => offset_dist_sq(self.pos, self.tangent_out, ptr),
        }
    }

    /// Whether the handle `field` may be hit at all: the position always,
    /// a tangent only where it is interactive.
    pub open spec fn field_enabled(field: AnimationKeyPointField, allow_in: bool, allow_out: bool) -> bool {
        match field {
            AnimationKeyPointField::Pos => true,
            AnimationKeyPointField::TanIn => allow_in,
            AnimationKeyPointField::TanOut => allow_out,
        }
    }

    /// Whether `ptr` is within the click radius of an enabled handle `field`.
    pub open spec fn field_hit(
        self,
        field: AnimationKeyPointField,
        ptr: Vec2,
        allow_in: bool,
        allow_out: bool,
    ) -> bool {
        Self::field_enabled(field, allow_in, allow_out) && self.field_dist_sq(field, ptr)
            < click_radius_sq()
    }

    /// `field` is hit, no other hit handle is nearer, and among the hit
    /// handles at the same distance it comes first.
    pub open spec fn is_nearest_hit(
        self,
        field: AnimationKeyPointField,
        ptr: Vec2,
        allow_in: bool,
        allow_out: bool,
    ) -> bool {
        &&& self.field_hit(field, ptr, allow_in, allow_out)
        &&& forall|g: AnimationKeyPointField| #[trigger]
            self.field_hit(g, ptr, allow_in, allow_out) ==> {
                ||| self.field_dist_sq(field, ptr) < self.field_dist_sq(g, ptr)
                ||| (self.field_dist_sq(field, ptr) == self.field_dist_sq(g, ptr) && field.rank()
                    <= g.rank())
            }
    }

    /// The handle that a pointer at `ptr` picks on this key, if any.
    pub open spec fn spec_hit(self, ptr: Vec2, allow_in: bool, allow_out: bool) -> Option<
        AnimationKeyPointField,
    > {
        let d_pos = self.field_dist_sq(AnimationKeyPointField::Pos, ptr);
        let d_in = self.field_dist_sq(AnimationKeyPointField::TanIn, ptr);
        let d_out = self.field_dist_sq(AnimationKeyPointField::TanOut, ptr);
        let hit_pos = self.field_hit(AnimationKeyPointField::Pos, ptr, allow_in, allow_out);
        let hit_in = self.field_hit(AnimationKeyPointField::TanIn, ptr, allow_in, allow_out);
        let hit_out = self.field_hit(AnimationKeyPointField::TanOut, ptr, allow_in, allow_out);
        if hit_pos && (hit_in ==> d_pos <= d_in) && (hit_out ==> d_pos <= d_out) {
            Some(AnimationKeyPointField::Pos)
        } else if hit_in && (hit_out ==> d_in <= d_out) {
            Some(AnimationKeyPointField::TanIn)
        } else if hit_out {
            Some(AnimationKeyPointField::TanOut)
        } else {
            None
        }
    }

    /// The handle picked by `spec_hit` is hit and nearest; nothing is picked
    /// only where no handle is hit.
    pub proof fn lemma_hit_is_nearest(self, ptr: Vec2, allow_in: bool, allow_out: bool)
        ensures
            self.spec_hit(ptr, allow_in, allow_out) matches Some(f) ==> self.is_nearest_hit(
                f,
                ptr,
                allow_in,
                allow_out,
            ),
            self.spec_hit(ptr, allow_in, allow_out) is None ==> forall|g: AnimationKeyPointField|
                !#[trigger] self.field_hit(g, ptr, allow_in, allow_out),
    {
        let hit_pos = self.field_hit(AnimationKeyPointField::Pos, ptr, allow_in, allow_out);
        let hit_in = self.field_hit(AnimationKeyPointField::TanIn, ptr, allow_in, allow_out);
        let hit_out = self.field_hit(AnimationKeyPointField::TanOut, ptr, allow_in, allow_out);
        assert forall|g: AnimationKeyPointField| #[trigger]
            self.field_hit(g, ptr, allow_in, allow_out) implies hit_pos || hit_in || hit_out by {
            match g {
                AnimationKeyPointField::Pos => {},
                AnimationKeyPointField::TanIn => {},
                AnimationKeyPointField::TanOut => {},
            }
        }
        match self.spec_hit(ptr, allow_in, allow_out) {
            Some(f) => {
                assert forall|g: AnimationKeyPointField| #[trigger]
                    self.field_hit(g, ptr, allow_in, allow_out) implies {
                    ||| self.field_dist_sq(f, ptr) < self.field_dist_sq(g, ptr)
                    ||| (self.field_dist_sq(f, ptr) == self.field_dist_sq(g, ptr) && f.rank()
                        <= g.rank())
                } by {
                    match g {
                        AnimationKeyPointField::Pos => {},
                        AnimationKeyPointField::TanIn => {},
                        AnimationKeyPointField::TanOut => {},
                    }
                }
            },
            None => {},
        }
    }

    /// Moving a handle keeps a key well formed: with locked tangents the
    /// two tangents are opposite after every move.
    pub proof fn lemma_translate_wf(self, field: AnimationKeyPointField, delta: Vec2)
        ensures
            self.spec_translate(field, delta).tangent_locked == self.tangent_locked,
            self.spec_translate(field, delta).tangent_locked && (field.is_tangent()
                || self.mirrored()) ==> self.spec_translate(field, delta).mirrored(),
            self.in_range() ==> self.spec_translate(field, delta).in_range(),
            self.wf() ==> self.spec_translate(field, delta).wf(),
    {
    }

    /// Flipping the lock gives a well-formed key, and changes no handle
    /// where the tangents were opposite already.
    pub proof fn lemma_toggle_wf(self, field: AnimationKeyPointField)
        requires
            self.in_range(),
        ensures
            self.spec_toggle_tangent(field).wf(),
            self.spec_toggle_tangent(field).tangent_locked == !self.tangent_locked,
            self.spec_toggle_tangent(field).pos == self.pos,
            self.mirrored() ==> self.spec_toggle_tangent(field).tangent_in == self.tangent_in
                && self.spec_toggle_tangent(field).tangent_out == self.tangent_out,
    {
    }

    /// A key at `pos` with short horizontal tangents, locked.
    pub fn new(pos: Vec2) -> (k: AnimationKey)
        ensures
            k == Self::spec_new(pos),
            k.tangent_locked && k.mirrored(),
            pos.in_range() ==> k.wf(),
    {
        AnimationKey {
            pos,
            tangent_in: Vec2 { x: -TANGENT_LENGTH, y: 0 },
            tangent_out: Vec2 { x: TANGENT_LENGTH, y: 0 },
            tangent_locked: true,
        }
    }

    /// Whether all stored coordinates are inside the representable range.
    pub fn is_in_range(&self) -> (r: bool)
        ensures
            r == self.in_range(),
    {
        coord_ok(self.pos.x) && coord_ok(self.pos.y) && coord_ok(self.tangent_in.x) && coord_ok(
            self.tangent_in.y,
        ) && coord_ok(self.tangent_out.x) && coord_ok(self.tangent_out.y)
    }

    /// The end point of the incoming tangent.
    pub fn tangent_in_screen(&self) -> (r: Vec2)
        requires
            self.in_range(),
        ensures
            r == self.handle_point(AnimationKeyPointField::TanIn),
    {
        Vec2 { x: self.pos.x + self.tangent_in.x, y: self.pos.y + self.tangent_in.y }
    }

    /// The end point of the outgoing tangent.
    pub fn tangent_out_screen(&self) -> (r: Vec2)
        requires
            self.in_range(),
        ensures
            r == self.handle_point(AnimationKeyPointField::TanOut),
    {
        Vec2 { x: self.pos.x + self.tangent_out.x, y: self.pos.y + self.tangent_out.y }
    }

    /// Moves the handle `key_field` by `delta`, saturating at the coordinate
    /// range. With locked tangents, moving one tangent sets the other to its
    /// opposite.
    pub fn translate(&mut self, key_field: &AnimationKeyPointField, delta: Vec2)
        ensures
            *final(self) == old(self).spec_translate(*key_field, delta),
            final(self).tangent_locked == old(self).tangent_locked,
            old(self).in_range() ==> final(self).in_range(),
            final(self).tangent_locked && (key_field.is_tangent() || old(self).mirrored())
                ==> final(self).mirrored(),
    {
        match key_field {
            AnimationKeyPointField::Pos => {
                self.pos = self.pos.plus(delta);
            },
            AnimationKeyPointField::TanIn => {
                self.tangent_in = self.tangent_in.plus(delta);
                if self.tangent_locked {
                    self.tangent_out = self.tangent_in.negated();
                }
            },
            AnimationKeyPointField::TanOut => {
                self.tangent_out = self.tangent_out.plus(delta);
                if self.tangent_locked {
                    self.tangent_in = self.tangent_out.negated();
                }
            },
        }
    }

    /// Flips the tangent lock. Switching it on keeps the handle named by
    /// `key_field` and sets the other one to its opposite.
    pub fn toggle_tangent(&mut self, key_field: AnimationKeyPointField)
        requires
            old(self).in_range(),
        ensures
            *final(self) == old(self).spec_toggle_tangent(key_field),
            final(self).tangent_locked == !old(self).tangent_locked,
            final(self).pos == old(self).pos,
            final(self).wf(),
            old(self).mirrored() ==> final(self).tangent_in == old(self).tangent_in
                && final(self).tangent_out == old(self).tangent_out,
    {
        if !self.tangent_locked {
            match key_field {
                AnimationKeyPointField::TanOut => {
                    self.tangent_in = self.tangent_out.negated();
                },
                _ => {
                    self.tangent_out = self.tangent_in.negated();
                },
            }
        }
        self.tangent_locked = !self.tangent_locked;
    }

    /// The handle of this key that a pointer at `ptr_coord` picks: the
    /// nearest one inside the click radius, the position before the
    /// incoming and the incoming before the outgoing tangent at equal
    /// distance. A tangent that is not allowed is never picked.
    pub fn hit_test(&self, ptr_coord: Vec2, allow_in: bool, allow_out: bool) -> (r: Option<
        AnimationKeyPointField,
    >)
        ensures
            r == self.spec_hit(ptr_coord, allow_in, allow_out),
            r matches Some(f) ==> self.is_nearest_hit(f, ptr_coord, allow_in, allow_out),
            r is None ==> forall|g: AnimationKeyPointField|
                !#[trigger] self.field_hit(g, ptr_coord, allow_in, allow_out),
    {
        let limit: i128 = (CIRCLE_CLICK_RADIUS as i128) * (CIRCLE_CLICK_RADIUS as i128);
        let mut nearest_dist: i128 = limit;
        let mut nearest: Option<AnimationKeyPointField> = None;

        let d_pos = handle_dist_sq(self.pos, Vec2 { x: 0, y: 0 }, ptr_coord);
        if d_pos < nearest_dist {
            nearest_dist = d_pos;
            nearest = Some(AnimationKeyPointField::Pos);
        }
        if allow_in {
            let d_in = handle_dist_sq(self.pos, self.tangent_in, ptr_coord);
            if d_in < nearest_dist {
                nearest_dist = d_in;
                nearest = Some(AnimationKeyPointField::TanIn);
            }
        }
        if allow_out {
            let d_out = handle_dist_sq(self.pos, self.tangent_out, ptr_coord);
            if d_out < nearest_dist {
                nearest = Some(AnimationKeyPointField::TanOut);
            }
        }
        proof {
            self.lemma_hit_is_nearest(ptr_coord, allow_in, allow_out);
        }
        nearest
    }

    /// Hit test with all three handles interactive.
    pub fn intersects(&self, ptr_coord: Vec2) -> (r: Option<AnimationKeyPointField>)
        ensures
            r == self.spec_hit(ptr_coord, true, true),
    {
        self.hit_test(ptr_coord, true, true)
    }
}

} // verus!
