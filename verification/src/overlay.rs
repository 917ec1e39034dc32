use vstd::prelude::*;

verus! {

/// Settings of the debug overlay.
#[derive(Clone, Copy, Debug, PartialEq, Eq, Structural)]
pub struct DebugOverlayPlugin {
    /// Whether the overlay is shown from the start.
    pub enabled: bool,
    /// Whether the built-in records (version, frame rate) are left out.
    pub supress_default: bool,
}

impl DebugOverlayPlugin {
    /// An overlay shown from the start, with the built-in records.
    pub fn enabled() -> (p: Self)
        ensures
            p.enabled,
            !p.supress_default,
    {
        DebugOverlayPlugin { enabled: true, supress_default: false }
    }

    /// The same settings without the built-in records.
    pub fn supress_default(self) -> (p: Self)
        ensures
            p.enabled == self.enabled,
            p.supress_default,
    {
        let mut s = self;
        s.supress_default = true;
        s
    }
}

impl Default for DebugOverlayPlugin {
    /// A hidden overlay with the built-in records.
    fn default() -> (p: Self)
        ensures
            !p.enabled,
            !p.supress_default,
    {
        DebugOverlayPlugin { enabled: false, supress_default: false }
    }
}

/// Where on the screen a group of records is placed.
#[derive(Clone, Copy, Debug, PartialEq, Eq, Hash, Structural)]
pub enum OverlayAnchor {
    TopLeft,
    TopRight,
    BottomLeft,
    BottomRight,
    Center,
    TopCenter,
    BottomCenter,
    LeftCenter,
    RightCenter,
    /// Follows the world entity with these identifier bits.
    Dynamic(u64),
    /// Fills the entire screen.
    Fill,
}

/// Placement of a group's content along its main axis.
#[derive(Clone, Copy, Debug, PartialEq, Eq, Structural)]
pub enum JustifyContent {
    Start,
    Center,
    End,
}

/// Direction in which a group stacks its records.
#[derive(Clone, Copy, Debug, PartialEq, Eq, Structural)]
pub enum FlexDirection {
    Column,
    ColumnReverse,
}

/// Placement of records across the group.
#[derive(Clone, Copy, Debug, PartialEq, Eq, Structural)]
pub enum AlignItems {
    Start,
    Center,
    End,
}

/// Placement of the group itself across its parent.
#[derive(Clone, Copy, Debug, PartialEq, Eq, Structural)]
pub enum AlignSelf {
    Start,
    Center,
    End,
}

/// Anchors along the bottom edge.
pub open spec fn bottom(a: OverlayAnchor) -> bool {
    a == OverlayAnchor::BottomLeft || a == OverlayAnchor::BottomRight || a == OverlayAnchor::BottomCenter
}

/// Anchors along the top edge.
pub open spec fn top(a: OverlayAnchor) -> bool {
    a == OverlayAnchor::TopLeft || a == OverlayAnchor::TopRight || a == OverlayAnchor::TopCenter
}

/// Anchors along the left edge.
pub open spec fn left(a: OverlayAnchor) -> bool {
    a == OverlayAnchor::TopLeft || a == OverlayAnchor::BottomLeft || a == OverlayAnchor::LeftCenter
}

/// Anchors along the right edge.
pub open spec fn right(a: OverlayAnchor) -> bool {
    a == OverlayAnchor::TopRight || a == OverlayAnchor::BottomRight || a == OverlayAnchor::RightCenter
}

/// Anchors centred horizontally.
pub open spec fn center_horizontal(a: OverlayAnchor) -> bool {
    a == OverlayAnchor::Center || a == OverlayAnchor::TopCenter || a == OverlayAnchor::BottomCenter
}

/// Anchors centred vertically.
pub open spec fn center_vertical(a: OverlayAnchor) -> bool {
    a == OverlayAnchor::Center || a == OverlayAnchor::LeftCenter || a == OverlayAnchor::RightCenter
}

impl OverlayAnchor {
    /// See `bottom`.
    pub fn is_bottom(&self) -> (b: bool)
        ensures
            b == bottom(*self),
    {
        matches!(self, OverlayAnchor::BottomLeft | OverlayAnchor::BottomRight | OverlayAnchor::BottomCenter)
    }

    /// See `right`.
    pub fn is_right(&self) -> (b: bool)
        ensures
            b == right(*self),
    {
        matches!(self, OverlayAnchor::TopRight | OverlayAnchor::BottomRight | OverlayAnchor::RightCenter)
    }

    /// See `left`.
    pub fn is_left(&self) -> (b: bool)
        ensures
            b == left(*self),
    {
        matches!(self, OverlayAnchor::TopLeft | OverlayAnchor::BottomLeft | OverlayAnchor::LeftCenter)
    }

    /// See `top`.
    pub fn is_top(&self) -> (b: bool)
        ensures
            b == top(*self),
    {
        matches!(self, OverlayAnchor::TopLeft | OverlayAnchor::TopRight | OverlayAnchor::TopCenter)
    }

    /// See `center_horizontal`.
    pub fn is_center_horizontal(&self) -> (b: bool)
        ensures
            b == center_horizontal(*self),
    {
        matches!(self, OverlayAnchor::Center | OverlayAnchor::TopCenter | OverlayAnchor::BottomCenter)
    }

    /// See `center_vertical`.
    pub fn is_center_vertical(&self) -> (b: bool)
        ensures
            b == center_vertical(*self),
    {
        matches!(self, OverlayAnchor::Center | OverlayAnchor::LeftCenter | OverlayAnchor::RightCenter)
    }

    /// Bottom anchors push their records to the end, vertically centred ones
    /// to the middle, the others to the start.
    pub fn justify_content(&self) -> (j: JustifyContent)
        ensures
            j == (if bottom(*self) {
                JustifyContent::End
            } else if center_vertical(*self) {
                JustifyContent::Center
            } else {
                JustifyContent::Start
            }),
    {
        if self.is_bottom() {
            JustifyContent::End
        } else if self.is_center_vertical() {
            JustifyContent::Center
        } else {
            JustifyContent::Start
        }
    }

    /// Bottom anchors stack their records upwards.
    pub fn flex_direction(&self) -> (d: FlexDirection)
        ensures
            d == (if bottom(*self) { FlexDirection::ColumnReverse } else { FlexDirection::Column }),
    {
        if self.is_bottom() {
            FlexDirection::ColumnReverse
        } else {
            FlexDirection::Column
        }
    }

    /// Right anchors align records to the end, horizontally centred ones to
    /// the middle, the others to the start.
    pub fn align_items(&self) -> (a: AlignItems)
        ensures
            a == (if right(*self) {
                AlignItems::End
            } else if center_horizontal(*self) {
                AlignItems::Center
            } else {
                AlignItems::Start
            }),
    {
        if self.is_right() {
            AlignItems::End
        } else if self.is_center_horizontal() {
            AlignItems::Center
        } else {
            AlignItems::Start
        }
    }

    /// The group sits at the end for bottom anchors, in the middle for
    /// vertically centred ones, at the start otherwise.
    pub fn align_self(&self) -> (a: AlignSelf)
        ensures
            a == (if bottom(*self) {
                AlignSelf::End
            } else if center_vertical(*self) {
                AlignSelf::Center
            } else {
                AlignSelf::Start
            }),
    {
        if self.is_bottom() {
            AlignSelf::End
        } else if self.is_center_vertical() {
            AlignSelf::Center
        } else {
            AlignSelf::Start
        }
    }
}

/// The nine screen anchors form a 3 by 3 grid: each is exactly one of top,
/// vertical centre or bottom, and exactly one of left, horizontal centre or
/// right; the entity-following and full-screen anchors are none of these.
pub proof fn lemma_anchor_grid(a: OverlayAnchor)
    ensures
        (a is Dynamic || a is Fill) ==> !top(a) && !bottom(a) && !center_vertical(a) && !left(a)
            && !right(a) && !center_horizontal(a),
        !(a is Dynamic || a is Fill) ==> ((top(a) as int) + (center_vertical(a) as int) + (bottom(
            a,
        ) as int) == 1 && (left(a) as int) + (center_horizontal(a) as int) + (right(a) as int)
            == 1),
{
}

/// How the text spans of a shown record are brought in line with new text:
/// the first `kept` spans are rewritten, `despawned` spans are removed and
/// `spawned` new spans are added.
#[derive(Clone, Copy, Debug, PartialEq, Eq, Structural)]
pub struct SpanPlan {
    pub kept: usize,
    pub despawned: usize,
    pub spawned: usize,
}

/// The plan for a record that shows `existing` spans and is to show `wanted`.
pub fn span_plan(existing: usize, wanted: usize) -> (p: SpanPlan)
    ensures
        p.kept as int == if existing < wanted { existing as int } else { wanted as int },
        p.kept + p.despawned == existing,
        p.kept + p.spawned == wanted,
{
    let kept = if existing < wanted { existing } else { wanted };
    SpanPlan { kept, despawned: existing - kept, spawned: wanted - kept }
}

/// What the overlay keys do this frame: F3 (`toggle`) flips visibility; with
/// left Control and left Shift held, `=` and `-` change the font size by one
/// step each (`None` when the modifiers are not held).
pub fn overlay_keys(visible: bool, toggle: bool, ctrl: bool, shift: bool, plus: bool, minus: bool) -> (r: (
    bool,
    Option<i32>,
))
    ensures
        r.0 == (visible != toggle),
        r.1 == (if ctrl && shift {
            Some(((plus as int) - (minus as int)) as i32)
        } else {
            None::<i32>
        }),
{
    let v = if toggle { !visible } else { visible };
    if ctrl && shift {
        let d: i32 = (if plus { 1i32 } else { 0i32 }) - (if minus { 1i32 } else { 0i32 });
        (v, Some(d))
    } else {
        (v, None)
    }
}

} // verus!
