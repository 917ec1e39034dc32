use vstd::prelude::*;

verus! {

/// Settings of the physics debug renderer: whether it starts out drawn.
#[derive(Default)]
pub struct SwitchableRapierDebugPlugin(pub bool);

impl SwitchableRapierDebugPlugin {
    /// The debug renderer starts out drawn.
    pub fn enabled() -> (r: Self)
        ensures
            r.0,
    {
        Self(true)
    }

    /// The debug renderer starts out hidden.
    pub fn disabled() -> (r: Self)
        ensures
            !r.0,
    {
        Self(false)
    }
}

/// The debug renderer's state after one frame: pressing the toggle key flips it,
/// otherwise it stays as it was.
pub fn debug_render_after_frame(enabled: bool, toggle_pressed: bool) -> (r: bool)
    ensures
        r == (enabled != toggle_pressed),
{
    if toggle_pressed {
        !enabled
    } else {
        enabled
    }
}

} // verus!
