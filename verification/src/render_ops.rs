use vstd::prelude::*;

verus! {

/// Which kind of input mode the window is in, as far as overlays care.
#[derive(Clone, Copy, Debug, PartialEq, Eq, Structural)]
pub enum ModeKind {
    /// Any mode without an overlay of its own.
    Plain,
    CommandPalette,
    QuitSave,
    Screenshot,
    ScreenshotName,
}

/// Something drawn over the panes.
#[derive(Clone, Copy, Debug, PartialEq, Eq, Structural)]
pub enum Overlay {
    ConfigPanel,
    CommandPalette,
    QuitConfirm,
    SaveSessionConfirm,
    ScreenshotSelector,
    ScreenshotNameInput,
}

/// The overlays to draw, bottom first: the configuration panel when open,
/// the command palette in its mode, the quit confirmation when a quit is
/// pending, then the overlay of the save-session, screenshot and
/// screenshot-name modes.
pub open spec fn overlay_stack(config_panel_open: bool, mode: ModeKind, quit_pending: bool) -> Seq<
    Overlay,
> {
    (if config_panel_open {
        seq![Overlay::ConfigPanel]
    } else {
        Seq::empty()
    }) + (if mode == ModeKind::CommandPalette {
        seq![Overlay::CommandPalette]
    } else {
        Seq::empty()
    }) + (if quit_pending {
        seq![Overlay::QuitConfirm]
    } else {
        Seq::empty()
    }) + (if mode == ModeKind::QuitSave {
        seq![Overlay::SaveSessionConfirm]
    } else {
        Seq::empty()
    }) + (if mode == ModeKind::Screenshot {
        seq![Overlay::ScreenshotSelector]
    } else {
        Seq::empty()
    }) + (if mode == ModeKind::ScreenshotName {
        seq![Overlay::ScreenshotNameInput]
    } else {
        Seq::empty()
    })
}

/// Decides which overlays a frame draws over the panes, and in which order.
pub fn draw_overlays(config_panel_open: bool, mode: ModeKind, quit_pending: bool) -> (overlays: Vec<
    Overlay,
>)
    ensures
        overlays@ == overlay_stack(config_panel_open, mode, quit_pending),
{
    let mut overlays: Vec<Overlay> = Vec::new();
    if config_panel_open {
        overlays.push(Overlay::ConfigPanel);
    }
    if mode == ModeKind::CommandPalette {
        overlays.push(Overlay::CommandPalette);
    }
    if quit_pending {
        overlays.push(Overlay::QuitConfirm);
    }
    if mode == ModeKind::QuitSave {
        overlays.push(Overlay::SaveSessionConfirm);
    }
    if mode == ModeKind::Screenshot {
        overlays.push(Overlay::ScreenshotSelector);
    }
    if mode == ModeKind::ScreenshotName {
        overlays.push(Overlay::ScreenshotNameInput);
    }
    assert(overlays@ =~= overlay_stack(config_panel_open, mode, quit_pending));
    overlays
}

/// The cursor blink step of a redraw: once `blink_ms` milliseconds have
/// passed since the last toggle, the cursor toggles and the timer restarts.
/// Returns whether to restart the timer and the new blink state.
pub fn cursor_blink_step(elapsed_ms: u64, blink_ms: u32, blink_on: bool) -> (r: (bool, bool))
    ensures
        r == (if elapsed_ms >= blink_ms { (true, !blink_on) } else { (false, blink_on) }),
{
    if elapsed_ms >= blink_ms as u64 {
        (true, !blink_on)
    } else {
        (false, blink_on)
    }
}

} // verus!
