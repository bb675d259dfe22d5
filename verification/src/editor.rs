//! The editing state machine: pointer and keyboard events translated into
//! frame-store mutations, plus the transient focus, drag and readiness state
//! of one editing session.
//!
//! The machine has two states: idle and dragging. A pointer press on a cell
//! focuses it, starts a drag, and paints the cell with the opposite of its
//! current value; entering further cells while the drag is active paints
//! them with the same value; releasing the pointer ends the drag wherever it
//! happens. Arrow keys move the focus one cell, clamped at the grid edges;
//! space toggles the focused cell. The `ready` flag suppresses persisting a
//! configuration before the initial load attempt has finished; the session
//! host sets it exactly once, whether or not that attempt found data.

use vstd::prelude::*;

use crate::codec::create_config;
use crate::codec::decode_spec;
use crate::codec::encode_spec;
use crate::codec::load_config;
use crate::frame::cell_index;
use crate::store::FrameStore;

verus! {

/// A focus-movement key.
pub enum ArrowKey {
    Up,
    Down,
    Left,
    Right,
}

/// The transient, session-scoped state of the editor.
#[derive(Clone, Copy)]
pub struct EditSession {
    /// Index of the keyboard-focused frame; may point past the end of the
    /// store after frames are removed, in which case space presses are
    /// no-ops.
    pub focused_frame: usize,
    /// Column of the keyboard-focused cell, in `[0, 43]`.
    pub focused_x: usize,
    /// Row of the keyboard-focused cell, in `[0, 10]`.
    pub focused_y: usize,
    /// A pointer button is held over the editing surface.
    pub drag_active: bool,
    /// The value painted onto cells visited during the current drag.
    pub paint_value: bool,
    /// The initial load attempt has finished; persisting is allowed.
    pub ready: bool,
}

impl EditSession {
    /// The focused cell lies within the fixed grid bounds.
    pub open spec fn wf(&self) -> bool {
        self.focused_x < 44 && self.focused_y < 11
    }

    /// A fresh session: focus on the first cell of the first frame, no drag
    /// in progress, not yet ready to persist.
    pub fn new() -> (s: EditSession)
        ensures
            s.wf(),
            s.focused_frame == 0,
            s.focused_x == 0,
            s.focused_y == 0,
            !s.drag_active,
            !s.paint_value,
            !s.ready,
    {
        EditSession {
            focused_frame: 0,
            focused_x: 0,
            focused_y: 0,
            drag_active: false,
            paint_value: false,
            ready: false,
        }
    }

    /// Marks the initial load attempt as finished, allowing persists.
    pub fn mark_loaded(&mut self)
        ensures
            *final(self) == (EditSession { ready: true, ..*old(self) }),
    {
        self.ready = true;
    }

    /// A pointer press on the cell `(frame_index, x, y)`: focuses that cell,
    /// starts a drag whose paint value is the opposite of the cell's current
    /// value, and paints the cell with it.
    pub fn pointer_down(&mut self, store: &mut FrameStore, frame_index: usize, x: usize, y: usize)
        requires
            old(store).wf(),
            frame_index < old(store).frames@.len(),
            x < 44,
            y < 11,
        ensures
            final(self).wf(),
            final(self).focused_frame == frame_index,
            final(self).focused_x == x,
            final(self).focused_y == y,
            final(self).drag_active,
            final(self).paint_value == !old(store).frames_view()[frame_index as int][cell_index(
                x as int,
                y as int,
            )],
            final(self).ready == old(self).ready,
            final(store).wf(),
            final(store).padding == old(store).padding,
            final(store).speed == old(store).speed,
            final(store).frames_view() == old(store).frames_view().update(
                frame_index as int,
                old(store).frames_view()[frame_index as int].update(
                    cell_index(x as int, y as int),
                    final(self).paint_value,
                ),
            ),
    {
        let current = store.get_cell(frame_index, x, y);
        self.focused_frame = frame_index;
        self.focused_x = x;
        self.focused_y = y;
        self.paint_value = !current;
        self.drag_active = true;
        store.set_cell(frame_index, x, y, self.paint_value);
    }

    /// The pointer enters the cell `(frame_index, x, y)`: paints it with the
    /// drag's paint value if a drag is active, and does nothing otherwise.
    /// The paint value travels with the drag, so a drag that crosses into
    /// another frame keeps painting the same value.
    pub fn pointer_enter(&self, store: &mut FrameStore, frame_index: usize, x: usize, y: usize)
        requires
            old(store).wf(),
            frame_index < old(store).frames@.len(),
            x < 44,
            y < 11,
        ensures
            final(store).wf(),
            final(store).padding == old(store).padding,
            final(store).speed == old(store).speed,
            final(store).frames_view() == if self.drag_active {
                old(store).frames_view().update(
                    frame_index as int,
                    old(store).frames_view()[frame_index as int].update(
                        cell_index(x as int, y as int),
                        self.paint_value,
                    ),
                )
            } else {
                old(store).frames_view()
            },
    {
        if self.drag_active {
            store.set_cell(frame_index, x, y, self.paint_value);
        }
    }

    /// A pointer release, wherever it happens: ends the drag.
    pub fn pointer_up(&mut self)
        ensures
            *final(self) == (EditSession { drag_active: false, ..*old(self) }),
    {
        self.drag_active = false;
    }

    /// An arrow key: moves the focus one cell, clamped at the grid edges —
    /// a press against an edge leaves the focus unchanged. The focused frame
    /// and the drag state are untouched.
    pub fn arrow_key(&mut self, key: ArrowKey)
        requires
            old(self).wf(),
        ensures
            final(self).wf(),
            final(self).focused_frame == old(self).focused_frame,
            final(self).drag_active == old(self).drag_active,
            final(self).paint_value == old(self).paint_value,
            final(self).ready == old(self).ready,
            key == ArrowKey::Up ==> final(self).focused_x == old(self).focused_x
                && final(self).focused_y == (if old(self).focused_y == 0 {
                0int
            } else {
                old(self).focused_y - 1
            }),
            key == ArrowKey::Down ==> final(self).focused_x == old(self).focused_x
                && final(self).focused_y == (if old(self).focused_y == 10 {
                10int
            } else {
                old(self).focused_y + 1
            }),
            key == ArrowKey::Left ==> final(self).focused_y == old(self).focused_y
                && final(self).focused_x == (if old(self).focused_x == 0 {
                0int
            } else {
                old(self).focused_x - 1
            }),
            key == ArrowKey::Right ==> final(self).focused_y == old(self).focused_y
                && final(self).focused_x == (if old(self).focused_x == 43 {
                43int
            } else {
                old(self).focused_x + 1
            }),
    {
        match key {
            ArrowKey::Up => {
                if self.focused_y > 0 {
                    self.focused_y = self.focused_y - 1;
                }
            },
            ArrowKey::Down => {
                if self.focused_y < 10 {
                    self.focused_y = self.focused_y + 1;
                }
            },
            ArrowKey::Left => {
                if self.focused_x > 0 {
                    self.focused_x = self.focused_x - 1;
                }
            },
            ArrowKey::Right => {
                if self.focused_x < 43 {
                    self.focused_x = self.focused_x + 1;
                }
            },
        }
    }

    /// The space key: toggles the focused cell of the focused frame; a no-op
    /// if the focused frame no longer exists. Focus and drag state are
    /// untouched.
    pub fn space_key(&self, store: &mut FrameStore)
        requires
            old(store).wf(),
            self.wf(),
        ensures
            final(store).wf(),
            final(store).padding == old(store).padding,
            final(store).speed == old(store).speed,
            final(store).frames_view() == if self.focused_frame < old(store).frames@.len() {
                old(store).frames_view().update(
                    self.focused_frame as int,
                    old(store).frames_view()[self.focused_frame as int].update(
                        cell_index(self.focused_x as int, self.focused_y as int),
                        !old(store).frames_view()[self.focused_frame as int][cell_index(
                            self.focused_x as int,
                            self.focused_y as int,
                        )],
                    ),
                )
            } else {
                old(store).frames_view()
            },
    {
        store.toggle_cell(self.focused_frame, self.focused_x, self.focused_y);
    }

    /// The configuration to persist after a change: the encoded store, or
    /// nothing while the initial load attempt has not finished, so that no
    /// spurious early persist can overwrite saved data.
    pub fn config_to_save(&self, store: &FrameStore) -> (r: Option<String>)
        requires
            store.wf(),
        ensures
            (r is Some) == self.ready,
            r is Some ==> r->0@ == encode_spec(store.frames_view(), store.padding, store.speed),
    {
        if self.ready {
            Some(create_config(&store.frames, store.padding, store.speed))
        } else {
            None
        }
    }
}

/// Replaces the store's whole state with a decoded configuration — frames,
/// padding and speed together — if the configuration yields any frames, and
/// keeps the current state otherwise. This is the load path for both the
/// persisted configuration at session start and an imported file.
pub fn apply_loaded_config(store: &mut FrameStore, config: &str, fallback_padding: u8)
    requires
        old(store).wf(),
    ensures
        final(store).wf(),
        decode_spec(config@, fallback_padding).frames.len() > 0 ==> final(store).frames_view()
            == decode_spec(config@, fallback_padding).frames && final(store).padding == decode_spec(
            config@,
            fallback_padding,
        ).padding && final(store).speed == decode_spec(config@, fallback_padding).speed,
        decode_spec(config@, fallback_padding).frames.len() == 0 ==> *final(store) == *old(store),
{
    let (frames, padding, speed) = load_config(config, fallback_padding);
    if frames.len() > 0 {
        store.frames = frames;
        store.padding = padding;
        store.speed = speed;
    }
}

} // verus!
