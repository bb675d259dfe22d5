//! The frame store: the ordered sequence of animation frames together with
//! the two playback parameters, padding and speed.
//!
//! `padding` counts the always-off filler columns appended after each frame
//! when the frames are laid out side by side in the encoded bitstring.
//! `speed` is a playback speed hint; the editor's input validation keeps it
//! in `[1, 7]`, but the store itself does not enforce a range, so a decoded
//! configuration is stored as found.
//!
//! Every mutation that addresses a frame or a cell out of range is a no-op,
//! so the operations can be driven directly by unchecked user input.

use vstd::prelude::*;

use crate::frame::Frame;
use crate::frame::blank_grid;
use crate::frame::cell_index;
use crate::frame::invert_grid;

verus! {

/// The models of a sequence of frames, in order.
pub open spec fn views_of(frames: Seq<Frame>) -> Seq<Seq<bool>> {
    frames.map_values(|f: Frame| f@)
}

/// An animation: an ordered sequence of frames plus playback parameters.
pub struct FrameStore {
    pub frames: Vec<Frame>,
    pub padding: u8,
    pub speed: u8,
}

impl FrameStore {
    /// Every frame of the store is a well-formed 44 x 11 grid.
    pub open spec fn wf(&self) -> bool {
        forall|i: int| 0 <= i < self.frames@.len() ==> (#[trigger] self.frames@[i]).wf()
    }

    /// The models of the store's frames, in order.
    pub open spec fn frames_view(&self) -> Seq<Seq<bool>> {
        views_of(self.frames@)
    }

    /// The store a session starts from: one blank frame, padding 0, speed 5.
    pub fn new_session() -> (s: FrameStore)
        ensures
            s.wf(),
            s.frames_view() == seq![blank_grid()],
            s.padding == 0u8,
            s.speed == 5u8,
    {
        let mut frames: Vec<Frame> = Vec::new();
        frames.push(Frame::blank());
        let s = FrameStore { frames, padding: 0, speed: 5 };
        assert(s.frames_view() =~= seq![blank_grid()]);
        s
    }

    /// Applies a speed typed into the editor: a value in `[1, 7]` is
    /// accepted, any other value leaves the stored speed unchanged.
    pub fn set_speed_input(&mut self, value: u8)
        requires
            old(self).wf(),
        ensures
            final(self).wf(),
            final(self).frames_view() == old(self).frames_view(),
            final(self).padding == old(self).padding,
            final(self).speed == if 1 <= value <= 7 {
                value
            } else {
                old(self).speed
            },
    {
        if value >= 1 && value <= 7 {
            self.speed = value;
        }
    }

    /// Sets one cell; a no-op if the frame index or the cell coordinates are
    /// out of range.
    pub fn set_cell(&mut self, frame_index: usize, x: usize, y: usize, value: bool)
        requires
            old(self).wf(),
        ensures
            final(self).wf(),
            final(self).padding == old(self).padding,
            final(self).speed == old(self).speed,
            if frame_index < old(self).frames@.len() && x < 44 && y < 11 {
                final(self).frames_view() == old(self).frames_view().update(
                    frame_index as int,
                    old(self).frames_view()[frame_index as int].update(
                        cell_index(x as int, y as int),
                        value,
                    ),
                )
            } else {
                final(self).frames_view() == old(self).frames_view()
            },
    {
        if frame_index < self.frames.len() && x < 44 && y < 11 {
            let f = &mut self.frames[frame_index];
            f.set(x, y, value);
            assert(self.frames_view() =~= old(self).frames_view().update(
                frame_index as int,
                old(self).frames_view()[frame_index as int].update(
                    cell_index(x as int, y as int),
                    value,
                ),
            ));
        } else {
            assert(self.frames_view() =~= old(self).frames_view());
        }
    }

    /// Reads one cell; `false` if the frame index or the coordinates are out
    /// of range.
    pub fn get_cell(&self, frame_index: usize, x: usize, y: usize) -> (b: bool)
        requires
            self.wf(),
        ensures
            b == if frame_index < self.frames@.len() && x < 44 && y < 11 {
                self.frames_view()[frame_index as int][cell_index(x as int, y as int)]
            } else {
                false
            },
    {
        if frame_index < self.frames.len() && x < 44 && y < 11 {
            self.frames[frame_index].get(x, y)
        } else {
            false
        }
    }

    /// Flips one cell; a no-op if the frame index or the coordinates are out
    /// of range.
    pub fn toggle_cell(&mut self, frame_index: usize, x: usize, y: usize)
        requires
            old(self).wf(),
        ensures
            final(self).wf(),
            final(self).padding == old(self).padding,
            final(self).speed == old(self).speed,
            if frame_index < old(self).frames@.len() && x < 44 && y < 11 {
                final(self).frames_view() == old(self).frames_view().update(
                    frame_index as int,
                    old(self).frames_view()[frame_index as int].update(
                        cell_index(x as int, y as int),
                        !old(self).frames_view()[frame_index as int][cell_index(
                            x as int,
                            y as int,
                        )],
                    ),
                )
            } else {
                final(self).frames_view() == old(self).frames_view()
            },
    {
        let current = self.get_cell(frame_index, x, y);
        if frame_index < self.frames.len() && x < 44 && y < 11 {
            self.set_cell(frame_index, x, y, !current);
        }
    }

    /// Flips every cell of one frame; a no-op if the frame index is out of
    /// range.
    pub fn invert_frame(&mut self, frame_index: usize)
        requires
            old(self).wf(),
        ensures
            final(self).wf(),
            final(self).padding == old(self).padding,
            final(self).speed == old(self).speed,
            if frame_index < old(self).frames@.len() {
                final(self).frames_view() == old(self).frames_view().update(
                    frame_index as int,
                    invert_grid(old(self).frames_view()[frame_index as int]),
                )
            } else {
                final(self).frames_view() == old(self).frames_view()
            },
    {
        if frame_index < self.frames.len() {
            let f = &mut self.frames[frame_index];
            f.invert();
            assert(self.frames_view() =~= old(self).frames_view().update(
                frame_index as int,
                invert_grid(old(self).frames_view()[frame_index as int]),
            ));
        } else {
            assert(self.frames_view() =~= old(self).frames_view());
        }
    }

    /// Turns every cell of one frame off; a no-op if the frame index is out
    /// of range.
    pub fn clear_frame(&mut self, frame_index: usize)
        requires
            old(self).wf(),
        ensures
            final(self).wf(),
            final(self).padding == old(self).padding,
            final(self).speed == old(self).speed,
            if frame_index < old(self).frames@.len() {
                final(self).frames_view() == old(self).frames_view().update(
                    frame_index as int,
                    blank_grid(),
                )
            } else {
                final(self).frames_view() == old(self).frames_view()
            },
    {
        if frame_index < self.frames.len() {
            let f = &mut self.frames[frame_index];
            f.clear();
            assert(self.frames_view() =~= old(self).frames_view().update(
                frame_index as int,
                blank_grid(),
            ));
        } else {
            assert(self.frames_view() =~= old(self).frames_view());
        }
    }

    /// Appends a new frame: a copy of the current last frame, so that a
    /// running animation is easy to extend, or a blank frame if the store is
    /// empty.
    pub fn add_frame(&mut self)
        requires
            old(self).wf(),
        ensures
            final(self).wf(),
            final(self).padding == old(self).padding,
            final(self).speed == old(self).speed,
            final(self).frames_view() == old(self).frames_view().push(
                if old(self).frames@.len() > 0 {
                    old(self).frames_view().last()
                } else {
                    blank_grid()
                },
            ),
    {
        let n = self.frames.len();
        let f = if n > 0 {
            self.frames[n - 1].clone()
        } else {
            Frame::blank()
        };
        self.frames.push(f);
        assert(self.frames_view() =~= old(self).frames_view().push(
            if old(self).frames@.len() > 0 {
                old(self).frames_view().last()
            } else {
                blank_grid()
            },
        ));
    }

    /// Removes one frame; a no-op if the frame index is out of range. The
    /// store may become empty; the caller decides whether to reseed it.
    pub fn remove_frame(&mut self, frame_index: usize)
        requires
            old(self).wf(),
        ensures
            final(self).wf(),
            final(self).padding == old(self).padding,
            final(self).speed == old(self).speed,
            if frame_index < old(self).frames@.len() {
                final(self).frames_view() == old(self).frames_view().remove(frame_index as int)
            } else {
                final(self).frames_view() == old(self).frames_view()
            },
    {
        if frame_index < self.frames.len() {
            self.frames.remove(frame_index);
            assert(self.frames_view() =~= old(self).frames_view().remove(frame_index as int));
        } else {
            assert(self.frames_view() =~= old(self).frames_view());
        }
    }

    /// Inserts a duplicate of one frame immediately after it; a no-op if the
    /// frame index is out of range.
    pub fn clone_frame(&mut self, frame_index: usize)
        requires
            old(self).wf(),
        ensures
            final(self).wf(),
            final(self).padding == old(self).padding,
            final(self).speed == old(self).speed,
            if frame_index < old(self).frames@.len() {
                final(self).frames_view() == old(self).frames_view().insert(
                    frame_index + 1,
                    old(self).frames_view()[frame_index as int],
                )
            } else {
                final(self).frames_view() == old(self).frames_view()
            },
    {
        if frame_index < self.frames.len() {
            let f = self.frames[frame_index].clone();
            self.frames.insert(frame_index + 1, f);
            assert(self.frames_view() =~= old(self).frames_view().insert(
                frame_index + 1,
                old(self).frames_view()[frame_index as int],
            ));
        } else {
            assert(self.frames_view() =~= old(self).frames_view());
        }
    }

    /// Appends the whole current frame sequence in reverse order, turning
    /// the animation into a ping-pong loop.
    pub fn make_cycle(&mut self)
        requires
            old(self).wf(),
        ensures
            final(self).wf(),
            final(self).padding == old(self).padding,
            final(self).speed == old(self).speed,
            final(self).frames_view() == old(self).frames_view()
                + old(self).frames_view().reverse(),
    {
        let n = self.frames.len();
        let mut k: usize = 0;
        while k < n
            invariant
                old(self).wf(),
                self.wf(),
                k <= n,
                n == old(self).frames@.len(),
                self.padding == old(self).padding,
                self.speed == old(self).speed,
                self.frames@.len() == n + k,
                forall|i: int| 0 <= i < n ==> self.frames@[i] == old(self).frames@[i],
                forall|j: int| 0 <= j < k ==> #[trigger] self.frames@[n + j]@ == old(
                    self,
                ).frames_view()[n - 1 - j],
            decreases n - k,
        {
            let f = self.frames[n - 1 - k].clone();
            self.frames.push(f);
            k = k + 1;
        }
        proof {
            let before = old(self).frames_view();
            let after = self.frames_view();
            assert forall|i: int| 0 <= i < after.len() implies after[i] == (before
                + before.reverse())[i] by {
                assert(after[i] == self.frames@[i]@);
                if i < n {
                    assert(self.frames@[i] == old(self).frames@[i]);
                } else {
                    let j = i - n;
                    assert(self.frames@[n + j]@ == before[n - 1 - j]);
                    assert(before.reverse()[i - n] == before[n - 1 - (i - n)]);
                }
            }
            assert(after =~= before + before.reverse());
        }
    }
}

} // verus!
