//! The image pipeline: protocol decoder, pending slot, display task and
//! screensaver, tied to the three-slot buffer pool.
//!
//! The pipeline is a state machine.  Its abstract state is
//! [`PipelineModel`]; every task step is specified as a function on that
//! model, and each executable method is proved to implement its model
//! function exactly.  The safety laws of the design (bounded buffer
//! accounting, sentinel resynchronization, swap only at frame
//! boundaries, one release per install) are proved about the model
//! functions in this module.
//!
//! Wire protocol: the byte `0xFF` resynchronizes the decoder; any other
//! byte is the next payload byte, and 192 consecutive payload bytes
//! complete one frame.

use vstd::prelude::*;

use crate::image::Color;
use crate::image::gradient_spec;
use crate::image::with_channel;
use crate::pool::POOL_SIZE;
use crate::pool::Pool;

verus! {

/// Payload bytes in one frame: 64 pixels of 3 channels.
pub const FRAME_BYTES: usize = 192;

/// Rows in one frame.
pub const ROWS: usize = 8;

/// Colors in the screensaver palette.
pub const PALETTE_SIZE: usize = 3;

/// The abstract state of the whole pipeline.
#[verifier::ext_equal]
pub struct PipelineModel {
    /// Pixel contents of the three pool slots.
    pub slots: Seq<Seq<Color>>,
    /// Which pool slots are free.
    pub free: Seq<bool>,
    /// Slot under assembly by the decoder.
    pub rx: int,
    /// Slot the display task is showing.
    pub current: int,
    /// Slot held in the pending hand-off cell, if any.
    pub pending: Option<int>,
    /// Write offset of the decoder into the receive buffer.
    pub next_pos: int,
    /// Next row the display task will emit.
    pub next_line: int,
    /// Frames completed so far (wrapping 32-bit counter).
    pub changes: int,
    /// Counter value the screensaver saw at its previous tick.
    pub last_changes: int,
    /// Next palette entry the screensaver will use.
    pub color_index: int,
}

/// The pipeline invariant: slot indices are in range and mutually
/// distinct, and a slot is free exactly when neither the decoder, the
/// display task nor the pending cell holds it.
pub open spec fn inv(m: PipelineModel) -> bool {
    &&& m.slots.len() == POOL_SIZE
    &&& m.free.len() == POOL_SIZE
    &&& (forall|i: int| 0 <= i < POOL_SIZE ==> (#[trigger] m.slots[i]).len() == 64)
    &&& 0 <= m.rx < POOL_SIZE
    &&& 0 <= m.current < POOL_SIZE
    &&& m.rx != m.current
    &&& (match m.pending {
        Some(p) => 0 <= p < POOL_SIZE && p != m.rx && p != m.current,
        None => true,
    })
    &&& (forall|i: int|
        0 <= i < POOL_SIZE ==> (#[trigger] m.free[i] <==> (i != m.rx && i != m.current
            && m.pending != Some(i))))
    &&& 0 <= m.next_pos < FRAME_BYTES
    &&& 0 <= m.next_line < ROWS
    &&& 0 <= m.changes < 0x1_0000_0000
    &&& 0 <= m.last_changes < 0x1_0000_0000
    &&& 0 <= m.color_index < PALETTE_SIZE
}

/// An all-black frame.
pub open spec fn black_frame() -> Seq<Color> {
    Seq::new(64, |i: int| Color { r: 0, g: 0, b: 0 })
}

/// The lowest-numbered free slot of a three-entry free bitmap.
pub open spec fn first_free_of(free: Seq<bool>) -> int {
    if free[0] {
        0
    } else if free[1] {
        1
    } else {
        2
    }
}

/// How many of the three slots are free.
pub open spec fn free_count_of(free: Seq<bool>) -> int {
    (if free[0] { 1int } else { 0int }) + (if free[1] { 1int } else { 0int }) + (if free[2] {
        1int
    } else {
        0int
    })
}

/// Buffers in flight: one under assembly, one displayed, and the
/// pending one if the cell is occupied.
pub open spec fn in_flight(m: PipelineModel) -> int {
    2 + (if m.pending is Some { 1int } else { 0int })
}

/// Frame `frame` with payload byte `index` set to `value`: byte
/// `3 * p + c` is channel `c` of pixel `p`.
pub open spec fn frame_write(frame: Seq<Color>, index: int, value: u8) -> Seq<Color> {
    frame.update(index / 3, with_channel(frame[index / 3], index % 3, value))
}

/// Does byte `b` complete the frame under assembly in `m`?
pub open spec fn completes_frame(m: PipelineModel, b: u8) -> bool {
    b != 0xFF && m.next_pos == FRAME_BYTES - 1
}

/// One decoder step on incoming byte `b`.
///
/// `0xFF` resets the write offset; any other byte is written at the
/// offset.  The byte that fills the frame installs the receive buffer
/// into the pending cell — releasing a frame already held there — and
/// the decoder takes the slot that is then free as its fresh receive
/// buffer, cleared to black.
pub open spec fn receive_model(m: PipelineModel, b: u8) -> PipelineModel {
    if b == 0xFF {
        PipelineModel { next_pos: 0, ..m }
    } else if m.next_pos < FRAME_BYTES - 1 {
        PipelineModel {
            slots: m.slots.update(m.rx, frame_write(m.slots[m.rx], m.next_pos, b)),
            next_pos: m.next_pos + 1,
            ..m
        }
    } else {
        let filled = frame_write(m.slots[m.rx], FRAME_BYTES - 1, b);
        let freed = match m.pending {
            Some(p) => m.free.update(p, true),
            None => m.free,
        };
        let new_rx = first_free_of(freed);
        PipelineModel {
            slots: m.slots.update(m.rx, filled).update(new_rx, black_frame()),
            free: freed.update(new_rx, false),
            rx: new_rx,
            pending: Some(m.rx),
            next_pos: 0,
            ..m
        }
    }
}

/// One change-counter notification: the wrapping increment that is
/// scheduled after each completed frame.
pub open spec fn notice_model(m: PipelineModel) -> PipelineModel {
    PipelineModel { changes: (m.changes + 1) % 0x1_0000_0000, ..m }
}

/// The row of pixels the display task emits from state `m`.
pub open spec fn display_row_spec(m: PipelineModel) -> Seq<Color> {
    m.slots[m.current].subrange(8 * m.next_line, 8 * m.next_line + 8)
}

/// One display-task step, after the row has been emitted: advance the
/// row index, and on wraparound from the last row swap any pending
/// frame in, releasing the frame that was displayed.
pub open spec fn display_model(m: PipelineModel) -> PipelineModel {
    if m.next_line < ROWS - 1 {
        PipelineModel { next_line: m.next_line + 1, ..m }
    } else {
        match m.pending {
            Some(p) => PipelineModel {
                current: p,
                pending: None,
                free: m.free.update(m.current, true),
                next_line: 0,
                ..m
            },
            None => PipelineModel { next_line: 0, ..m },
        }
    }
}

/// The screensaver palette: primary colors in round-robin order.
pub open spec fn palette_spec(i: int) -> Color {
    if i == 0 {
        Color { r: 255, g: 0, b: 0 }
    } else if i == 1 {
        Color { r: 0, g: 255, b: 0 }
    } else {
        Color { r: 0, g: 0, b: 255 }
    }
}

/// One screensaver tick.
///
/// If the change counter moved since the previous tick, input is
/// flowing: remember the new value and leave the display alone.
/// Otherwise render the gradient frame in the next palette color into a
/// pool slot and install it in the pending cell, releasing any frame
/// already held there first so the pool can never run dry.  The palette
/// index advances either way.
pub open spec fn screensaver_model(m: PipelineModel) -> PipelineModel {
    let next_color = (m.color_index + 1) % (PALETTE_SIZE as int);
    if m.changes != m.last_changes {
        PipelineModel { last_changes: m.changes, color_index: next_color, ..m }
    } else {
        let freed = match m.pending {
            Some(p) => m.free.update(p, true),
            None => m.free,
        };
        let slot = first_free_of(freed);
        PipelineModel {
            slots: m.slots.update(slot, gradient_spec(palette_spec(m.color_index))),
            free: freed.update(slot, false),
            pending: Some(slot),
            color_index: next_color,
            ..m
        }
    }
}

/// The pipeline state after the decoder has consumed the bytes of
/// `bytes`, one at a time, front first.
pub open spec fn feed_model(m: PipelineModel, bytes: Seq<u8>) -> PipelineModel
    decreases bytes.len(),
{
    if bytes.len() == 0 {
        m
    } else {
        feed_model(receive_model(m, bytes[0]), bytes.subrange(1, bytes.len() as int))
    }
}

/// The frame held in the pending cell, or the empty sequence when the
/// cell is unoccupied.
pub open spec fn pending_frame(m: PipelineModel) -> Seq<Color> {
    match m.pending {
        Some(p) => m.slots[p],
        None => Seq::empty(),
    }
}

/// The state the pipeline starts in: slot 0 under assembly, slot 1
/// displayed, slot 2 free, every buffer black, both counters zero.
pub open spec fn initial_model() -> PipelineModel {
    PipelineModel {
        slots: Seq::new(POOL_SIZE as nat, |i: int| black_frame()),
        free: seq![false, false, true],
        rx: 0,
        current: 1,
        pending: None,
        next_pos: 0,
        next_line: 0,
        changes: 0,
        last_changes: 0,
        color_index: 0,
    }
}

/// The executable pipeline state shared by the firmware tasks.
pub struct Pipeline {
    pool: Pool,
    rx: usize,
    current: usize,
    pending: Option<usize>,
    next_pos: usize,
    next_line: usize,
    changes: u32,
    last_changes: u32,
    color_index: usize,
}

impl View for Pipeline {
    type V = PipelineModel;

    closed spec fn view(&self) -> PipelineModel {
        PipelineModel {
            slots: self.pool.slots(),
            free: self.pool.free_map(),
            rx: self.rx as int,
            current: self.current as int,
            pending: match self.pending {
                Some(p) => Some(p as int),
                None => None,
            },
            next_pos: self.next_pos as int,
            next_line: self.next_line as int,
            changes: self.changes as int,
            last_changes: self.last_changes as int,
            color_index: self.color_index as int,
        }
    }
}

impl Pipeline {
    /// A pipeline is well formed when its abstract state satisfies the
    /// pipeline invariant.
    pub open spec fn wf(&self) -> bool {
        inv(self@)
    }

    /// Build the starting state: two buffers taken from the fresh pool,
    /// one for the decoder and one for the display, and one slot spare.
    pub fn new() -> (result: Pipeline)
        ensures
            result.wf(),
            result@ == initial_model(),
    {
        let mut pool = Pool::new();
        let first = pool.acquire();
        let rx: usize = match first {
            Some(s) => s,
            None => 0,
        };
        let second = pool.acquire();
        let current: usize = match second {
            Some(s) => s,
            None => 0,
        };
        let result = Pipeline {
            pool,
            rx,
            current,
            pending: None,
            next_pos: 0,
            next_line: 0,
            changes: 0,
            last_changes: 0,
            color_index: 0,
        };
        proof {
            assert(result@ =~~= initial_model());
        }
        result
    }

    /// Handle one incoming byte of the wire protocol; the returned flag
    /// says whether this byte completed a frame.
    ///
    /// On completion the finished frame moves into the pending cell
    /// (releasing any frame already there) and assembly restarts in a
    /// cleared buffer.  The change-counter increment is a separate,
    /// lower-priority step: [`Pipeline::notice_change`].
    pub fn receive_byte(&mut self, b: u8) -> (completed: bool)
        requires
            old(self).wf(),
        ensures
            final(self).wf(),
            final(self)@ == receive_model(old(self)@, b),
            completed == completes_frame(old(self)@, b),
    {
        if b == 0xFF {
            self.next_pos = 0;
            proof {
                assert(final(self)@ =~~= receive_model(old(self)@, b));
            }
            false
        } else if self.next_pos < FRAME_BYTES - 1 {
            self.pool.write_byte(self.rx, self.next_pos, b);
            self.next_pos = self.next_pos + 1;
            proof {
                assert(final(self)@ =~~= receive_model(old(self)@, b));
            }
            false
        } else {
            self.pool.write_byte(self.rx, FRAME_BYTES - 1, b);
            if let Some(p) = self.pending {
                self.pool.release(p);
            }
            self.pending = Some(self.rx);
            proof {
                let m0 = old(self)@;
                match m0.pending {
                    Some(p) => {
                        assert(self.pool.free_map()[p]);
                    },
                    None => {
                        let spare = 3 - m0.rx - m0.current;
                        assert(self.pool.free_map()[spare]);
                    },
                }
                assert(self.pool.free_count() > 0);
            }
            let acquired = self.pool.acquire();
            let fresh: usize = match acquired {
                Some(s) => s,
                None => 0,
            };
            self.pool.clear(fresh);
            self.rx = fresh;
            self.next_pos = 0;
            proof {
                assert(final(self)@ =~~= receive_model(old(self)@, b));
            }
            true
        }
    }

    /// The deferred unit of work that follows a completed frame: bump
    /// the wrapping change counter.
    pub fn notice_change(&mut self)
        requires
            old(self).wf(),
        ensures
            final(self).wf(),
            final(self)@ == notice_model(old(self)@),
    {
        self.changes = self.changes.wrapping_add(1);
        proof {
            assert(final(self)@ =~~= notice_model(old(self)@));
        }
    }

    /// One display-task invocation: return the row of pixels to emit,
    /// then advance the row index.  On wraparound from the last row to
    /// row 0 a pending frame, if any, is swapped in and the frame that
    /// was displayed goes back to the pool — never mid-frame, so no torn
    /// frame is ever shown.
    pub fn display_tick(&mut self) -> (row: Vec<Color>)
        requires
            old(self).wf(),
        ensures
            final(self).wf(),
            final(self)@ == display_model(old(self)@),
            row@ == display_row_spec(old(self)@),
    {
        let row = self.pool.row_of(self.current, self.next_line);
        if self.next_line == ROWS - 1 {
            if let Some(p) = self.pending {
                self.pool.release(self.current);
                self.current = p;
                self.pending = None;
            }
            self.next_line = 0;
        } else {
            self.next_line = self.next_line + 1;
        }
        proof {
            assert(row@ =~= display_row_spec(old(self)@));
            assert(final(self)@ =~~= display_model(old(self)@));
        }
        row
    }

    /// One screensaver tick: if no frame arrived since the previous
    /// tick, install a gradient frame in the next palette color into the
    /// pending cell (releasing any frame already held there first); if
    /// input is flowing, only remember the counter.  The palette index
    /// advances either way.
    pub fn screensaver_tick(&mut self)
        requires
            old(self).wf(),
        ensures
            final(self).wf(),
            final(self)@ == screensaver_model(old(self)@),
    {
        if self.changes != self.last_changes {
            self.last_changes = self.changes;
        } else {
            let color = palette(self.color_index);
            if let Some(p) = self.pending {
                self.pool.release(p);
                self.pending = None;
            }
            proof {
                let m0 = old(self)@;
                match m0.pending {
                    Some(p) => {
                        assert(self.pool.free_map()[p]);
                    },
                    None => {
                        let spare = 3 - m0.rx - m0.current;
                        assert(self.pool.free_map()[spare]);
                    },
                }
                assert(self.pool.free_count() > 0);
            }
            let acquired = self.pool.acquire();
            let slot: usize = match acquired {
                Some(s) => s,
                None => 0,
            };
            self.pool.render_gradient(slot, color);
            self.pending = Some(slot);
        }
        self.color_index = if self.color_index == PALETTE_SIZE - 1 {
            0
        } else {
            self.color_index + 1
        };
        proof {
            assert(final(self)@ =~~= screensaver_model(old(self)@));
        }
    }

    /// The decoder's current write offset into the receive buffer.
    pub fn next_pos(&self) -> (result: usize)
        ensures
            result == self@.next_pos,
    {
        self.next_pos
    }

    /// The row the display task will emit next.
    pub fn next_line(&self) -> (result: usize)
        ensures
            result == self@.next_line,
    {
        self.next_line
    }

    /// The wrapping count of completed frames noticed so far.
    pub fn changes(&self) -> (result: u32)
        ensures
            result == self@.changes,
    {
        self.changes
    }

    /// Whether a frame is waiting in the pending cell.
    pub fn has_pending(&self) -> (result: bool)
        ensures
            result == (self@.pending is Some),
    {
        self.pending.is_some()
    }

    /// Pixel `(row, col)` of the frame the display task is showing.
    pub fn current_pixel(&self, row: usize, col: usize) -> (result: Color)
        requires
            self.wf(),
            row < 8,
            col < 8,
        ensures
            result == self@.slots[self@.current][8 * row + col],
    {
        self.pool.pixel(self.current, row, col)
    }

    /// Pixel `(row, col)` of the frame waiting in the pending cell.
    pub fn pending_pixel(&self, row: usize, col: usize) -> (result: Option<Color>)
        requires
            self.wf(),
            row < 8,
            col < 8,
        ensures
            match self@.pending {
                Some(p) => result == Some(self@.slots[p][8 * row + col]),
                None => result is None,
            },
    {
        match self.pending {
            Some(p) => Some(self.pool.pixel(p, row, col)),
            None => None,
        }
    }
}

/// The palette color for index `i`: red, green, blue in turn.
pub fn palette(i: usize) -> (result: Color)
    requires
        i < PALETTE_SIZE,
    ensures
        result == palette_spec(i as int),
{
    if i == 0 {
        Color { r: 255, g: 0, b: 0 }
    } else if i == 1 {
        Color { r: 0, g: 255, b: 0 }
    } else {
        Color { r: 0, g: 0, b: 255 }
    }
}

} // verus!
