//! A fixed three-slot frame-buffer pool.
//!
//! The firmware never allocates: three frame buffers exist for the whole
//! run, and ownership moves between the receiver, the pending slot and
//! the display task.  The pool owns the storage and hands out slot
//! indices; a free bitmap records which slots are available.  Every
//! release must name a slot that is currently out, so a double release
//! is ruled out by the contracts.

use vstd::prelude::*;

use crate::image::Color;
use crate::image::Image;

verus! {

/// Number of buffers in the pool: one displayed, at most one pending,
/// one under assembly.
pub const POOL_SIZE: usize = 3;

/// The arena of pre-allocated frame buffers with its free bitmap.
pub struct Pool {
    images: Vec<Image>,
    free: Vec<bool>,
}

impl Pool {
    /// Which slots are free.
    pub closed spec fn free_map(&self) -> Seq<bool> {
        self.free@
    }

    /// The pixel contents of every slot.
    pub closed spec fn slots(&self) -> Seq<Seq<Color>> {
        Seq::new(self.images@.len() as nat, |i: int| self.images@[i]@)
    }

    /// Three slots, each a well-formed image.
    pub open spec fn wf(&self) -> bool {
        &&& self.free_map().len() == POOL_SIZE
        &&& self.slots().len() == POOL_SIZE
        &&& forall|i: int| 0 <= i < POOL_SIZE ==> (#[trigger] self.slots()[i]).len() == 64
    }

    /// How many slots are free.
    pub open spec fn free_count(&self) -> int
        recommends
            self.wf(),
    {
        (if self.free_map()[0] { 1int } else { 0int })
            + (if self.free_map()[1] { 1int } else { 0int })
            + (if self.free_map()[2] { 1int } else { 0int })
    }

    /// The lowest-numbered free slot; meaningful only when one is free.
    pub open spec fn first_free(&self) -> int {
        if self.free_map()[0] {
            0
        } else if self.free_map()[1] {
            1
        } else {
            2
        }
    }

    /// A fresh pool: all three buffers black, all three slots free.
    pub fn new() -> (result: Self)
        ensures
            result.wf(),
            forall|i: int| 0 <= i < POOL_SIZE ==> result.free_map()[i],
            forall|i: int, j: int|
                0 <= i < POOL_SIZE && 0 <= j < 64 ==> result.slots()[i][j] == (Color {
                    r: 0,
                    g: 0,
                    b: 0,
                }),
    {
        let mut images: Vec<Image> = Vec::new();
        let mut free: Vec<bool> = Vec::new();
        let mut i: usize = 0;
        while i < POOL_SIZE
            invariant
                i <= POOL_SIZE,
                images@.len() == i,
                free@.len() == i,
                forall|k: int| 0 <= k < i ==> free@[k],
                forall|k: int| 0 <= k < i ==> (#[trigger] images@[k]).wf(),
                forall|k: int, j: int|
                    0 <= k < i && 0 <= j < 64 ==> images@[k]@[j] == (Color { r: 0, g: 0, b: 0 }),
            decreases POOL_SIZE - i,
        {
            images.push(Image::default());
            free.push(true);
            i = i + 1;
        }
        Pool { images, free }
    }

    /// Take the lowest-numbered free slot out of the pool, if any slot
    /// is free.  The buffers themselves are untouched.
    pub fn acquire(&mut self) -> (result: Option<usize>)
        requires
            old(self).wf(),
        ensures
            final(self).wf(),
            final(self).slots() == old(self).slots(),
            old(self).free_count() == 0 ==> result is None && final(self).free_map()
                == old(self).free_map(),
            old(self).free_count() > 0 ==> result == Some(old(self).first_free() as usize)
                && final(self).free_map() == old(self).free_map().update(
                old(self).first_free(),
                false,
            ),
    {
        let mut slot: usize = 0;
        if self.free[0] {
            slot = 0;
        } else if self.free[1] {
            slot = 1;
        } else if self.free[2] {
            slot = 2;
        } else {
            return None;
        }
        self.free[slot] = false;
        proof {
            assert(final(self).slots() =~= old(self).slots());
            assert(final(self).free_map() =~= old(self).free_map().update(
                old(self).first_free(),
                false,
            ));
        }
        Some(slot)
    }

    /// Return slot `slot` to the free set.  The caller gives its
    /// ownership up: the slot must currently be out of the pool.
    pub fn release(&mut self, slot: usize)
        requires
            old(self).wf(),
            slot < POOL_SIZE,
            !old(self).free_map()[slot as int],
        ensures
            final(self).wf(),
            final(self).slots() == old(self).slots(),
            final(self).free_map() == old(self).free_map().update(slot as int, true),
    {
        self.free[slot] = true;
        proof {
            assert(final(self).slots() =~= old(self).slots());
            assert(final(self).free_map() =~= old(self).free_map().update(slot as int, true));
        }
    }

    /// Read pixel `(row, col)` of the buffer in slot `slot`.
    pub fn pixel(&self, slot: usize, row: usize, col: usize) -> (result: Color)
        requires
            self.wf(),
            slot < POOL_SIZE,
            row < 8,
            col < 8,
        ensures
            result == self.slots()[slot as int][8 * row + col],
    {
        proof {
            assert(self.slots()[slot as int] == self.images@[slot as int]@);
        }
        self.images[slot].get(row, col)
    }

    /// Row `row` of the buffer in slot `slot`.
    pub fn row_of(&self, slot: usize, row: usize) -> (result: Vec<Color>)
        requires
            self.wf(),
            slot < POOL_SIZE,
            row < 8,
        ensures
            result@.len() == 8,
            forall|c: int| 0 <= c < 8 ==> result@[c] == self.slots()[slot as int][8 * row + c],
    {
        proof {
            assert(self.slots()[slot as int] == self.images@[slot as int]@);
        }
        self.images[slot].row(row)
    }

    /// Write payload byte `index` into the buffer in slot `slot`.
    pub fn write_byte(&mut self, slot: usize, index: usize, value: u8)
        requires
            old(self).wf(),
            slot < POOL_SIZE,
            index < 192,
        ensures
            final(self).wf(),
            final(self).free_map() == old(self).free_map(),
            final(self).slots() == old(self).slots().update(
                slot as int,
                old(self).slots()[slot as int].update(
                    index as int / 3,
                    crate::image::with_channel(
                        old(self).slots()[slot as int][index as int / 3],
                        index as int % 3,
                        value,
                    ),
                ),
            ),
    {
        proof {
            assert(old(self).slots()[slot as int] == old(self).images@[slot as int]@);
        }
        let image: &mut Image = &mut self.images[slot];
        image.set_byte(index, value);
        proof {
            assert(final(self).slots() =~= old(self).slots().update(
                slot as int,
                old(self).slots()[slot as int].update(
                    index as int / 3,
                    crate::image::with_channel(
                        old(self).slots()[slot as int][index as int / 3],
                        index as int % 3,
                        value,
                    ),
                ),
            ));
        }
    }

    /// Overwrite the buffer in slot `slot` with an all-black image.
    pub fn clear(&mut self, slot: usize)
        requires
            old(self).wf(),
            slot < POOL_SIZE,
        ensures
            final(self).wf(),
            final(self).free_map() == old(self).free_map(),
            final(self).slots() == old(self).slots().update(
                slot as int,
                Seq::new(64, |i: int| Color { r: 0, g: 0, b: 0 }),
            ),
    {
        let image: Image = Image::default();
        self.images[slot] = image;
        proof {
            assert(final(self).slots()[slot as int] =~= Seq::new(
                64,
                |i: int| Color { r: 0, g: 0, b: 0 },
            ));
            assert(final(self).slots() =~= old(self).slots().update(
                slot as int,
                Seq::new(64, |i: int| Color { r: 0, g: 0, b: 0 }),
            ));
        }
    }

    /// Overwrite the buffer in slot `slot` with the gradient frame in
    /// base color `color`.
    pub fn render_gradient(&mut self, slot: usize, color: Color)
        requires
            old(self).wf(),
            slot < POOL_SIZE,
        ensures
            final(self).wf(),
            final(self).free_map() == old(self).free_map(),
            final(self).slots() == old(self).slots().update(
                slot as int,
                crate::image::gradient_spec(color),
            ),
    {
        let image: Image = Image::gradient(color);
        self.images[slot] = image;
        proof {
            assert(final(self).slots() =~= old(self).slots().update(
                slot as int,
                crate::image::gradient_spec(color),
            ));
        }
    }
}

} // verus!
