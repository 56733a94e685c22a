//! The safety laws of the pipeline, proved about the model functions of
//! [`crate::pipeline`].

use vstd::prelude::*;

use crate::image::Color;
use crate::image::channel_of;
use crate::image::frame_from_bytes;
use crate::image::gradient_spec;
use crate::image::with_channel;
use crate::pipeline::PipelineModel;
use crate::pipeline::completes_frame;
use crate::pipeline::display_model;
use crate::pipeline::feed_model;
use crate::pipeline::frame_write;
use crate::pipeline::free_count_of;
use crate::pipeline::in_flight;
use crate::pipeline::inv;
use crate::pipeline::notice_model;
use crate::pipeline::palette_spec;
use crate::pipeline::pending_frame;
use crate::pipeline::receive_model;
use crate::pipeline::screensaver_model;

verus! {

/// Does `payload` consist of payload bytes only, with no sentinel?
pub open spec fn no_sentinel(payload: Seq<u8>) -> bool {
    forall|k: int| 0 <= k < payload.len() ==> payload[k] != 0xFF
}

/// Every decoder step keeps the pipeline invariant.
pub proof fn lemma_receive_preserves_inv(m: PipelineModel, b: u8)
    requires
        inv(m),
    ensures
        inv(receive_model(m, b)),
{
}

/// The write offset stays in `[0, 192)` across every decoder step, and
/// a sentinel byte resets it to 0 whatever the prior state.
pub proof fn lemma_offset_in_range(m: PipelineModel, b: u8)
    requires
        inv(m),
    ensures
        0 <= receive_model(m, b).next_pos < 192,
        b == 0xFF ==> receive_model(m, b).next_pos == 0,
{
    lemma_receive_preserves_inv(m, b);
}

/// The change-counter step keeps the pipeline invariant.
pub proof fn lemma_notice_preserves_inv(m: PipelineModel)
    requires
        inv(m),
    ensures
        inv(notice_model(m)),
{
}

/// Every display-task step keeps the pipeline invariant.
pub proof fn lemma_display_preserves_inv(m: PipelineModel)
    requires
        inv(m),
    ensures
        inv(display_model(m)),
{
}

/// Every screensaver tick keeps the pipeline invariant.
pub proof fn lemma_screensaver_preserves_inv(m: PipelineModel)
    requires
        inv(m),
    ensures
        inv(screensaver_model(m)),
{
}

/// Buffer accounting: the buffers in flight (assembling + displayed +
/// pending) and the free slots always partition the pool, so at most 3
/// buffers are ever in flight.
pub proof fn lemma_in_flight_bounded(m: PipelineModel)
    requires
        inv(m),
    ensures
        in_flight(m) + free_count_of(m.free) == 3,
        in_flight(m) <= 3,
{
    assert(m.free[0] <==> (0 != m.rx && 0 != m.current && m.pending != Some(0int)));
    assert(m.free[1] <==> (1 != m.rx && 1 != m.current && m.pending != Some(1int)));
    assert(m.free[2] <==> (2 != m.rx && 2 != m.current && m.pending != Some(2int)));
}

/// A frame completion that finds the pending cell occupied releases
/// exactly one buffer — the one that was pending — and no more: that
/// slot becomes the fresh receive buffer, every other slot keeps its
/// owner, and the free count is unchanged.
pub proof fn lemma_decoder_install_releases_one(m: PipelineModel, b: u8, p: int)
    requires
        inv(m),
        completes_frame(m, b),
        m.pending == Some(p),
    ensures
        receive_model(m, b).rx == p,
        receive_model(m, b).pending == Some(m.rx),
        receive_model(m, b).current == m.current,
        receive_model(m, b).free == m.free,
        free_count_of(receive_model(m, b).free) == free_count_of(m.free),
{
    assert(receive_model(m, b).free =~= m.free);
}

/// The same law for the screensaver: installing a generated frame over
/// an occupied pending cell reuses exactly the slot that was pending;
/// the decoder's and the display task's buffers and the free count are
/// untouched.
pub proof fn lemma_screensaver_install_releases_one(m: PipelineModel, p: int)
    requires
        inv(m),
        m.changes == m.last_changes,
        m.pending == Some(p),
    ensures
        screensaver_model(m).pending == Some(p),
        screensaver_model(m).rx == m.rx,
        screensaver_model(m).current == m.current,
        screensaver_model(m).free == m.free,
        screensaver_model(m).slots == m.slots.update(
            p,
            gradient_spec(palette_spec(m.color_index)),
        ),
{
    assert(screensaver_model(m).free =~= m.free);
}

/// The display task swaps buffers only when the row index wraps from
/// the last row to row 0; mid-frame, the displayed buffer, the pending
/// cell and every pixel stay untouched.  Display never writes pixels.
pub proof fn lemma_swap_only_at_wrap(m: PipelineModel)
    requires
        inv(m),
    ensures
        display_model(m).slots == m.slots,
        m.next_line < 7 ==> display_model(m).current == m.current && display_model(m).pending
            == m.pending && display_model(m).next_line == m.next_line + 1,
        display_model(m).current != m.current ==> m.next_line == 7 && m.pending is Some,
{
}

/// Feeding a concatenation is feeding the parts in turn.
pub proof fn lemma_feed_concat(m: PipelineModel, a: Seq<u8>, b: Seq<u8>)
    ensures
        feed_model(m, a + b) == feed_model(feed_model(m, a), b),
    decreases a.len(),
{
    if a.len() == 0 {
        assert(a + b =~= b);
    } else {
        let rest = a.subrange(1, a.len() as int);
        assert((a + b).subrange(1, (a + b).len() as int) =~= rest + b);
        lemma_feed_concat(receive_model(m, a[0]), rest, b);
    }
}

/// Feeding a single byte is one decoder step.
pub proof fn lemma_feed_one(m: PipelineModel, b: u8)
    ensures
        feed_model(m, seq![b]) == receive_model(m, b),
{
    reveal_with_fuel(feed_model, 2);
    assert(seq![b].subrange(1, 1) =~= Seq::<u8>::empty());
}

/// The pipeline invariant holds after feeding any byte sequence.
pub proof fn lemma_feed_preserves_inv(m: PipelineModel, bytes: Seq<u8>)
    requires
        inv(m),
    ensures
        inv(feed_model(m, bytes)),
    decreases bytes.len(),
{
    if bytes.len() > 0 {
        lemma_receive_preserves_inv(m, bytes[0]);
        lemma_feed_preserves_inv(receive_model(m, bytes[0]), bytes.subrange(1, bytes.len() as int));
    }
}

/// Over any sequence of received bytes, the write offset ends up in
/// `[0, 192)`, and it ends at 0 whenever the last byte was the
/// sentinel, whatever came before.
pub proof fn lemma_feed_offset_in_range(m: PipelineModel, bytes: Seq<u8>)
    requires
        inv(m),
    ensures
        0 <= feed_model(m, bytes).next_pos < 192,
        bytes.len() > 0 && bytes.last() == 0xFF ==> feed_model(m, bytes).next_pos == 0,
{
    lemma_feed_preserves_inv(m, bytes);
    if bytes.len() > 0 && bytes.last() == 0xFF {
        let head = bytes.subrange(0, bytes.len() - 1);
        assert(bytes =~= head + seq![bytes.last()]);
        lemma_feed_concat(m, head, seq![bytes.last()]);
        lemma_feed_one(feed_model(m, head), bytes.last());
    }
}

/// The receive buffer with payload bytes laid down from write offset
/// `from`: byte `i` of the frame comes from `payload[i - from]` when
/// `from <= i < from + payload.len()`, and from `frame` otherwise.
pub open spec fn frame_fill_at(frame: Seq<Color>, from: int, payload: Seq<u8>) -> Seq<Color> {
    Seq::new(64, |p: int| Color {
        r: fill_byte(frame, from, payload, 3 * p),
        g: fill_byte(frame, from, payload, 3 * p + 1),
        b: fill_byte(frame, from, payload, 3 * p + 2),
    })
}

/// Byte `i` of the frame described by [`frame_fill_at`].
pub open spec fn fill_byte(frame: Seq<Color>, from: int, payload: Seq<u8>, i: int) -> u8 {
    if from <= i < from + payload.len() {
        payload[i - from]
    } else {
        channel_of(frame[i / 3], i % 3)
    }
}

/// Writing one byte then filling from the next offset is filling from
/// the starting offset.
proof fn lemma_fill_unfold(frame: Seq<Color>, from: int, payload: Seq<u8>)
    requires
        frame.len() == 64,
        0 <= from,
        payload.len() >= 1,
        from + payload.len() <= 192,
    ensures
        frame_fill_at(frame, from, payload) == frame_fill_at(
            frame_write(frame, from, payload[0]),
            from + 1,
            payload.subrange(1, payload.len() as int),
        ),
{
    let lhs = frame_fill_at(frame, from, payload);
    let written = frame_write(frame, from, payload[0]);
    let rest = payload.subrange(1, payload.len() as int);
    let rhs = frame_fill_at(written, from + 1, rest);
    assert forall|i: int| 0 <= i < 192 implies #[trigger] fill_byte(frame, from, payload, i)
        == fill_byte(written, from + 1, rest, i) by {
        let p = i / 3;
        let c = i % 3;
        assert(i == 3 * p + c && 0 <= c < 3);
        if from + 1 <= i < from + payload.len() {
            assert(rest[i - (from + 1)] == payload[i - from]);
        } else if i == from {
            assert(written[from / 3] == with_channel(frame[from / 3], from % 3, payload[0]));
            assert(channel_of(written[p], c) == payload[0]);
        } else {
            if p == from / 3 {
                assert(c != from % 3);
                assert(channel_of(written[p], c) == channel_of(frame[p], c));
            } else {
                assert(written[p] == frame[p]);
            }
        }
    }
    assert forall|p: int| 0 <= p < 64 implies lhs[p] == rhs[p] by {
        assert(fill_byte(frame, from, payload, 3 * p) == fill_byte(written, from + 1, rest, 3 * p));
        assert(fill_byte(frame, from, payload, 3 * p + 1) == fill_byte(
            written,
            from + 1,
            rest,
            3 * p + 1,
        ));
        assert(fill_byte(frame, from, payload, 3 * p + 2) == fill_byte(
            written,
            from + 1,
            rest,
            3 * p + 2,
        ));
        assert(lhs[p].r == rhs[p].r && lhs[p].g == rhs[p].g && lhs[p].b == rhs[p].b);
    }
    assert(lhs =~= rhs);
}

/// Feeding sentinel-free payload that stays short of completing the
/// frame only lays the bytes down in the receive buffer and advances
/// the write offset; nothing else in the pipeline moves.
pub proof fn lemma_feed_partial(m: PipelineModel, payload: Seq<u8>)
    requires
        inv(m),
        no_sentinel(payload),
        m.next_pos + payload.len() < 192,
    ensures
        feed_model(m, payload) == (PipelineModel {
            slots: m.slots.update(m.rx, frame_fill_at(m.slots[m.rx], m.next_pos, payload)),
            next_pos: m.next_pos + payload.len(),
            ..m
        }),
    decreases payload.len(),
{
    if payload.len() == 0 {
        assert(frame_fill_at(m.slots[m.rx], m.next_pos, payload) =~= m.slots[m.rx]);
        assert(m.slots.update(m.rx, m.slots[m.rx]) =~= m.slots);
        assert(feed_model(m, payload) =~~= PipelineModel {
            slots: m.slots.update(m.rx, frame_fill_at(m.slots[m.rx], m.next_pos, payload)),
            next_pos: m.next_pos + payload.len(),
            ..m
        });
    } else {
        let b = payload[0];
        let rest = payload.subrange(1, payload.len() as int);
        let m1 = receive_model(m, b);
        lemma_receive_preserves_inv(m, b);
        lemma_feed_partial(m1, rest);
        lemma_fill_unfold(m.slots[m.rx], m.next_pos, payload);
        assert(m1.slots[m.rx] == frame_write(m.slots[m.rx], m.next_pos, b));
        assert(m1.slots.update(m.rx, frame_fill_at(m1.slots[m.rx], m.next_pos + 1, rest))
            =~= m.slots.update(m.rx, frame_fill_at(m.slots[m.rx], m.next_pos, payload)));
        assert(feed_model(m, payload) =~~= PipelineModel {
            slots: m.slots.update(m.rx, frame_fill_at(m.slots[m.rx], m.next_pos, payload)),
            next_pos: m.next_pos + payload.len(),
            ..m
        });
    }
}

/// Feeding a full 192-byte sentinel-free payload from offset 0
/// completes exactly one frame: the pending cell afterwards holds the
/// frame decoded from the payload — and from the payload alone.
pub proof fn lemma_feed_complete(m: PipelineModel, payload: Seq<u8>)
    requires
        inv(m),
        no_sentinel(payload),
        payload.len() == 192,
        m.next_pos == 0,
    ensures
        inv(feed_model(m, payload)),
        feed_model(m, payload).pending == Some(m.rx),
        pending_frame(feed_model(m, payload)) == frame_from_bytes(payload),
        feed_model(m, payload).next_pos == 0,
        feed_model(m, payload).current == m.current,
        feed_model(m, payload).changes == m.changes,
{
    let head = payload.subrange(0, 191);
    let last = payload[191];
    assert(payload =~= head + payload.subrange(191, 192));
    lemma_feed_concat(m, head, payload.subrange(191, 192));
    lemma_feed_partial(m, head);
    let m1 = feed_model(m, head);
    lemma_feed_preserves_inv(m, head);
    assert(payload.subrange(191, 192) =~= seq![last]);
    lemma_feed_one(m1, last);
    assert(feed_model(m1, payload.subrange(191, 192)) == receive_model(m1, last));
    let m2 = receive_model(m1, last);
    lemma_receive_preserves_inv(m1, last);
    let filled = frame_fill_at(m.slots[m.rx], 0, head);
    assert(m1.slots[m.rx] == filled);
    assert(m2.slots[m.rx] == filled.update(63, with_channel(filled[63], 2, last)));
    assert forall|p: int| 0 <= p < 64 implies m2.slots[m.rx][p] == frame_from_bytes(payload)[p]
        by {
        assert(filled[p].r == fill_byte(m.slots[m.rx], 0, head, 3 * p));
        assert(filled[p].g == fill_byte(m.slots[m.rx], 0, head, 3 * p + 1));
        assert(filled[p].b == fill_byte(m.slots[m.rx], 0, head, 3 * p + 2));
        assert(head[3 * p] == payload[3 * p]);
        assert(head[3 * p + 1] == payload[3 * p + 1]);
        if p < 63 {
            assert(head[3 * p + 2] == payload[3 * p + 2]);
            assert(m2.slots[m.rx][p] == filled[p]);
        } else {
            assert(m2.slots[m.rx][63] == with_channel(filled[63], 2, last));
        }
    }
    assert(m2.slots[m.rx] =~= frame_from_bytes(payload));
}

/// Idempotence of the protocol: a sentinel followed by the same
/// 192-byte payload, sent twice in a row, completes two structurally
/// identical frames — the pending cell holds the frame decoded from the
/// payload after either run, whatever frame assembly was in progress
/// before.
pub proof fn lemma_same_payload_twice(m: PipelineModel, payload: Seq<u8>)
    requires
        inv(m),
        no_sentinel(payload),
        payload.len() == 192,
    ensures
        pending_frame(feed_model(m, seq![0xFFu8] + payload)) == frame_from_bytes(payload),
        pending_frame(
            feed_model(feed_model(m, seq![0xFFu8] + payload), seq![0xFFu8] + payload),
        ) == frame_from_bytes(payload),
{
    let run = seq![0xFFu8] + payload;
    lemma_feed_concat(m, seq![0xFFu8], payload);
    lemma_feed_one(m, 0xFF);
    lemma_receive_preserves_inv(m, 0xFF);
    lemma_feed_complete(receive_model(m, 0xFF), payload);
    let m1 = feed_model(m, run);
    lemma_feed_concat(m1, seq![0xFFu8], payload);
    lemma_feed_one(m1, 0xFF);
    lemma_receive_preserves_inv(m1, 0xFF);
    lemma_feed_complete(receive_model(m1, 0xFF), payload);
}

} // verus!
