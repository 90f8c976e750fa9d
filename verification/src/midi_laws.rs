//! What a MIDI file says: its numbers, its messages, its tracks and their order.

use crate::controls::Event;
use crate::midi::{
    be16, be32, channel_event, earliest, fresh, has_header, later, message_at, midi_start, quantity,
    quantity_from, tracks_from, Track,
};
use vstd::prelude::*;

verus! {

/// Numbers of fixed size stand with their high byte first.
pub proof fn law_big_end_first(b: Seq<u8>, i: int)
    requires
        0 <= i,
        i + 4 <= b.len(),
    ensures
        be16(b, i) / 0x100 == b[i],
        be16(b, i) % 0x100 == b[i + 1],
        be32(b, i) == be16(b, i) * 0x1_0000 + be16(b, i + 2),
        be32(b, i) / 0x100_0000 == b[i],
        be32(b, i) % 0x100 == b[i + 3],
{
}

/// Numbers in seven-bit groups: each byte but the last has its top bit set, the
/// first group is the highest, and there are at most four. A number that does not
/// end in its four bytes, or not before the end, is none.
pub proof fn law_numbers_in_seven_bit_groups(b: Seq<u8>, i: int, end: int)
    requires
        0 <= i,
        end <= b.len(),
    ensures
        i < end && b[i] < 128 ==> quantity(b, i, end) == Some((b[i] as int, i + 1)),
        i + 1 < end && b[i] >= 128 && b[i + 1] < 128 ==> quantity(b, i, end) == Some(
            ((b[i] - 128) * 128 + b[i + 1], i + 2),
        ),
        i + 2 < end && b[i] >= 128 && b[i + 1] >= 128 && b[i + 2] < 128 ==> quantity(b, i, end)
            == Some(((b[i] - 128) * 0x4000 + (b[i + 1] - 128) * 128 + b[i + 2], i + 3)),
        i + 3 < end && b[i] >= 128 && b[i + 1] >= 128 && b[i + 2] >= 128 && b[i + 3] < 128
            ==> quantity(b, i, end) == Some(
            (
                (b[i] - 128) * 0x20_0000 + (b[i + 1] - 128) * 0x4000 + (b[i + 2] - 128) * 128 + b[i
                    + 3],
                i + 4,
            ),
        ),
        i + 3 < end && b[i] >= 128 && b[i + 1] >= 128 && b[i + 2] >= 128 && b[i + 3] >= 128
            ==> quantity(b, i, end) is None,
        i >= end ==> quantity(b, i, end) is None,
        i + 1 == end && b[i] >= 128 ==> quantity(b, i, end) is None,
{
    reveal_with_fuel(quantity_from, 5);
}

/// The channel messages: the high half of the status says which, the low half the
/// channel. A note-on without velocity is a note-off, and a bend is fourteen bits
/// round its centre, low half first. Pressure of either kind is not acted on.
pub proof fn law_channel_messages(ch: u8, a: u8, c: u8)
    requires
        ch < 16,
        a < 128,
        c < 128,
    ensures
        channel_event((0x80 + ch) as u8, a, c) == (Event::NoteOff { ch, key: a }),
        c > 0 ==> channel_event((0x90 + ch) as u8, a, c) == (Event::NoteOn { ch, key: a, vel: c }),
        channel_event((0x90 + ch) as u8, a, 0) == (Event::NoteOff { ch, key: a }),
        channel_event((0xa0 + ch) as u8, a, c) == Event::Other,
        channel_event((0xb0 + ch) as u8, a, c) == (Event::Cc { ch, num: a, val: c }),
        channel_event((0xc0 + ch) as u8, a, c) == (Event::Program { ch, val: a }),
        channel_event((0xd0 + ch) as u8, a, c) == Event::Other,
        channel_event((0xe0 + ch) as u8, a, c) matches Event::PitchBend { ch: on, val } && on == ch
            && val + 8192 == a + 128 * c,
        channel_event((0xe0 + ch) as u8, 0, 64) == (Event::PitchBend { ch, val: 0 }),
{
}

/// Running status: data bytes without a status are read under the last one, as if
/// it had been sent again. Nothing can be read before a first status.
pub proof fn law_running_status_repeats_the_last(b: Seq<u8>, i: int, end: int, before: u8)
    requires
        0 <= i,
        i + 1 < end <= b.len(),
        b.len() <= usize::MAX,
        0x80 <= b[i] < 0xf0,
        b[i + 1] < 0x80,
    ensures
        message_at(b, i, end, before) == message_at(b, i + 1, end, b[i]),
        message_at(b, i, end, before) matches Some(m) ==> m.running == b[i] && !m.last,
        message_at(b, i + 1, end, 0) is None,
{
}

/// A channel message is its status and one or two data bytes: two for notes,
/// pressure on a key, controllers and bends, one for programs and pressure on a
/// channel. A message cut off by the end is none.
pub proof fn law_channel_messages_in_bytes(b: Seq<u8>, i: int, end: int, before: u8)
    requires
        0 <= i < end <= b.len() <= usize::MAX,
        0x80 <= b[i] < 0xf0,
    ensures
        ({
            let one = b[i] as int / 16 == 12 || b[i] as int / 16 == 13;
            let m = message_at(b, i, end, before);
            &&& one && i + 2 <= end ==> m is Some && m->Some_0.next == i + 2 && m->Some_0.event
                == channel_event(b[i], b[i + 1] % 128, 0)
            &&& !one && i + 3 <= end ==> m is Some && m->Some_0.next == i + 3 && m->Some_0.event
                == channel_event(b[i], b[i + 1] % 128, b[i + 2] % 128)
            &&& one && i + 2 > end ==> m is None
            &&& !one && i + 3 > end ==> m is None
        }),
{
}

/// A meta message is skipped by its own length and leaves the running status. One
/// of them, of three bytes, sets the tempo in microseconds, high byte first; one
/// ends the track; no other says anything.
pub proof fn law_meta_messages(b: Seq<u8>, i: int, end: int, before: u8, len: int, at: int)
    requires
        0 <= i,
        i + 1 < end <= b.len() <= usize::MAX,
        b[i] == 0xff,
        quantity(b, i + 2, end) == Some((len, at)),
        0 <= at,
        0 <= len,
    ensures
        ({
            let m = message_at(b, i, end, before);
            &&& at + len > end ==> m is None
            &&& at + len <= end ==> m is Some && m->Some_0.next == at + len && m->Some_0.running
                == before && m->Some_0.last == (b[i + 1] == 0x2f)
            &&& at + len <= end && b[i + 1] == 0x51 && len == 3 ==> m->Some_0.event
                == Event::Tempo((be16(b, at) * 0x100 + b[at + 2]) as u32)
            &&& at + len <= end && !(b[i + 1] == 0x51 && len == 3) ==> m->Some_0.event
                == Event::Other
        }),
{
}

/// An exclusive message is skipped by its own length, leaves the running status
/// and says nothing.
pub proof fn law_exclusive_messages(b: Seq<u8>, i: int, end: int, before: u8, len: int, at: int)
    requires
        0 <= i,
        i + 1 < end <= b.len() <= usize::MAX,
        b[i] == 0xf0 || b[i] == 0xf7,
        quantity(b, i + 1, end) == Some((len, at)),
        0 <= at,
        0 <= len,
    ensures
        ({
            let m = message_at(b, i, end, before);
            &&& at + len > end ==> m is None
            &&& at + len <= end ==> m is Some && m->Some_0.next == at + len && m->Some_0.running
                == before && !m->Some_0.last && m->Some_0.event == Event::Other
        }),
{
}

/// Each event of a track is due its own delta after the one before it, and the
/// track goes on right behind it, under the status it left. An end mark, or what is
/// no event, ends the track where it stands.
pub proof fn law_deltas_add_up(b: Seq<u8>, t: Track, delta: int, at: int)
    requires
        quantity(b, t.pos as int, t.end as int) == Some((delta, at)),
        t.tick + delta <= u64::MAX,
        0 <= delta,
    ensures
        ({
            let n = t.advanced(b);
            let m = message_at(b, at, t.end as int, t.running);
            &&& m is Some && !m->Some_0.last ==> n.tick == t.tick + delta && n.next == Some(
                m->Some_0.event,
            ) && n.pos == m->Some_0.next && n.running == m->Some_0.running
            &&& m is None || m->Some_0.last ==> n.next is None && n.tick == t.tick
            &&& n.end == t.end
        }),
{
}

/// A track starts at the first byte of its chunk, at time nought and under no
/// status: its first event has to bring one.
pub proof fn law_how_a_track_starts(b: Seq<u8>, pos: int, end: int, delta: int, at: int)
    requires
        0 <= pos <= end <= b.len() <= usize::MAX,
        quantity(b, pos, end) == Some((delta, at)),
        0 <= delta <= u64::MAX,
        pos <= at < end,
        b[at] < 128,
    ensures
        fresh(pos, end).pos == pos && fresh(pos, end).end == end,
        fresh(pos, end).tick == 0,
        fresh(pos, end).running == 0,
        fresh(pos, end).advanced(b).next is None,
{
}

/// A track without another number ends there.
pub proof fn law_tracks_end(b: Seq<u8>, t: Track)
    ensures
        quantity(b, t.pos as int, t.end as int) is None ==> t.advanced(b).next is None,
        t.pos >= t.end ==> t.advanced(b).next is None,
{
}

/// Time stops at the largest tick instead of running over.
pub proof fn law_time_saturates(tick: u64, delta: int)
    requires
        0 <= delta,
    ensures
        tick + delta <= u64::MAX ==> later(tick, delta) == tick + delta,
        tick + delta > u64::MAX ==> later(tick, delta) == u64::MAX,
        later(tick, delta) >= tick,
{
}

/// The chunks of a file one after another: a track chunk is a track, starting at
/// time nought right behind its size and ending with it, or with the file where
/// it claims more; any other chunk is passed over. Tracks keep their order.
pub proof fn law_chunks_become_tracks(b: Seq<u8>, i: int)
    requires
        0 <= i,
        i + 8 <= b.len() <= usize::MAX,
    ensures
        ({
            let size = be32(b, i + 4);
            let end = if i + 8 + size <= b.len() { i + 8 + size } else { b.len() as int };
            let is_track = b[i] == 0x4d && b[i + 1] == 0x54 && b[i + 2] == 0x72 && b[i + 3] == 0x6b;
            let start = Track {
                pos: (i + 8) as usize,
                end: end as usize,
                tick: 0,
                running: 0,
                next: None,
            };
            &&& is_track ==> tracks_from(b, i) == seq![start.advanced(b)] + tracks_from(b, end)
            &&& !is_track ==> tracks_from(b, i) == tracks_from(b, end)
        }),
{
}

/// Fewer than eight bytes hold no chunk.
pub proof fn law_no_chunk_in_the_rest(b: Seq<u8>, i: int)
    requires
        i + 8 > b.len(),
    ensures
        tracks_from(b, i).len() == 0,
{
}

/// A MIDI file starts with its header, or with a wrapper of twenty bytes and then
/// its header, and the header is at least six bytes long.
pub proof fn law_where_a_file_starts(b: Seq<u8>)
    ensures
        ({
            let wrapped = b.len() >= 20 && b[0] == 0x52 && b[1] == 0x49 && b[2] == 0x46 && b[3]
                == 0x46 && b[8] == 0x52 && b[9] == 0x4d && b[10] == 0x49 && b[11] == 0x44;
            let i = if wrapped { 20int } else { 0 };
            &&& midi_start(b) == i
            &&& has_header(b) <==> i + 14 <= b.len() && b[i] == 0x4d && b[i + 1] == 0x54 && b[i + 2]
                == 0x68 && b[i + 3] == 0x64 && be32(b, i + 4) >= 6
        }),
{
}

/// The next event of a file is the earliest of its tracks', and the first track's
/// where several are due together; there is none only when every track has ended.
pub proof fn law_the_earliest_event_is_next(tracks: Seq<Track>, n: int)
    requires
        0 <= n <= tracks.len(),
    ensures
        earliest(tracks, n) matches Some(k) ==> {
            &&& 0 <= k < n
            &&& tracks[k].next is Some
            &&& forall|i: int|
                0 <= i < k && (#[trigger] tracks[i]).next is Some ==> tracks[i].tick
                    > tracks[k].tick
            &&& forall|i: int|
                k < i < n && (#[trigger] tracks[i]).next is Some ==> tracks[i].tick
                    >= tracks[k].tick
        },
        earliest(tracks, n) is None ==> forall|i: int|
            0 <= i < n ==> (#[trigger] tracks[i]).next is None,
    decreases n,
{
    if n > 0 {
        law_the_earliest_event_is_next(tracks, n - 1);
    }
}

} // verus!
