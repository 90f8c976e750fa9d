//! Standard MIDI files, read as one stream of events in order of time.
//!
//! A file that breaks off in the middle of a track plays as far as it goes: a
//! track ends at its end mark, at its last byte, or at the first thing that is
//! no event.

use crate::controls::Event;
use vstd::prelude::*;

verus! {

/// The number in two bytes, high byte first.
pub open spec fn be16(b: Seq<u8>, i: int) -> u16 {
    (b[i] * 0x100 + b[i + 1]) as u16
}

/// The number in four bytes, high byte first.
pub open spec fn be32(b: Seq<u8>, i: int) -> u32 {
    (b[i] * 0x100_0000 + b[i + 1] * 0x1_0000 + b[i + 2] * 0x100 + b[i + 3]) as u32
}

/// Whether four bytes spell a tag.
pub open spec fn tagged(b: Seq<u8>, i: int, tag: [u8; 4]) -> bool {
    b[i] == tag@[0] && b[i + 1] == tag@[1] && b[i + 2] == tag@[2] && b[i + 3] == tag@[3]
}

pub const MTHD: [u8; 4] = [77, 84, 104, 100];

pub const MTRK: [u8; 4] = [77, 84, 114, 107];

pub const RIFF: [u8; 4] = [82, 73, 70, 70];

pub const RMID: [u8; 4] = [82, 77, 73, 68];

fn has_tag(b: &Vec<u8>, i: usize, tag: [u8; 4]) -> (r: bool)
    requires
        i + 4 <= b@.len(),
    ensures
        r == tagged(b@, i as int, tag),
{
    assert(b.len() == b@.len());
    b[i] == tag[0] && b[i + 1] == tag[1] && b[i + 2] == tag[2] && b[i + 3] == tag[3]
}

fn read16(b: &Vec<u8>, i: usize) -> (r: u16)
    requires
        i + 2 <= b@.len(),
    ensures
        r == be16(b@, i as int),
{
    assert(b.len() == b@.len());
    b[i] as u16 * 0x100 + b[i + 1] as u16
}

fn read32(b: &Vec<u8>, i: usize) -> (r: u32)
    requires
        i + 4 <= b@.len(),
    ensures
        r == be32(b@, i as int),
{
    assert(b.len() == b@.len());
    b[i] as u32 * 0x100_0000 + b[i + 1] as u32 * 0x1_0000 + b[i + 2] as u32 * 0x100 + b[i
        + 3] as u32
}

/// A number in seven-bit groups, `n` of which have been read into `acc`: its
/// value and where it ends. At most four bytes long.
pub open spec fn quantity_from(b: Seq<u8>, i: int, end: int, acc: int, n: int) -> Option<(int, int)>
    decreases 4 - n,
{
    if n >= 4 || i >= end {
        None
    } else if b[i] < 128 {
        Some((acc * 128 + b[i], i + 1))
    } else {
        quantity_from(b, i + 1, end, acc * 128 + b[i] % 128, n + 1)
    }
}

/// The number in seven-bit groups at a place.
pub open spec fn quantity(b: Seq<u8>, i: int, end: int) -> Option<(int, int)> {
    quantity_from(b, i, end, 0, 0)
}

fn read_quantity(b: &Vec<u8>, i: usize, end: usize) -> (r: Option<(u32, usize)>)
    requires
        i <= end <= b@.len(),
    ensures
        match r {
            Some(q) => quantity(b@, i as int, end as int) == Some((q.0 as int, q.1 as int)) && i
                < q.1 <= end && q.0 < 0x1000_0000,
            None => quantity(b@, i as int, end as int) is None,
        },
{
    let mut acc: u32 = 0;
    let mut n: u32 = 0;
    let mut p: usize = i;
    while n < 4 && p < end
        invariant
            n <= 4,
            i <= p <= end <= b@.len(),
            n == p - i,
            n == 0 ==> acc == 0,
            n == 1 ==> acc < 0x80,
            n == 2 ==> acc < 0x4000,
            n == 3 ==> acc < 0x20_0000,
            n == 4 ==> acc < 0x1000_0000,
            quantity_from(b@, p as int, end as int, acc as int, n as int) == quantity(
                b@,
                i as int,
                end as int,
            ),
        decreases 4 - n,
    {
        let x: u8 = b[p];
        if x < 128 {
            return Some((acc * 128 + x as u32, p + 1));
        }
        acc = acc * 128 + (x % 128) as u32;
        p += 1;
        n += 1;
    }
    None
}

/// The data bytes a channel message has.
pub open spec fn data_len(status: u8) -> int {
    if 0xc0 <= status < 0xe0 {
        1
    } else {
        2
    }
}

/// What a channel message says. A note-on without velocity is a note-off.
pub open spec fn channel_event(status: u8, a: u8, c: u8) -> Event {
    let ch = status % 16;
    if status < 0x90 {
        Event::NoteOff { ch, key: a }
    } else if status < 0xa0 {
        if c == 0 {
            Event::NoteOff { ch, key: a }
        } else {
            Event::NoteOn { ch, key: a, vel: c }
        }
    } else if status < 0xb0 {
        Event::Other
    } else if status < 0xc0 {
        Event::Cc { ch, num: a, val: c }
    } else if status < 0xd0 {
        Event::Program { ch, val: a }
    } else if status < 0xe0 {
        Event::Other
    } else {
        Event::PitchBend { ch, val: (c * 128 + a - 8192) as i16 }
    }
}

fn to_event(status: u8, a: u8, c: u8) -> (r: Event)
    requires
        a < 128,
        c < 128,
    ensures
        r == channel_event(status, a, c),
{
    let ch: u8 = status % 16;
    if status < 0x90 {
        Event::NoteOff { ch, key: a }
    } else if status < 0xa0 {
        if c == 0 {
            Event::NoteOff { ch, key: a }
        } else {
            Event::NoteOn { ch, key: a, vel: c }
        }
    } else if status < 0xb0 {
        Event::Other
    } else if status < 0xc0 {
        Event::Cc { ch, num: a, val: c }
    } else if status < 0xd0 {
        Event::Program { ch, val: a }
    } else if status < 0xe0 {
        Event::Other
    } else {
        Event::PitchBend { ch, val: c as i16 * 128 + a as i16 - 8192 }
    }
}

/// One message of a track.
pub struct Message {
    pub event: Event,
    /// Where the next one starts.
    pub next: usize,
    /// The status that following data bytes belong to.
    pub running: u8,
    /// The track's end mark.
    pub last: bool,
}

pub const META: u8 = 0xff;

pub const META_TEMPO: u8 = 0x51;

pub const META_END: u8 = 0x2f;

/// The message at a place, if there is a whole one.
pub open spec fn message_at(b: Seq<u8>, i: int, end: int, running: u8) -> Option<Message> {
    if i >= end {
        None
    } else {
        let status = if b[i] >= 128 {
            b[i]
        } else {
            running
        };
        let d = if b[i] >= 128 {
            i + 1
        } else {
            i
        };
        if status < 128 {
            None
        } else if status < 0xf0 {
            let n = data_len(status);
            if d + n > end {
                None
            } else {
                let c = if n == 2 {
                    b[d + 1] % 128
                } else {
                    0
                };
                Some(
                    Message {
                        event: channel_event(status, b[d] % 128, c),
                        next: (d + n) as usize,
                        running: status,
                        last: false,
                    },
                )
            }
        } else if status == META {
            if d >= end {
                None
            } else {
                match quantity(b, d + 1, end) {
                    None => None,
                    Some(q) => if q.1 + q.0 > end {
                        None
                    } else {
                        Some(
                            Message {
                                event: if b[d] == META_TEMPO && q.0 == 3 {
                                    Event::Tempo(
                                        (b[q.1] * 0x1_0000 + b[q.1 + 1] * 0x100 + b[q.1
                                            + 2]) as u32,
                                    )
                                } else {
                                    Event::Other
                                },
                                next: (q.1 + q.0) as usize,
                                running,
                                last: b[d] == META_END,
                            },
                        )
                    },
                }
            }
        } else if status == 0xf0 || status == 0xf7 {
            match quantity(b, d, end) {
                None => None,
                Some(q) => if q.1 + q.0 > end {
                    None
                } else {
                    Some(
                        Message {
                            event: Event::Other,
                            next: (q.1 + q.0) as usize,
                            running,
                            last: false,
                        },
                    )
                },
            }
        } else {
            Some(Message { event: Event::Other, next: d as usize, running, last: false })
        }
    }
}

fn read_message(b: &Vec<u8>, i: usize, end: usize, running: u8) -> (r: Option<Message>)
    requires
        i <= end <= b@.len(),
    ensures
        r == message_at(b@, i as int, end as int, running),
        r matches Some(m) ==> i <= m.next <= end,
{
    if i >= end {
        return None;
    }
    let x: u8 = b[i];
    let status: u8 = if x >= 128 {
        x
    } else {
        running
    };
    let d: usize = if x >= 128 {
        i + 1
    } else {
        i
    };
    if status < 128 {
        return None;
    }
    if status < 0xf0 {
        let n: usize = if 0xc0 <= status && status < 0xe0 {
            1
        } else {
            2
        };
        if n > end - d {
            return None;
        }
        let c: u8 = if n == 2 {
            b[d + 1] % 128
        } else {
            0
        };
        return Some(
            Message {
                event: to_event(status, b[d] % 128, c),
                next: d + n,
                running: status,
                last: false,
            },
        );
    }
    if status == META {
        if d >= end {
            return None;
        }
        return match read_quantity(b, d + 1, end) {
            None => None,
            Some(q) => {
                let len: usize = q.0 as usize;
                let p: usize = q.1;
                if len > end - p {
                    None
                } else {
                    let event = if b[d] == META_TEMPO && len == 3 {
                        Event::Tempo(
                            b[p] as u32 * 0x1_0000 + b[p + 1] as u32 * 0x100 + b[p + 2] as u32,
                        )
                    } else {
                        Event::Other
                    };
                    Some(Message { event, next: p + len, running, last: b[d] == META_END })
                }
            },
        };
    }
    if status == 0xf0 || status == 0xf7 {
        return match read_quantity(b, d, end) {
            None => None,
            Some(q) => {
                let len: usize = q.0 as usize;
                let p: usize = q.1;
                if len > end - p {
                    None
                } else {
                    Some(Message { event: Event::Other, next: p + len, running, last: false })
                }
            },
        };
    }
    Some(Message { event: Event::Other, next: d, running, last: false })
}

/// A track and the event it has next.
#[derive(Debug, Clone, Copy, PartialEq, Eq, Structural)]
pub struct Track {
    pub pos: usize,
    pub end: usize,
    /// When the next event is due.
    pub tick: u64,
    pub running: u8,
    pub next: Option<Event>,
}

/// Ticks add up and stop at the largest.
pub open spec fn later(tick: u64, delta: int) -> u64 {
    if tick + delta > u64::MAX {
        u64::MAX
    } else {
        (tick + delta) as u64
    }
}

impl Track {
    /// The track with its next event read.
    pub open spec fn advanced(self, b: Seq<u8>) -> Track {
        match quantity(b, self.pos as int, self.end as int) {
            None => Track { next: None, ..self },
            Some(q) => match message_at(b, q.1, self.end as int, self.running) {
                None => Track { next: None, ..self },
                Some(m) => if m.last {
                    Track { next: None, ..self }
                } else {
                    Track {
                        pos: m.next,
                        end: self.end,
                        tick: later(self.tick, q.0),
                        running: m.running,
                        next: Some(m.event),
                    }
                },
            },
        }
    }

    pub open spec fn wf(self, b: Seq<u8>) -> bool {
        self.pos <= self.end <= b.len()
    }

    fn advance(self, b: &Vec<u8>) -> (r: Track)
        requires
            self.wf(b@),
        ensures
            r == self.advanced(b@),
            r.wf(b@),
    {
        match read_quantity(b, self.pos, self.end) {
            None => Track { next: None, ..self },
            Some(q) => match read_message(b, q.1, self.end, self.running) {
                None => Track { next: None, ..self },
                Some(m) => if m.last {
                    Track { next: None, ..self }
                } else {
                    Track {
                        pos: m.next,
                        end: self.end,
                        tick: self.tick.saturating_add(q.0 as u64),
                        running: m.running,
                        next: Some(m.event),
                    }
                },
            },
        }
    }
}

/// A track that has not started.
pub open spec fn fresh(pos: int, end: int) -> Track {
    Track { pos: pos as usize, end: end as usize, tick: 0, running: 0, next: None }
}

/// The tracks in the chunks from `i` on. A chunk that claims more than is left
/// ends with the file.
pub open spec fn tracks_from(b: Seq<u8>, i: int) -> Seq<Track>
    decreases b.len() - i,
{
    if i + 8 > b.len() {
        Seq::empty()
    } else {
        let next = i + 8 + be32(b, i + 4);
        let end = if next > b.len() {
            b.len() as int
        } else {
            next
        };
        let rest = tracks_from(b, end);
        if tagged(b, i, MTRK) {
            seq![fresh(i + 8, end).advanced(b)] + rest
        } else {
            rest
        }
    }
}

/// Where the MIDI data starts: behind the wrapper, where there is one.
pub open spec fn midi_start(b: Seq<u8>) -> int {
    if b.len() >= 20 && tagged(b, 0, RIFF) && tagged(b, 8, RMID) {
        20
    } else {
        0
    }
}

/// The file starts with a header that is long enough.
pub open spec fn has_header(b: Seq<u8>) -> bool {
    let i = midi_start(b);
    i + 14 <= b.len() && tagged(b, i, MTHD) && be32(b, i + 4) >= 6
}

/// A MIDI file, as far as it has been read.
pub struct MidiStream {
    pub bytes: Vec<u8>,
    pub format: u16,
    /// Ticks per quarter note, or a frame rate where the top bit is set.
    pub division: u16,
    pub tracks: Vec<Track>,
}

/// The first of the first `n` tracks with the earliest event.
pub open spec fn earliest(tracks: Seq<Track>, n: int) -> Option<int>
    decreases n,
{
    if n <= 0 {
        None
    } else {
        let best = earliest(tracks, n - 1);
        if tracks[n - 1].next is None {
            best
        } else {
            match best {
                None => Some(n - 1),
                Some(k) => if tracks[n - 1].tick < tracks[k].tick {
                    Some(n - 1)
                } else {
                    best
                },
            }
        }
    }
}

proof fn lemma_earliest(tracks: Seq<Track>, n: int)
    requires
        0 <= n <= tracks.len(),
    ensures
        match earliest(tracks, n) {
            Some(k) => 0 <= k < n && tracks[k].next is Some && forall|i: int|
                0 <= i < n && (#[trigger] tracks[i]).next is Some ==> tracks[k].tick
                    <= tracks[i].tick,
            None => forall|i: int| 0 <= i < n ==> (#[trigger] tracks[i]).next is None,
        },
    decreases n,
{
    if n > 0 {
        lemma_earliest(tracks, n - 1);
    }
}

impl MidiStream {
    pub open spec fn wf(self) -> bool {
        forall|i: int| 0 <= i < self.tracks@.len() ==> (#[trigger] self.tracks@[i]).wf(self.bytes@)
    }

    /// Read a file's header and find its tracks. `None` where it is no MIDI
    /// file.
    pub fn open(bytes: Vec<u8>) -> (r: Option<MidiStream>)
        ensures
            r is Some <==> has_header(bytes@),
            r matches Some(s) ==> {
                let i = midi_start(bytes@);
                &&& s.wf()
                &&& s.bytes == bytes
                &&& s.format == be16(bytes@, i + 8)
                &&& s.division == be16(bytes@, i + 12)
                &&& s.tracks@ == tracks_from(bytes@, i + 8 + be32(bytes@, i + 4))
            },
    {
        let n: usize = bytes.len();
        let start: usize = if n >= 20 && has_tag(&bytes, 0, RIFF) && has_tag(&bytes, 8, RMID) {
            20
        } else {
            0
        };
        if n < start + 14 || !has_tag(&bytes, start, MTHD) {
            return None;
        }
        let len: u32 = read32(&bytes, start + 4);
        if len < 6 {
            return None;
        }
        let format: u16 = read16(&bytes, start + 8);
        let division: u16 = read16(&bytes, start + 12);
        let mut tracks: Vec<Track> = Vec::new();
        let ghost all = tracks_from(bytes@, start + 8 + len);
        let mut i: usize = if len as usize > n - (start + 8) {
            n
        } else {
            start + 8 + len as usize
        };
        while n - i >= 8
            invariant
                n == bytes@.len(),
                i <= n,
                tracks@ + tracks_from(bytes@, i as int) == all,
                forall|k: int| 0 <= k < tracks@.len() ==> (#[trigger] tracks@[k]).wf(bytes@),
            decreases n - i,
        {
            let size: u32 = read32(&bytes, i + 4);
            let body: usize = i + 8;
            let end: usize = if size as usize > n - body {
                n
            } else {
                body + size as usize
            };
            if has_tag(&bytes, i, MTRK) {
                let t = Track { pos: body, end, tick: 0, running: 0, next: None };
                let ghost before = tracks@;
                tracks.push(t.advance(&bytes));
                assert(tracks@ + tracks_from(bytes@, end as int) =~= before + tracks_from(
                    bytes@,
                    i as int,
                ));
            }
            i = end;
        }
        assert(tracks@ =~= all);
        Some(MidiStream { bytes, format, division, tracks })
    }

    /// How many tracks the file has.
    pub fn track_count(&self) -> (r: usize)
        ensures
            r == self.tracks@.len(),
    {
        self.tracks.len()
    }

    /// The next event and its tick, the first track first where several are due
    /// together. `None` once every track has ended.
    pub fn next(&mut self) -> (r: Option<(u64, Event)>)
        requires
            old(self).wf(),
        ensures
            final(self).wf(),
            final(self).bytes == old(self).bytes,
            final(self).format == old(self).format,
            final(self).division == old(self).division,
            match earliest(old(self).tracks@, old(self).tracks@.len() as int) {
                None => r is None && final(self).tracks@ == old(self).tracks@,
                Some(k) => {
                    let t = old(self).tracks@[k];
                    &&& r == Some((t.tick, t.next->Some_0))
                    &&& final(self).tracks@ == old(self).tracks@.update(
                        k,
                        t.advanced(old(self).bytes@),
                    )
                },
            },
    {
        let n: usize = self.tracks.len();
        let mut best: Option<usize> = None;
        let mut i: usize = 0;
        while i < n
            invariant
                i <= n == self.tracks@.len(),
                *self == *old(self),
                match best {
                    Some(k) => k < i && earliest(self.tracks@, i as int) == Some(k as int),
                    None => earliest(self.tracks@, i as int) is None,
                },
            decreases n - i,
        {
            let t = self.tracks[i];
            if t.next.is_some() {
                best = match best {
                    None => Some(i),
                    Some(k) => if t.tick < self.tracks[k].tick {
                        Some(i)
                    } else {
                        Some(k)
                    },
                };
            }
            i += 1;
        }
        proof {
            lemma_earliest(self.tracks@, n as int);
        }
        match best {
            None => None,
            Some(k) => {
                let t = self.tracks[k];
                let after = t.advance(&self.bytes);
                self.tracks.set(k, after);
                match t.next {
                    Some(ev) => Some((t.tick, ev)),
                    None => None,
                }
            },
        }
    }
}

/// Events come in order of time: whatever is next after one event is due no
/// earlier than that event.
pub proof fn law_time_never_runs_back(b: Seq<u8>, tracks: Seq<Track>, k: int, j: int)
    requires
        earliest(tracks, tracks.len() as int) == Some(k),
        earliest(tracks.update(k, tracks[k].advanced(b)), tracks.len() as int) == Some(j),
    ensures
        tracks.update(k, tracks[k].advanced(b))[j].tick >= tracks[k].tick,
{
    lemma_earliest(tracks, tracks.len() as int);
    let after = tracks.update(k, tracks[k].advanced(b));
    lemma_earliest(after, tracks.len() as int);
    if j == k {
        assert(later(tracks[k].tick, 0) <= tracks[k].advanced(b).tick) by {
            lemma_quantity_nonneg(b, tracks[k].pos as int, tracks[k].end as int, 0, 0);
        }
    } else {
        assert(after[j] == tracks[j]);
    }
}

proof fn lemma_quantity_nonneg(b: Seq<u8>, i: int, end: int, acc: int, n: int)
    requires
        0 <= acc,
    ensures
        quantity_from(b, i, end, acc, n) matches Some(q) ==> q.0 >= 0,
    decreases 4 - n,
{
    if n < 4 && i < end && b[i] >= 128 {
        lemma_quantity_nonneg(b, i + 1, end, acc * 128 + b[i] % 128, n + 1);
    }
}

/// The keys and velocities of a stream are MIDI data bytes.
pub proof fn law_events_are_in_range(b: Seq<u8>, t: Track)
    ensures
        t.advanced(b).next matches Some(Event::NoteOn { ch, key, vel }) ==> ch < 16 && key < 128
            && 0 < vel < 128,
        t.advanced(b).next matches Some(Event::Cc { ch, num, val }) ==> ch < 16 && num < 128 && val
            < 128,
{
}

} // verus!
