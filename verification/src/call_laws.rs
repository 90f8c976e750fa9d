//! What the small calls give back, whatever they are asked.

use crate::channels::ChannelTable;
use crate::config::{Config, Interpolation};
use crate::controls::ChannelState;
use crate::cursor::{Cursor, Taps};
use crate::driver::{Driver, Refresh};
use crate::fixed::Fixed;
use crate::gates::GateTable;
use crate::gpu::{elapsed_ticks, pick_adapter, read_state, AdapterKind, DeviceState};
use crate::limiter::{block_peak, first_non_finite, is_first_bad};
use crate::midi::{be32, has_header, midi_start, tracks_from, MidiStream};
use crate::sfz::{file_loop, may_nest, used_channels, SfzError};
use crate::text::{same_text, spells};
use crate::upload::{variant_offset, VariantError};
use crate::variants::VariantTable;
use crate::wav::{take_channel, SampleFormat, WavWriter};
use vstd::prelude::*;

verus! {

/// Files may ask for each other sixteen deep.
pub proof fn law_how_deep_files_nest(depth: u32, r: Result<(), SfzError>)
    requires
        call_ensures(may_nest, (depth,), r),
    ensures
        r is Ok <==> depth <= 16,
        depth > 16 ==> r == Err::<(), SfzError>(SfzError::NestedTooDeep),
{
}

/// Two channels of a sample are heard at most, and one at least.
pub proof fn law_channels_that_are_heard(channels: u16, r: usize)
    requires
        call_ensures(used_channels, (channels,), r),
    ensures
        channels <= 1 ==> r == 1,
        channels >= 2 ==> r == 2,
{
}

/// A sample loops as its file says, or over all of it but its last frame.
pub proof fn law_a_file_names_its_loop(points: Option<(u32, u32)>, len: u32, r: (u32, u32))
    requires
        call_ensures(file_loop, (points, len), r),
    ensures
        points matches Some(p) ==> r == p,
        points is None && len > 0 ==> r.0 == 0 && r.1 + 1 == len,
        points is None && len == 0 ==> r.0 == 0 && r.1 == 0,
{
}

/// Better interpolation reads more samples: one, two or four.
pub proof fn law_samples_an_interpolation_reads(i: Interpolation, n: u32)
    requires
        call_ensures(Interpolation::taps, (i,), n),
    ensures
        i == Interpolation::Nearest <==> n == 1,
        i == Interpolation::Linear <==> n == 2,
        i == Interpolation::Cubic <==> n == 4,
{
}

/// The slots of the pool are its ceiling and what one block may steal of it.
pub proof fn law_slots_of_the_pool(cfg: Config, r: u32)
    requires
        call_ensures(Config::pool_slots, (&cfg,), r),
        cfg.max_voices <= 0x7fff_ffff,
        cfg.steal_cap() <= 0x7fff_ffff,
        cfg.steal_cap() >= 0,
    ensures
        r - cfg.max_voices == cfg.steal_cap(),
{
}

/// A block is its frames on every channel, four bytes each.
pub proof fn law_size_of_a_block(cfg: Config, bytes: u64, samples: usize)
    requires
        call_ensures(Config::block_bytes, (&cfg,), bytes),
        call_ensures(Config::block_samples, (&cfg,), samples),
    ensures
        bytes == 4 * samples,
        cfg.channels == 2 ==> samples == cfg.block_frames + cfg.block_frames,
{
}

/// A channel is centred at the middle of its pan and nowhere else, has vibrato
/// while its wheel is up and its depth is not off, and tremolo while that is up.
pub proof fn law_what_a_channel_has(s: ChannelState, centred: bool, vibrato: bool, tremolo: bool)
    requires
        call_ensures(ChannelState::centred, (&s,), centred),
        call_ensures(ChannelState::has_vibrato, (&s,), vibrato),
        call_ensures(ChannelState::has_tremolo, (&s,), tremolo),
    ensures
        centred <==> s.pan == 64 && s.lsb_pan == 0,
        s.modulation == 0 && s.lsb_mod == 0 ==> !vibrato,
        s.vib_depth == 0 ==> !vibrato,
        (s.modulation > 0 || s.lsb_mod > 0) && s.vib_depth > 0 ==> vibrato,
        tremolo <==> s.tremolo != 0,
{
}

/// A frame between samples reads the one it stands on, the next one towards which
/// it leans, and for a cubic curve one more on either side; the nearest reads one
/// alone.
pub proof fn law_what_a_frame_reads(c: Cursor, i: Interpolation, t: Taps)
    requires
        call_ensures(Cursor::taps, (&c, i, false), t),
        c.voice.smp_len > 0,
        c.phase.whole() < c.voice.smp_len,
    ensures
        t.at == c.phase.0 as int / 0x1_0000_0000,
        i == Interpolation::Nearest ==> t.next == t.at && t.before == t.at && t.after == t.at,
        i != Interpolation::Nearest && t.at + 1 < c.voice.smp_len ==> t.next == t.at + 1,
        i == Interpolation::Linear ==> t.before == t.at && t.after == t.next,
        i == Interpolation::Cubic && t.at > 0 ==> t.before == t.at - 1,
        i == Interpolation::Cubic && t.at + 2 < c.voice.smp_len ==> t.after == t.at + 2,
{
}

/// In a loop the frame before its end leans towards its start.
pub proof fn law_what_a_looping_frame_reads(c: Cursor, i: Interpolation, t: Taps)
    requires
        call_ensures(Cursor::taps, (&c, i, true), t),
        c.voice.loop_start + 1 < c.voice.loop_end,
        c.phase.whole() < c.voice.loop_end,
        i != Interpolation::Nearest,
    ensures
        t.at + 1 < c.voice.loop_end ==> t.next == t.at + 1,
        t.at + 1 == c.voice.loop_end ==> t.next == c.voice.loop_start,
        i == Interpolation::Cubic && t.at + 1 == c.voice.loop_end ==> t.after == c.voice.loop_start
            + 1,
{
    crate::cursor_laws::law_neighbours_are_the_next_frames(
        t.at,
        c.voice.loop_start,
        c.voice.loop_end,
        1,
    );
}

/// A time is what lies between, and none where the clock went back.
pub proof fn law_time_between(begin: u64, end: u64, r: u64)
    requires
        call_ensures(elapsed_ticks, (begin, end), r),
    ensures
        begin <= end ==> begin + r == end,
        begin > end ==> r == 0,
{
}

/// A state is read from sixteen words and from no fewer.
pub proof fn law_a_state_is_whole(words: Vec<u32>, max: u32, r: Option<DeviceState>)
    requires
        call_ensures(read_state, (&words, max), r),
    ensures
        r is Some <==> words@.len() >= 16,
        r matches Some(d) ==> d.live <= max && d.stolen == words@[8] && d.overflow == words@[9],
{
}

/// A discrete adapter is chosen over all others, and among equals the first.
pub proof fn law_which_adapter_is_chosen(kinds: Vec<AdapterKind>, r: Option<usize>, k: int)
    requires
        call_ensures(pick_adapter, (&kinds,), r),
        0 <= k < kinds@.len(),
    ensures
        r matches Some(i) && {
            &&& i < kinds@.len()
            &&& kinds@[k] == AdapterKind::Discrete ==> kinds@[i as int] == AdapterKind::Discrete
            &&& kinds@[k] == AdapterKind::Integrated ==> kinds@[i as int] != AdapterKind::Other
            &&& kinds@[k] == kinds@[i as int] ==> i <= k
        },
{
    let x = kinds@[k];
}

/// A copy of the constants goes behind those before it, each of its full size; one
/// of another length, or past the last, goes nowhere.
pub proof fn law_where_a_copy_goes(
    cfg: Config,
    per: u32,
    index: u32,
    len: usize,
    r: Result<u64, VariantError>,
)
    requires
        call_ensures(variant_offset, (&cfg, per, index, len), r),
        index * per * 48 <= u64::MAX,
    ensures
        len != per ==> r == Err::<u64, VariantError>(VariantError::WrongLength),
        len == per && index >= cfg.max_param_variants && index > 0 ==> r == Err::<
            u64,
            VariantError,
        >(VariantError::PastMaximum),
        len == per && index < cfg.max_param_variants ==> r == Ok::<u64, VariantError>(
            (index * per * 48) as u64,
        ),
{
    assert(index * per * 48 >= 0) by (nonlinear_arith);
}

/// A phase taken apart and put together is itself; whole samples have no
/// fraction; adding goes round at the end; and a factor of one half halves.
pub proof fn law_phases(x: Fixed, hi: u32, lo: u32, back: Fixed, n: u32, whole: Fixed, half: Fixed)
    requires
        call_ensures(Fixed::hi, (x,), hi),
        call_ensures(Fixed::lo, (x,), lo),
        call_ensures(Fixed::from_parts, (hi, lo), back),
        call_ensures(Fixed::from_int, (n,), whole),
        call_ensures(Fixed::scale, (x, 0x80_0000u32), half),
    ensures
        back.0 == x.0,
        hi * 0x1_0000_0000 + lo == x.0,
        whole.0 == n * 0x1_0000_0000,
        half.0 == x.0 / 2,
{
}

/// Two texts are the same where they have the same letters in the same places.
pub proof fn law_same_texts(a: Vec<char>, b: Vec<char>, same: bool, i: int)
    requires
        call_ensures(same_text, (&a, &b), same),
    ensures
        same ==> a@.len() == b@.len(),
        same && 0 <= i < a@.len() ==> a@[i] == b@[i],
        !same ==> a@ != b@,
{
}

/// The first sample that is no finite number is found, and none where all are.
pub proof fn law_the_first_bad_sample(buf: Vec<u32>, r: Option<usize>, i: int)
    requires
        call_ensures(first_non_finite, (&buf,), r),
        0 <= i < buf@.len(),
    ensures
        r is None ==> buf@[i] < 0x7f80_0000 || 0x8000_0000 <= buf@[i] < 0xff80_0000,
        r matches Some(k) ==> {
            &&& k < buf@.len()
            &&& i < k ==> buf@[i] < 0x7f80_0000 || 0x8000_0000 <= buf@[i] < 0xff80_0000
            &&& 0x7f80_0000 <= buf@[k as int] < 0x8000_0000 || buf@[k as int] >= 0xff80_0000
        },
{
    assert(is_first_bad(r, buf@));
    let x = buf@[i];
}

/// No sample of a block is above its peak, and its peak is one of them.
pub proof fn law_the_peak_of_a_block(buf: Vec<u32>, p: u32, i: int)
    requires
        call_ensures(block_peak, (&buf,), p),
        0 <= i < buf@.len(),
    ensures
        buf@[i] <= 0x7f80_0000 ==> buf@[i] <= p,
        0x8000_0000 <= buf@[i] <= 0xff80_0000 ==> buf@[i] - 0x8000_0000 <= p,
        p > 0 ==> exists|k: int|
            0 <= k < buf@.len() && (#[trigger] buf@[k] == p || buf@[k] == p + 0x8000_0000),
{
    let x = buf@[i];
    if p > 0 {
        let k = choose|k: int|
            0 <= k < buf@.len() && !crate::fbits::is_nan32(#[trigger] buf@[k])
                && crate::fbits::mag32(buf@[k]) == p;
        assert(buf@[k] == p || buf@[k] == p + 0x8000_0000);
    }
}

/// The frames written are the bytes of them shared out over channels and samples.
pub proof fn law_frames_written(w: WavWriter, r: u64)
    requires
        call_ensures(WavWriter::frames_written, (&w,), r),
        w.channels > 0,
    ensures
        w.format == SampleFormat::Pcm16 ==> r * (2 * w.channels) <= w.data_bytes < (r + 1) * (2
            * w.channels),
        w.format == SampleFormat::Float32 ==> r * (4 * w.channels) <= w.data_bytes < (r + 1) * (4
            * w.channels),
{
    let a = crate::wav::block_align(w.channels, w.format);
    let n = w.data_bytes as int;
    assert(a == w.channels * w.format.size());
    assert(w.format.size() == 2 || w.format.size() == 4);
    assert(a > 0);
    vstd::arithmetic::div_mod::lemma_fundamental_div_mod(n, a);
    vstd::arithmetic::div_mod::lemma_mod_bound(n, a);
    assert(r * a == a * r && (r + 1) * a == a * r + a) by (nonlinear_arith);
}

/// A channel of an interleaved run is every sample of its own, in order; a channel
/// past the last is the last.
pub proof fn law_one_channel_of_many(v: Vec<i16>, channels: u16, ch: usize, r: Vec<i16>, i: int)
    requires
        call_ensures(take_channel::<i16>, (&v, channels, ch), r),
        channels > 0,
        0 <= i < r@.len(),
    ensures
        ch < channels ==> r@[i] == v@[ch + i * channels],
        ch >= channels ==> r@[i] == v@[channels - 1 + i * channels],
{
}

/// The channel of a slot is the channel it was made for.
pub proof fn law_a_slot_names_its_channel(ch: u8, key: u8, r: usize)
    requires
        ch < 16,
        key < 128,
        call_ensures(ChannelTable::channel_of, ((ch * 128 + key) as u32,), r),
    ensures
        r == ch,
{
}

/// A channel's gains are worked out at the start where its volume is not full.
pub proof fn law_what_opens_a_render(d: Driver, bank: crate::bank::Bank, ch: u8, r: Refresh)
    requires
        call_ensures(Driver::opening, (&d, &bank, ch), r),
        ch < 16,
    ensures
        r.ch == ch && r.rel == 0 && !r.bend,
        r.gain <==> d.channels@[ch as int].volume != 127,
{
}

/// The constants are read again in a block exactly where a channel's row or a new
/// voice is on another copy.
pub proof fn law_when_copies_are_watched(d: Driver, r: bool)
    requires
        call_ensures(Driver::watches_variants, (&d,), r),
    ensures
        r <==> d.chan.variants || d.spawn_variants,
{
}

/// A note is released once its key has published as many note-offs as its ordinal.
pub proof fn law_when_a_note_is_released(g: GateTable, slot: u32, ordinal: u32, r: bool)
    requires
        call_ensures(GateTable::released, (&g, slot, ordinal), r),
        slot < 2048,
    ensures
        r <==> g.slots@[slot as int].off >= ordinal,
{
}

/// The copies beyond the bank's own.
pub proof fn law_copies_beyond_the_first(v: VariantTable, r: u32)
    requires
        call_ensures(VariantTable::param_variants, (&v,), r),
    ensures
        r + 1 == v.states@.len(),
{
}

/// A file opens where it has a header, with the format and the division its header
/// gives and the tracks of the chunks behind it, however long the header is.
pub proof fn law_what_opening_a_file_gives(bytes: Vec<u8>, r: Option<MidiStream>)
    requires
        call_ensures(MidiStream::open, (bytes,), r),
    ensures
        r is Some <==> has_header(bytes@),
        r matches Some(s) ==> {
            let b = bytes@;
            let i = midi_start(b);
            &&& s.format == b[i + 8] * 256 + b[i + 9]
            &&& s.division == b[i + 12] * 256 + b[i + 13]
            &&& s.tracks@ == tracks_from(b, i + 8 + be32(b, i + 4))
            &&& s.bytes@ == b
        },
{
}

/// A word is spelled where every letter of it is.
pub proof fn law_spelled_words(v: Vec<char>, word: &str, r: bool)
    requires
        call_ensures(spells, (&v, word), r),
    ensures
        r ==> v@.len() == word@.len(),
        r <==> v@ =~= word@,
{
}

} // verus!
