//! The host voice pool: starting, stealing and retiring voices.

use crate::config::{Config, StealRule};
use crate::fixed::{Fixed, FIXED_ONE};
use crate::limiter::{block_peak, is_block_peak};
use crate::select::{select_top, Ranked};
use crate::voice::{pick, spawn_pick, SpawnCmd, ENV_ATTACK, ENV_DEAD};
use vstd::prelude::*;

verus! {

/// One sounding voice. Levels, gains and filter state are single-precision bit
/// patterns.
#[derive(Debug, Clone, Copy, PartialEq, Eq, Structural)]
pub struct Voice {
    pub phase: Fixed,
    pub step: Fixed,
    pub smp_base: u32,
    pub smp_len: u32,
    pub loop_start: u32,
    pub loop_end: u32,
    pub flags: u32,
    pub env_stage: u32,
    pub env_level: u32,
    pub gain_l: u32,
    pub gain_r: u32,
    pub filt_z1: u32,
    pub filt_z2: u32,
    pub params: u32,
    pub region: u32,
    pub gate_slot: u32,
    pub ordinal: u32,
    pub start_rel: u32,
    /// Variant the voice was born under, plus one, or zero once it has outlived
    /// the block it was born in.
    pub born_variant: u32,
    /// Frame in this block at which a stolen voice starts fading, plus one. Zero
    /// when the voice is not being stolen.
    pub stop_rel: u32,
    pub note_id: u64,
}

/// The voice a command starts: at the opening of its attack, silent.
pub open spec fn voice_for(c: SpawnCmd) -> Voice {
    Voice {
        phase: Fixed((c.phase_hi * FIXED_ONE + c.phase_lo) as u64),
        step: Fixed((c.step_hi * FIXED_ONE + c.step_lo) as u64),
        smp_base: c.smp_base,
        smp_len: c.smp_len,
        loop_start: c.loop_start,
        loop_end: c.loop_end,
        flags: c.flags,
        env_stage: ENV_ATTACK,
        env_level: 0,
        gain_l: c.gain_l,
        gain_r: c.gain_r,
        filt_z1: 0,
        filt_z2: 0,
        params: c.params,
        region: c.region,
        gate_slot: c.gate_slot,
        ordinal: c.ordinal,
        start_rel: c.start_rel,
        born_variant: (c.variant + 1) as u32,
        stop_rel: 0,
        note_id: (c.note_id_hi * FIXED_ONE + c.note_id_lo) as u64,
    }
}

/// The key stealing selects the smallest of: the note id by age, or the
/// quantised envelope level above the low 48 bits of the id.
pub open spec fn steal_key(rule: StealRule, id: u64, level_q: u16) -> u64 {
    if rule == StealRule::Quietest {
        (level_q * 0x1_0000_0000_0000 + id % 0x1_0000_0000_0000) as u64
    } else {
        id
    }
}

/// The keys of a pool, given each voice's envelope level in 16 bits.
pub open spec fn steal_keys(rule: StealRule, voices: Seq<Voice>, levels: Seq<u16>) -> Seq<u64> {
    Seq::new(voices.len(), |i: int| steal_key(rule, voices[i].note_id, levels[i]))
}

/// `victims` names `need` different places, none of which has a larger key than
/// any place it does not name.
pub open spec fn are_victims(keys: Seq<u64>, need: int, victims: Seq<usize>) -> bool {
    &&& victims.len() == need
    &&& victims.no_duplicates()
    &&& forall|a: int| 0 <= a < victims.len() ==> (#[trigger] victims[a]) < keys.len()
    &&& forall|a: int, u: int|
        0 <= a < victims.len() && 0 <= u < keys.len() && !victims.contains(u as usize) ==> keys[(
        #[trigger] victims[a]) as int] <= #[trigger] keys[u]
}

/// A pool place and how readily it gives way.
#[derive(Clone, Copy, PartialEq, Eq, Structural)]
struct Place {
    weight: u64,
    index: usize,
}

impl Ranked for Place {
    closed spec fn rank(&self) -> u64 {
        self.weight
    }

    fn rank_of(&self) -> (r: u64) {
        self.weight
    }
}

spec fn places(keys: Seq<u64>) -> Seq<Place> {
    Seq::new(keys.len(), |i: int| Place { weight: (u64::MAX - keys[i]) as u64, index: i as usize })
}

/// Choose the `need` places with the smallest keys.
pub fn choose_victims(keys: &Vec<u64>, need: usize) -> (victims: Vec<usize>)
    requires
        need <= keys@.len(),
    ensures
        are_victims(keys@, need as int, victims@),
{
    let n: usize = keys.len();
    let mut v: Vec<Place> = Vec::new();
    let mut i: usize = 0;
    while i < n
        invariant
            i <= n == keys@.len(),
            v@ == places(keys@).take(i as int),
        decreases n - i,
    {
        v.push(Place { weight: u64::MAX - keys[i], index: i });
        assert(v@ =~= places(keys@).take(i + 1));
        i += 1;
    }
    let ghost p = places(keys@);
    assert(p.take(n as int) =~= p);
    select_top(&mut v, 0, n, need);
    let ghost q = v@;
    proof {
        assert(p.no_duplicates());
        lemma_permutation(p, q);
    }
    let mut victims: Vec<usize> = Vec::new();
    let mut j: usize = 0;
    while j < need
        invariant
            j <= need <= n == q.len(),
            v@ == q,
            victims@ == Seq::new(j as nat, |a: int| q[a].index),
        decreases need - j,
    {
        victims.push(v[j].index);
        assert(victims@ =~= Seq::new((j + 1) as nat, |a: int| q[a].index));
        j += 1;
    }
    proof {
        let s = victims@;
        assert forall|a: int| 0 <= a < s.len() implies (#[trigger] s[a]) < n && q[a] == p[
        s[a] as int] by {
            assert(q.contains(q[a]));
            assert(p.contains(q[a]));
            let k = choose|k: int| 0 <= k < p.len() && p[k] == q[a];
            assert(p[k].index == k);
        }
        assert forall|a: int, b: int| 0 <= a < s.len() && 0 <= b < s.len() && a != b implies s[a]
            != s[b] by {
            assert(q[a] != q[b]);
            assert(q[a] == p[s[a] as int]);
            assert(q[b] == p[s[b] as int]);
        }
        assert forall|a: int, u: int|
            0 <= a < s.len() && 0 <= u < keys@.len() && !s.contains(u as usize) implies keys@[(
        #[trigger] s[a]) as int] <= #[trigger] keys@[u] by {
            assert(q.contains(p[u]));
            let k = choose|k: int| 0 <= k < q.len() && q[k] == p[u];
            if k < need {
                assert(s[k] == u as usize);
                assert(s.contains(u as usize));
            }
            assert(q[a].rank() >= q[k].rank());
            assert(q[a] == p[s[a] as int]);
        }
    }
    victims
}

/// A rearrangement of a sequence without duplicates has none either, and holds
/// the same elements.
proof fn lemma_permutation(p: Seq<Place>, q: Seq<Place>)
    requires
        p.no_duplicates(),
        p.to_multiset() == q.to_multiset(),
    ensures
        q.no_duplicates(),
        forall|x: Place| p.contains(x) <==> #[trigger] q.contains(x),
        p.len() == q.len(),
{
    p.to_multiset_ensures();
    q.to_multiset_ensures();
    p.lemma_multiset_has_no_duplicates();
    assert forall|x: Place| q.to_multiset().contains(x) implies q.to_multiset().count(x) == 1 by {
        assert(p.to_multiset().contains(x));
    }
    q.lemma_multiset_has_no_duplicates_conv();
    assert forall|x: Place| p.contains(x) <==> #[trigger] q.contains(x) by {
        vstd::seq_lib::to_multiset_contains(p, x);
        vstd::seq_lib::to_multiset_contains(q, x);
    }
}

/// Every named voice scheduled to fade out: from a frame derived from its own
/// note id, so a block's steals are spread across it.
pub open spec fn scheduled(voices: Seq<Voice>, victims: Seq<usize>, span: int) -> Seq<Voice> {
    Seq::new(
        voices.len(),
        |i: int|
            if victims.contains(i as usize) {
                Voice { stop_rel: stop_frame(voices[i].note_id, span), ..voices[i] }
            } else {
                voices[i]
            },
    )
}

/// The frame a stolen voice starts fading at, plus one.
pub open spec fn stop_frame(id: u64, span: int) -> u32 {
    ((id as int % 0x1_0000_0000) % span + 1) as u32
}

/// The voices of the commands that fit, picked evenly.
pub open spec fn started(cmds: Seq<SpawnCmd>, take: int) -> Seq<Voice> {
    Seq::new(take as nat, |i: int| voice_for(cmds[pick(i, cmds.len() as int, take)]))
}

/// What a block's commands do to the pool.
pub struct Pool {
    pub voices: Vec<Voice>,
    /// Voices killed to make room, over the whole render.
    pub stolen: u64,
    /// Commands that found no room.
    pub dropped: u64,
    /// Peak sample of the last block, before limiting; a bit pattern.
    pub peak: u32,
}

/// Voices that give way to `want` commands in a pool of `live`.
pub open spec fn give_way(cfg: Config, live: int, want: int) -> int {
    if live + want <= cfg.max_voices || cfg.steal_rule == StealRule::DropNew {
        0
    } else {
        let over = live + want - cfg.max_voices;
        let a = if over < live {
            over
        } else {
            live
        };
        if a < cfg.steal_cap() {
            a
        } else {
            cfg.steal_cap()
        }
    }
}

/// Commands that find room.
pub open spec fn find_room(cfg: Config, live: int, want: int) -> int {
    let room = cfg.max_voices - (live - give_way(cfg, live, want));
    if room <= 0 {
        0
    } else if want < room {
        want
    } else {
        room
    }
}

/// The voices that survive a compaction, among the first `n`.
pub open spec fn kept(voices: Seq<Voice>, keep: Seq<bool>, n: int) -> Seq<Voice>
    decreases n,
{
    if n <= 0 {
        Seq::empty()
    } else if keep[n - 1] {
        kept(voices, keep, n - 1).push(voices[n - 1])
    } else {
        kept(voices, keep, n - 1)
    }
}

proof fn lemma_kept_len(voices: Seq<Voice>, keep: Seq<bool>, n: int)
    requires
        0 <= n,
    ensures
        kept(voices, keep, n).len() <= n,
    decreases n,
{
    if n > 0 {
        lemma_kept_len(voices, keep, n - 1);
    }
}

impl Pool {
    pub fn new() -> (r: Pool)
        ensures
            r.voices@ == Seq::<Voice>::empty(),
            r.stolen == 0,
            r.dropped == 0,
            r.peak == 0,
    {
        Pool { voices: Vec::new(), stolen: 0, dropped: 0, peak: 0 }
    }

    pub fn len(&self) -> (r: usize)
        ensures
            r == self.voices@.len(),
    {
        self.voices.len()
    }

    /// Start a voice.
    pub fn push(&mut self, c: &SpawnCmd)
        requires
            c.variant < u32::MAX,
        ensures
            final(self).voices@ == old(self).voices@.push(voice_for(*c)),
            final(self).stolen == old(self).stolen,
            final(self).dropped == old(self).dropped,
            final(self).peak == old(self).peak,
    {
        let id = Fixed::from_parts(c.note_id_hi, c.note_id_lo);
        self.voices.push(
            Voice {
                phase: Fixed::from_parts(c.phase_hi, c.phase_lo),
                step: Fixed::from_parts(c.step_hi, c.step_lo),
                smp_base: c.smp_base,
                smp_len: c.smp_len,
                loop_start: c.loop_start,
                loop_end: c.loop_end,
                flags: c.flags,
                env_stage: ENV_ATTACK,
                env_level: 0,
                gain_l: c.gain_l,
                gain_r: c.gain_r,
                filt_z1: 0,
                filt_z2: 0,
                params: c.params,
                region: c.region,
                gate_slot: c.gate_slot,
                ordinal: c.ordinal,
                start_rel: c.start_rel,
                born_variant: c.variant + 1,
                stop_rel: 0,
                note_id: id.0,
            },
        );
    }

    /// Drop every voice from place `n` on.
    pub fn truncate(&mut self, n: usize)
        ensures
            final(self).voices@ == if n < old(self).voices@.len() {
                old(self).voices@.take(n as int)
            } else {
                old(self).voices@
            },
            final(self).stolen == old(self).stolen,
            final(self).dropped == old(self).dropped,
            final(self).peak == old(self).peak,
    {
        if n < self.voices.len() {
            self.voices.truncate(n);
            assert(self.voices@ =~= old(self).voices@.take(n as int));
        }
    }

    /// Keep the voices marked in `keep`, in order. Order is preserved so that
    /// behaviour does not depend on which voices happened to die.
    pub fn swap_remove_compact(&mut self, keep: &Vec<bool>)
        ensures
            final(self).voices@ == kept(old(self).voices@, keep@, if keep@.len()
                < old(self).voices@.len() {
                keep@.len() as int
            } else {
                old(self).voices@.len() as int
            }),
            final(self).stolen == old(self).stolen,
            final(self).dropped == old(self).dropped,
            final(self).peak == old(self).peak,
    {
        let ghost v0 = self.voices@;
        let len: usize = self.voices.len();
        let n: usize = if keep.len() < len {
            keep.len()
        } else {
            len
        };
        let mut w: usize = 0;
        let mut r: usize = 0;
        while r < n
            invariant
                w <= r <= n <= keep@.len(),
                n <= len == v0.len(),
                self.voices@.len() == len,
                self.stolen == old(self).stolen,
                self.dropped == old(self).dropped,
                self.peak == old(self).peak,
                self.voices@.take(w as int) == kept(v0, keep@, r as int),
                forall|i: int| r <= i < len ==> #[trigger] self.voices@[i] == v0[i],
            decreases n - r,
        {
            if keep[r] {
                let ghost before = self.voices@;
                let v = self.voices[r];
                self.voices[w] = v;
                assert(self.voices@.take(w + 1) =~= before.take(w as int).push(v));
                w += 1;
            }
            r += 1;
        }
        self.truncate(w);
        assert(self.voices@ =~= kept(v0, keep@, n as int));
    }

    /// Let the dead voices go.
    pub fn retire(&mut self)
        ensures
            final(self).voices@ == kept(
                old(self).voices@,
                Seq::new(
                    old(self).voices@.len(),
                    |i: int| old(self).voices@[i].env_stage != ENV_DEAD,
                ),
                old(self).voices@.len() as int,
            ),
            final(self).stolen == old(self).stolen,
            final(self).dropped == old(self).dropped,
            final(self).peak == old(self).peak,
    {
        let n: usize = self.voices.len();
        let mut keep: Vec<bool> = Vec::new();
        let mut i: usize = 0;
        while i < n
            invariant
                i <= n == self.voices@.len(),
                self.voices == old(self).voices,
                self.stolen == old(self).stolen,
                self.dropped == old(self).dropped,
                self.peak == old(self).peak,
                keep@ == Seq::new(i as nat, |k: int| self.voices@[k].env_stage != ENV_DEAD),
            decreases n - i,
        {
            keep.push(self.voices[i].env_stage != ENV_DEAD);
            i += 1;
        }
        self.swap_remove_compact(&keep);
    }

    /// End a block: let the dead voices go, and note the peak of what was mixed. The
    /// samples are bit patterns.
    pub fn finish_block(&mut self, out: &Vec<u32>)
        ensures
            final(self).voices@ == kept(
                old(self).voices@,
                Seq::new(
                    old(self).voices@.len(),
                    |i: int| old(self).voices@[i].env_stage != ENV_DEAD,
                ),
                old(self).voices@.len() as int,
            ),
            is_block_peak(final(self).peak, out@),
            final(self).stolen == old(self).stolen,
            final(self).dropped == old(self).dropped,
    {
        self.retire();
        self.peak = block_peak(out);
    }

    fn keys(&self, rule: StealRule, levels: &Vec<u16>) -> (r: Vec<u64>)
        requires
            levels@.len() == self.voices@.len(),
        ensures
            r@ == steal_keys(rule, self.voices@, levels@),
    {
        let n: usize = self.voices.len();
        let mut out: Vec<u64> = Vec::new();
        let mut i: usize = 0;
        while i < n
            invariant
                i <= n == self.voices@.len(),
                levels@.len() == n,
                out@ == steal_keys(rule, self.voices@, levels@).take(i as int),
            decreases n - i,
        {
            let id: u64 = self.voices[i].note_id;
            let k: u64 = if rule == StealRule::Quietest {
                levels[i] as u64 * 0x1_0000_0000_0000 + id % 0x1_0000_0000_0000
            } else {
                id
            };
            out.push(k);
            assert(out@ =~= steal_keys(rule, self.voices@, levels@).take(i + 1));
            i += 1;
        }
        assert(steal_keys(rule, self.voices@, levels@).take(n as int) =~= steal_keys(
            rule,
            self.voices@,
            levels@,
        ));
        out
    }

    fn schedule(&mut self, victims: &Vec<usize>, span: u32)
        requires
            span > 0,
            victims@.no_duplicates(),
            forall|a: int|
                0 <= a < victims@.len() ==> (#[trigger] victims@[a]) < old(self).voices@.len(),
        ensures
            final(self).voices@ == scheduled(old(self).voices@, victims@, span as int),
            final(self).stolen == old(self).stolen,
            final(self).dropped == old(self).dropped,
            final(self).peak == old(self).peak,
    {
        let ghost v0 = self.voices@;
        assert(self.voices.len() == v0.len());
        let n: usize = victims.len();
        let mut a: usize = 0;
        assert(self.voices@ =~= scheduled(v0, victims@.take(0), span as int));
        while a < n
            invariant
                a <= n == victims@.len(),
                v0.len() <= usize::MAX,
                span > 0,
                victims@.no_duplicates(),
                forall|k: int| 0 <= k < victims@.len() ==> (#[trigger] victims@[k]) < v0.len(),
                self.voices@ == scheduled(v0, victims@.take(a as int), span as int),
                self.stolen == old(self).stolen,
                self.dropped == old(self).dropped,
                self.peak == old(self).peak,
            decreases n - a,
        {
            let i: usize = victims[a];
            let mut v = self.voices[i];
            proof {
                if victims@.take(a as int).contains(i) {
                    let k = choose|k: int|
                        0 <= k < a && victims@.take(a as int)[k] == i;
                    assert(victims@[k] == victims@[a as int]);
                }
                assert(v == v0[i as int]);
            }
            let id: u32 = (v.note_id % 0x1_0000_0000) as u32;
            v.stop_rel = id % span + 1;
            self.voices[i] = v;
            proof {
                let t0 = victims@.take(a as int);
                let t1 = victims@.take(a + 1);
                assert(t1 =~= t0.push(i));
                assert forall|k: int| 0 <= k < v0.len() implies #[trigger] self.voices@[k]
                    == scheduled(v0, t1, span as int)[k] by {
                    if k != i {
                        assert(t1.contains(k as usize) == t0.contains(k as usize)) by {
                            if t1.contains(k as usize) {
                                let x = choose|x: int| 0 <= x < t1.len() && t1[x] == k as usize;
                                assert(t0[x] == k as usize);
                            }
                            if t0.contains(k as usize) {
                                let x = choose|x: int| 0 <= x < t0.len() && t0[x] == k as usize;
                                assert(t1[x] == k as usize);
                            }
                        }
                    } else {
                        assert(t1[a as int] == i);
                    }
                }
                assert(self.voices@ =~= scheduled(v0, t1, span as int));
            }
            a += 1;
        }
        assert(victims@.take(n as int) =~= victims@);
    }

    fn start(&mut self, cmds: &Vec<SpawnCmd>, take: usize)
        requires
            take <= cmds@.len() <= u32::MAX,
            forall|i: int| 0 <= i < cmds@.len() ==> (#[trigger] cmds@[i]).variant < u32::MAX,
        ensures
            final(self).voices@ == old(self).voices@ + started(cmds@, take as int),
            final(self).stolen == old(self).stolen,
            final(self).dropped == old(self).dropped,
            final(self).peak == old(self).peak,
    {
        let ghost v0 = self.voices@;
        let want: usize = cmds.len();
        let mut i: usize = 0;
        assert(self.voices@ =~= v0 + started(cmds@, take as int).take(0));
        while i < take
            invariant
                i <= take <= want == cmds@.len(),
                want <= u32::MAX,
                forall|k: int| 0 <= k < cmds@.len() ==> (#[trigger] cmds@[k]).variant < u32::MAX,
                self.voices@ == v0 + started(cmds@, take as int).take(i as int),
                self.stolen == old(self).stolen,
                self.dropped == old(self).dropped,
                self.peak == old(self).peak,
            decreases take - i,
        {
            assert(i * want <= 0xffff_ffff * 0xffff_ffff) by (nonlinear_arith)
                requires
                    0 <= i <= 0xffff_ffff,
                    0 <= want <= 0xffff_ffff,
            ;
            let p: usize = spawn_pick(i, want, take);
            let c = cmds[p];
            assert(c == cmds@[p as int]);
            self.push(&c);
            assert(self.voices@ =~= v0 + started(cmds@, take as int).take(i + 1));
            i += 1;
        }
        assert(started(cmds@, take as int).take(take as int) =~= started(cmds@, take as int));
    }

    /// Take in a block's commands. Where they do not fit beside the voices
    /// already sounding, either the newcomers are thinned evenly, or the voices
    /// with the smallest keys are scheduled to fade out first. `levels` is each
    /// voice's envelope level in 16 bits.
    pub fn spawn(&mut self, cfg: &Config, cmds: &Vec<SpawnCmd>, levels: &Vec<u16>)
        requires
            levels@.len() == old(self).voices@.len(),
            old(self).voices@.len() <= u32::MAX,
            cmds@.len() <= u32::MAX,
            forall|i: int| 0 <= i < cmds@.len() ==> (#[trigger] cmds@[i]).variant < u32::MAX,
            old(self).stolen + old(self).voices@.len() <= u64::MAX,
            old(self).dropped + cmds@.len() <= u64::MAX,
            cfg.steal_rule != StealRule::DropNew && old(self).voices@.len() + cmds@.len()
                > cfg.max_voices ==> old(self).voices@.len() - give_way(
                *cfg,
                old(self).voices@.len() as int,
                cmds@.len() as int,
            ) <= cfg.max_voices,
        ensures
            ({
                let live = old(self).voices@.len() as int;
                let want = cmds@.len() as int;
                let need = give_way(*cfg, live, want);
                let take = find_room(*cfg, live, want);
                let keys = steal_keys(cfg.steal_rule, old(self).voices@, levels@);
                &&& exists|victims: Seq<usize>|
                    #![trigger are_victims(keys, need, victims)]
                    are_victims(keys, need, victims) && final(self).voices@ == scheduled(
                        old(self).voices@,
                        victims,
                        cfg.span_frames(),
                    ) + started(cmds@, take)
                &&& final(self).voices@.len() == live + take
                &&& final(self).stolen == old(self).stolen + need
                &&& final(self).dropped == old(self).dropped + want - take
                &&& live <= cfg.max_voices ==> take == cfg.admit_count(live, want) && need
                    <= cfg.steal_cap() && need >= take - (if want < cfg.max_voices - live {
                    want
                } else {
                    cfg.max_voices - live
                })
                &&& cfg.steal_rule == StealRule::DropNew ==> need == 0
            }),
            final(self).peak == old(self).peak,
    {
        let ghost v0 = self.voices@;
        let cap: u64 = cfg.max_voices as u64;
        let live: u64 = self.voices.len() as u64;
        let want: u64 = cmds.len() as u64;
        let ghost keys = steal_keys(cfg.steal_rule, v0, levels@);
        let ghost need0 = give_way(*cfg, live as int, want as int);
        let mut need: u64 = 0;
        if live + want > cap && cfg.steal_rule != StealRule::DropNew {
            let over: u64 = live + want - cap;
            let a: u64 = if over < live {
                over
            } else {
                live
            };
            let m: u64 = cfg.max_steal() as u64;
            need = if a < m {
                a
            } else {
                m
            };
        }
        assert(need == need0);
        let ks = self.keys(cfg.steal_rule, levels);
        let victims = choose_victims(&ks, need as usize);
        let span: u32 = cfg.steal_span();
        self.schedule(&victims, span);
        self.stolen = self.stolen + need;
        let take: u64 = if live - need >= cap {
            0
        } else if want < cap - (live - need) {
            want
        } else {
            cap - (live - need)
        };
        assert(take == find_room(*cfg, live as int, want as int));
        self.dropped = self.dropped + (want - take);
        self.start(cmds, take as usize);
        assert(are_victims(keys, need as int, victims@));
    }
}

/// No voice that gives way has a larger key than one that stays.
pub proof fn law_the_smallest_keys_give_way(
    keys: Seq<u64>,
    need: int,
    victims: Seq<usize>,
    v: int,
    u: int,
)
    requires
        are_victims(keys, need, victims),
        0 <= v < keys.len() <= usize::MAX,
        0 <= u < keys.len(),
        victims.contains(v as usize),
        !victims.contains(u as usize),
    ensures
        keys[v] <= keys[u],
{
    let a = choose|a: int| 0 <= a < victims.len() && victims[a] == v as usize;
    assert(keys[victims[a] as int] <= keys[u]);
}

/// When no two keys are equal, which voices give way is settled: any two choices
/// name the same ones. The victims are a function of the pool, never of the
/// order of the work.
pub proof fn law_victims_are_unique(
    keys: Seq<u64>,
    need: int,
    a: Seq<usize>,
    b: Seq<usize>,
    i: usize,
)
    requires
        are_victims(keys, need, a),
        are_victims(keys, need, b),
        keys.len() <= usize::MAX,
        forall|x: int, y: int|
            0 <= x < y < keys.len() ==> #[trigger] keys[x] != #[trigger] keys[y],
        a.contains(i),
    ensures
        b.contains(i),
{
    if !b.contains(i) {
        // Some place is in b and not in a, or b would be no larger than a less i.
        let sa = a.to_set();
        let sb = b.to_set();
        a.unique_seq_to_set();
        b.unique_seq_to_set();
        vstd::seq_lib::seq_to_set_is_finite(a);
        vstd::seq_lib::seq_to_set_is_finite(b);
        if sb.subset_of(sa) {
            assert(sb.insert(i).subset_of(sa));
            vstd::set_lib::lemma_len_subset(sb.insert(i), sa);
            assert(false);
        }
        let j = choose|j: usize| sb.contains(j) && !sa.contains(j);
        assert(b.contains(j) && !a.contains(j));
        let x = choose|x: int| 0 <= x < a.len() && a[x] == i;
        let y = choose|y: int| 0 <= y < b.len() && b[y] == j;
        assert(a[x] == i && b[y] == j);
        assert(keys[a[x] as int] <= keys[j as int]);
        assert(keys[b[y] as int] <= keys[i as int]);
        assert(i != j);
    }
}

/// A quieter voice gives way before a louder one, whatever their age.
pub proof fn law_quietest_ranks_by_level(a: u64, b: u64, la: u16, lb: u16)
    requires
        la < lb,
    ensures
        steal_key(StealRule::Quietest, a, la) < steal_key(StealRule::Quietest, b, lb),
{
}

/// At the same level the older voice, the one with the smaller id, gives way;
/// and two voices with different ids never tie.
pub proof fn law_equal_levels_fall_back_to_age(a: u64, b: u64, level: u16)
    requires
        a < b,
        b < 0x1_0000_0000_0000,
    ensures
        steal_key(StealRule::Quietest, a, level) < steal_key(StealRule::Quietest, b, level),
        steal_key(StealRule::Oldest, a, level) < steal_key(StealRule::Oldest, b, level),
{
}

/// Once its victims have gone, a pool that was inside its ceiling is inside it
/// again, however many commands came.
pub proof fn law_the_ceiling_holds(cfg: Config, live: int, want: int)
    requires
        0 <= live <= cfg.max_voices,
        0 <= want,
    ensures
        live - give_way(cfg, live, want) + find_room(cfg, live, want) <= cfg.max_voices,
        0 <= give_way(cfg, live, want) <= live,
        give_way(cfg, live, want) <= cfg.steal_cap(),
        0 <= find_room(cfg, live, want) <= want,
{
}

/// The commands an admission lets through, the pool keeps in full: asked for as
/// many as admission counts, it turns none away.
pub proof fn law_pool_keeps_what_was_let_through(cfg: Config, live: int, queued: int)
    requires
        0 <= live <= u32::MAX,
        0 <= queued <= u32::MAX,
        cfg.admissible(live, queued),
    ensures
        find_room(cfg, live, cfg.admit_count(live, queued)) == cfg.admit_count(live, queued),
        give_way(cfg, live, cfg.admit_count(live, queued)) == cfg.steal_need(
            live,
            cfg.admit_count(live, queued),
        ),
{
}

/// When every command fits, they start in the order they came.
pub proof fn law_unthinned_commands_keep_their_order(cmds: Seq<SpawnCmd>, i: int)
    requires
        0 <= i < cmds.len(),
    ensures
        started(cmds, cmds.len() as int)[i] == voice_for(cmds[i]),
{
    let n = cmds.len() as int;
    vstd::arithmetic::div_mod::lemma_div_multiples_vanish(i, n);
    assert(n * i == i * n) by (nonlinear_arith);
}

/// Every voice that survives a compaction was there before, and is not dead.
pub proof fn law_survivors_were_there(voices: Seq<Voice>, keep: Seq<bool>, n: int, i: int)
    requires
        0 <= n <= voices.len(),
        0 <= i < kept(voices, keep, n).len(),
    ensures
        exists|k: int| i <= k < n && keep[k] && #[trigger] voices[k] == kept(voices, keep, n)[i],
    decreases n,
{
    lemma_kept_len(voices, keep, n - 1);
    if keep[n - 1] && i == kept(voices, keep, n).len() - 1 {
        assert(voices[n - 1] == kept(voices, keep, n)[i]);
    } else {
        law_survivors_were_there(voices, keep, n - 1, i);
        let k = choose|k: int|
            i <= k < n - 1 && keep[k] && #[trigger] voices[k] == kept(voices, keep, n - 1)[i];
        assert(voices[k] == kept(voices, keep, n)[i]);
    }
}

} // verus!
