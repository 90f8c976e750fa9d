//! What holds of the voice pool over a whole block.

use crate::config::{Config, StealRule};
use crate::cursor::{is_walk, law_a_stolen_voice_dies_in_its_block, Cursor};
use crate::pool::{
    are_victims, find_room, give_way, kept, law_the_ceiling_holds, scheduled, started, steal_keys,
    Voice,
};
use crate::voice::{SpawnCmd, ENV_DEAD};
use vstd::prelude::*;

verus! {

/// What a block's commands find room for is what admission counts, and what gives
/// way to them is what admission counts on: no more than a block may steal, nothing
/// where newcomers are dropped instead, and at least as many voices as start beyond
/// the free places.
pub proof fn law_the_pool_agrees_with_admission(cfg: Config, live: int, n: int)
    requires
        0 <= live <= cfg.max_voices,
        0 <= n,
    ensures
        ({
            let take = cfg.admit_count(live, n);
            let free = cfg.max_voices - live;
            &&& find_room(cfg, live, n) == take
            &&& give_way(cfg, live, n) == cfg.steal_need(live, n)
            &&& 0 <= take <= n
            &&& give_way(cfg, live, n) <= cfg.steal_cap()
            &&& give_way(cfg, live, n) >= take - (if n < free {
                n
            } else {
                free
            })
            &&& cfg.steal_rule == StealRule::DropNew ==> give_way(cfg, live, n) == 0
        }),
{
}

/// Who gives way: under `Quietest` no voice that gives way is louder than one that
/// stays, nor as loud and younger; under `Oldest` none is younger. Ids fit in 48
/// bits.
pub proof fn law_the_quietest_then_oldest_give_way(
    rule: StealRule,
    voices: Seq<Voice>,
    levels: Seq<u16>,
    need: int,
    victims: Seq<usize>,
    v: int,
    u: int,
)
    requires
        voices.len() == levels.len() <= usize::MAX,
        are_victims(steal_keys(rule, voices, levels), need, victims),
        0 <= v < voices.len(),
        0 <= u < voices.len(),
        victims.contains(v as usize),
        !victims.contains(u as usize),
        voices[v].note_id < 0x1_0000_0000_0000,
        voices[u].note_id < 0x1_0000_0000_0000,
    ensures
        rule == StealRule::Quietest ==> levels[v] < levels[u] || (levels[v] == levels[u]
            && voices[v].note_id <= voices[u].note_id),
        rule == StealRule::Oldest ==> voices[v].note_id <= voices[u].note_id,
{
    crate::pool::law_the_smallest_keys_give_way(
        steal_keys(rule, voices, levels),
        need,
        victims,
        v,
        u,
    );
}

/// The places a compaction keeps, among the first `n`, in order.
pub open spec fn kept_places(keep: Seq<bool>, n: int) -> Seq<int>
    decreases n,
{
    if n <= 0 {
        Seq::empty()
    } else if keep[n - 1] {
        kept_places(keep, n - 1).push(n - 1)
    } else {
        kept_places(keep, n - 1)
    }
}

/// A compaction keeps the marked voices, all of them, in their old order.
pub proof fn law_survivors_keep_their_order(voices: Seq<Voice>, keep: Seq<bool>, n: int)
    requires
        0 <= n <= voices.len(),
    ensures
        ({
            let p = kept_places(keep, n);
            &&& kept(voices, keep, n) == Seq::new(p.len(), |i: int| voices[p[i]])
            &&& forall|i: int| 0 <= i < p.len() ==> 0 <= #[trigger] p[i] < n && keep[p[i]]
            &&& forall|i: int, j: int| 0 <= i < j < p.len() ==> p[i] < p[j]
            &&& forall|k: int| 0 <= k < n && #[trigger] keep[k] ==> p.contains(k)
        }),
    decreases n,
{
    if n > 0 {
        law_survivors_keep_their_order(voices, keep, n - 1);
        let p = kept_places(keep, n);
        let q = kept_places(keep, n - 1);
        assert(kept(voices, keep, n) =~= Seq::new(p.len(), |i: int| voices[p[i]]));
        assert forall|k: int| 0 <= k < n && #[trigger] keep[k] implies p.contains(k) by {
            if k < n - 1 {
                assert(q.contains(k));
                let i = q.index_of(k);
                assert(p[i] == k);
            } else {
                assert(p[p.len() - 1] == k);
            }
        }
    }
}

/// Where `gone` names different places that are not kept, at most the other places
/// are.
proof fn lemma_kept_leaves_out(keep: Seq<bool>, n: int, gone: Seq<usize>)
    requires
        0 <= n,
        gone.no_duplicates(),
        forall|a: int| 0 <= a < gone.len() ==> (#[trigger] gone[a]) < n && !keep[gone[a] as int],
    ensures
        kept_places(keep, n).len() + gone.len() <= n,
    decreases n,
{
    if n == 0 {
        if gone.len() > 0 {
            assert(gone[0] < n);
        }
    } else {
        if exists|a: int| 0 <= a < gone.len() && gone[a] == n - 1 {
            let a = choose|a: int| 0 <= a < gone.len() && gone[a] == n - 1;
            let rest = gone.remove(a);
            assert(!keep[gone[a] as int]);
            assert forall|b: int| 0 <= b < rest.len() implies (#[trigger] rest[b]) < n - 1
                && !keep[rest[b] as int] by {
                let c = if b < a {
                    b
                } else {
                    b + 1
                };
                assert(rest[b] == gone[c]);
                assert(gone[c] != gone[a]);
            }
            assert(rest.no_duplicates()) by {
                assert forall|b: int, c: int|
                    0 <= b < rest.len() && 0 <= c < rest.len() && b != c implies rest[b]
                    != rest[c] by {
                    let x = if b < a {
                        b
                    } else {
                        b + 1
                    };
                    let y = if c < a {
                        c
                    } else {
                        c + 1
                    };
                    assert(rest[b] == gone[x] && rest[c] == gone[y]);
                }
            }
            lemma_kept_leaves_out(keep, n - 1, rest);
        } else {
            assert forall|b: int| 0 <= b < gone.len() implies (#[trigger] gone[b]) < n - 1
                && !keep[gone[b] as int] by {
                assert(gone[b] < n);
                assert(gone[b] != n - 1);
            }
            lemma_kept_leaves_out(keep, n - 1, gone);
        }
    }
}

/// Whether `w` is how a block leaves `v`: as the end of a way through it, or dead
/// from the start.
pub open spec fn rendered(v: Voice, w: Voice, cfg: Config) -> bool {
    ||| w == (Voice { env_stage: ENV_DEAD, ..v })
    ||| exists|walk: Seq<Cursor>, level: u32, z1: u32, z2: u32|
        #![trigger is_walk(walk, v, cfg), walk.last().ended(level, z1, z2)]
        is_walk(walk, v, cfg) && w == walk.last().ended(level, z1, z2)
}

/// Between blocks: every voice has started and none is being stolen.
pub open spec fn at_rest(voices: Seq<Voice>) -> bool {
    forall|i: int|
        0 <= i < voices.len() ==> (#[trigger] voices[i]).start_rel == 0 && voices[i].stop_rel == 0
}

/// The voices still alive.
pub open spec fn alive(voices: Seq<Voice>) -> Seq<bool> {
    Seq::new(voices.len(), |i: int| voices[i].env_stage != ENV_DEAD)
}

/// A block ends inside the ceiling. A pool at rest inside its ceiling takes in a
/// block's commands, however many, and renders the block; once the dead are
/// retired the pool is inside its ceiling again and at rest, and the survivors
/// stand in their old order. `taken` is the pool after the commands, `after` the
/// pool after the block.
pub proof fn law_a_block_ends_inside_the_ceiling(
    cfg: Config,
    before: Seq<Voice>,
    levels: Seq<u16>,
    victims: Seq<usize>,
    cmds: Seq<SpawnCmd>,
    taken: Seq<Voice>,
    after: Seq<Voice>,
)
    requires
        cfg.fault() is None,
        before.len() <= cfg.max_voices,
        before.len() <= usize::MAX,
        levels.len() == before.len(),
        at_rest(before),
        are_victims(
            steal_keys(cfg.steal_rule, before, levels),
            give_way(cfg, before.len() as int, cmds.len() as int),
            victims,
        ),
        taken == scheduled(before, victims, cfg.span_frames()) + started(
            cmds,
            find_room(cfg, before.len() as int, cmds.len() as int),
        ),
        after.len() == taken.len(),
        forall|i: int| 0 <= i < taken.len() ==> rendered(#[trigger] taken[i], after[i], cfg),
    ensures
        ({
            let left = kept(after, alive(after), after.len() as int);
            let p = kept_places(alive(after), after.len() as int);
            &&& left.len() <= cfg.max_voices
            &&& at_rest(left)
            &&& left == Seq::new(p.len(), |i: int| after[p[i]])
            &&& forall|i: int, j: int| 0 <= i < j < p.len() ==> p[i] < p[j]
            &&& forall|i: int| 0 <= i < left.len() ==> (#[trigger] left[i]).env_stage != ENV_DEAD
        }),
{
    let live = before.len() as int;
    let n = after.len() as int;
    let keep = alive(after);
    let p = kept_places(keep, n);
    law_the_ceiling_holds(cfg, live, cmds.len() as int);
    law_survivors_keep_their_order(after, keep, n);
    assert forall|a: int| 0 <= a < victims.len() implies (#[trigger] victims[a]) < n
        && !keep[victims[a] as int] by {
        let i = victims[a] as int;
        assert(0 <= i < live);
        assert(victims.contains(i as usize));
        let v = taken[i];
        assert(v == scheduled(before, victims, cfg.span_frames())[i]);
        assert(rendered(v, after[i], cfg));
        if after[i].env_stage != ENV_DEAD {
            let (walk, level, z1, z2) = choose|walk: Seq<Cursor>, level: u32, z1: u32, z2: u32|
                #![trigger is_walk(walk, v, cfg), walk.last().ended(level, z1, z2)]
                is_walk(walk, v, cfg) && after[i] == walk.last().ended(level, z1, z2);
            law_a_stolen_voice_dies_in_its_block(walk, v, cfg);
        }
    }
    lemma_kept_leaves_out(keep, n, victims);
    let left = kept(after, keep, n);
    assert forall|i: int| 0 <= i < left.len() implies (#[trigger] left[i]).start_rel == 0
        && left[i].stop_rel == 0 && left[i].env_stage != ENV_DEAD by {
        let k = p[i];
        assert(keep[k]);
        assert(left[i] == after[k]);
        assert(rendered(taken[k], after[k], cfg));
    }
}

} // verus!
