//! The compute passes of a block: which kernels run, on which buffers and on how
//! large a grid.
//!
//! One block is five passes: steal, spawn, render, reduce, compact. The live
//! count stays on the device, so the whole block is recorded at once.

use crate::config::Config;
use crate::gpu::{dispatch_count, grid, BlockPlan};
use vstd::prelude::*;

verus! {

/// One compute kernel.
#[derive(Debug, Clone, Copy, PartialEq, Eq, Structural)]
pub enum Kernel {
    SpawnMain,
    SpawnCommit,
    Render,
    RenderChan,
    Reduce,
    ScanLocal,
    ScanBlocks,
    Scatter,
    CompactCommit,
    MarkStolen,
    NoteStolen,
    SelClear,
    SelInit,
    SelHistogram,
    SelRefine,
    SortInit,
    SortAdvance,
    SortBuildKeys,
    SortScanLocal,
    SortScanBlocks,
    SortSplit,
    SortGather,
}

/// The shader and entry point of a kernel.
pub open spec fn entry_of(k: Kernel) -> (&'static str, &'static str) {
    match k {
        Kernel::SpawnMain => ("spawn", "main"),
        Kernel::SpawnCommit => ("spawn", "commit"),
        Kernel::Render => ("render", "main"),
        Kernel::RenderChan => ("render_chan", "main"),
        Kernel::Reduce => ("reduce", "main"),
        Kernel::ScanLocal => ("compact", "scan_local"),
        Kernel::ScanBlocks => ("compact", "scan_blocks"),
        Kernel::Scatter => ("compact", "scatter"),
        Kernel::CompactCommit => ("compact", "commit"),
        Kernel::MarkStolen => ("compact", "mark_stolen"),
        Kernel::NoteStolen => ("compact", "note_stolen"),
        Kernel::SelClear => ("select", "clear"),
        Kernel::SelInit => ("select", "init"),
        Kernel::SelHistogram => ("select", "histogram"),
        Kernel::SelRefine => ("select", "refine"),
        Kernel::SortInit => ("sort", "init"),
        Kernel::SortAdvance => ("sort", "advance_bit"),
        Kernel::SortBuildKeys => ("sort", "build_keys"),
        Kernel::SortScanLocal => ("sort", "scan_local"),
        Kernel::SortScanBlocks => ("sort", "scan_blocks"),
        Kernel::SortSplit => ("sort", "split"),
        Kernel::SortGather => ("sort", "gather"),
    }
}

/// The shader and entry point of a kernel.
pub fn kernel_entry(k: Kernel) -> (r: (&'static str, &'static str))
    ensures
        r == entry_of(k),
{
    match k {
        Kernel::SpawnMain => ("spawn", "main"),
        Kernel::SpawnCommit => ("spawn", "commit"),
        Kernel::Render => ("render", "main"),
        Kernel::RenderChan => ("render_chan", "main"),
        Kernel::Reduce => ("reduce", "main"),
        Kernel::ScanLocal => ("compact", "scan_local"),
        Kernel::ScanBlocks => ("compact", "scan_blocks"),
        Kernel::Scatter => ("compact", "scatter"),
        Kernel::CompactCommit => ("compact", "commit"),
        Kernel::MarkStolen => ("compact", "mark_stolen"),
        Kernel::NoteStolen => ("compact", "note_stolen"),
        Kernel::SelClear => ("select", "clear"),
        Kernel::SelInit => ("select", "init"),
        Kernel::SelHistogram => ("select", "histogram"),
        Kernel::SelRefine => ("select", "refine"),
        Kernel::SortInit => ("sort", "init"),
        Kernel::SortAdvance => ("sort", "advance_bit"),
        Kernel::SortBuildKeys => ("sort", "build_keys"),
        Kernel::SortScanLocal => ("sort", "scan_local"),
        Kernel::SortScanBlocks => ("sort", "scan_blocks"),
        Kernel::SortSplit => ("sort", "split"),
        Kernel::SortGather => ("sort", "gather"),
    }
}

/// A buffer of the device.
#[derive(Debug, Clone, Copy, PartialEq, Eq, Structural)]
pub enum Buf {
    Uniforms,
    Cmds,
    Pool,
    Params,
    Gates,
    Chan,
    /// One of the two voice buffers.
    Voices(u8),
    Partials,
    Out,
    State,
    Scan,
    BlockSums,
    Hist,
    SortKeys,
    /// One of the two buffers of sort pairs.
    Pairs(u8),
}

/// A set of buffers bound together.
#[derive(Debug, Clone, Copy, PartialEq, Eq, Structural)]
pub enum Group {
    Spawn,
    Render,
    Reduce,
    Compact,
    Select,
    /// By which of the two pair buffers holds the live pairs.
    Sort(u8),
}

/// The group a kernel's pipeline is laid out for. The two sort groups are laid out
/// alike, and the first stands for both.
pub open spec fn layout_of(k: Kernel) -> Group {
    match k {
        Kernel::SpawnMain | Kernel::SpawnCommit => Group::Spawn,
        Kernel::Render | Kernel::RenderChan => Group::Render,
        Kernel::Reduce => Group::Reduce,
        Kernel::ScanLocal
        | Kernel::ScanBlocks
        | Kernel::Scatter
        | Kernel::CompactCommit
        | Kernel::MarkStolen
        | Kernel::NoteStolen => Group::Compact,
        Kernel::SelClear | Kernel::SelInit | Kernel::SelHistogram | Kernel::SelRefine => {
            Group::Select
        },
        _ => Group::Sort(0),
    }
}

/// The group a kernel's pipeline is laid out for.
pub fn kernel_group(k: Kernel) -> (r: Group)
    ensures
        r == layout_of(k),
{
    match k {
        Kernel::SpawnMain | Kernel::SpawnCommit => Group::Spawn,
        Kernel::Render | Kernel::RenderChan => Group::Render,
        Kernel::Reduce => Group::Reduce,
        Kernel::ScanLocal
        | Kernel::ScanBlocks
        | Kernel::Scatter
        | Kernel::CompactCommit
        | Kernel::MarkStolen
        | Kernel::NoteStolen => Group::Compact,
        Kernel::SelClear | Kernel::SelInit | Kernel::SelHistogram | Kernel::SelRefine => {
            Group::Select
        },
        _ => Group::Sort(0),
    }
}

pub open spec fn other(p: u8) -> u8 {
    if p == 0 {
        1
    } else {
        0
    }
}

/// The buffers of a group, in binding order, when the live voices are in voice
/// buffer `parity`.
pub open spec fn bound(g: Group, parity: u8) -> Seq<Buf> {
    match g {
        Group::Spawn => seq![Buf::Uniforms, Buf::Cmds, Buf::Voices(parity), Buf::State],
        Group::Render => seq![
            Buf::Uniforms,
            Buf::Pool,
            Buf::Params,
            Buf::Gates,
            Buf::Voices(parity),
            Buf::Partials,
            Buf::State,
            Buf::Chan,
        ],
        Group::Reduce => seq![Buf::Uniforms, Buf::Partials, Buf::Out],
        Group::Compact => seq![
            Buf::Uniforms,
            Buf::Voices(parity),
            Buf::Voices(other(parity)),
            Buf::Scan,
            Buf::BlockSums,
            Buf::State,
            Buf::SortKeys,
        ],
        Group::Select => seq![Buf::Uniforms, Buf::Voices(parity), Buf::State, Buf::Hist],
        Group::Sort(pair) => seq![
            Buf::Uniforms,
            Buf::Pairs(pair),
            Buf::Pairs(other(pair)),
            Buf::Scan,
            Buf::BlockSums,
            Buf::State,
            Buf::Voices(parity),
            Buf::Voices(other(parity)),
        ],
    }
}

pub fn flip(p: u8) -> (r: u8)
    ensures
        r == other(p),
{
    if p == 0 {
        1
    } else {
        0
    }
}

/// The buffers of a group, in binding order.
pub fn bindings(g: Group, parity: u8) -> (r: Vec<Buf>)
    ensures
        r@ == bound(g, parity),
{
    let back: u8 = flip(parity);
    let v = match g {
        Group::Spawn => vec![Buf::Uniforms, Buf::Cmds, Buf::Voices(parity), Buf::State],
        Group::Render => vec![
            Buf::Uniforms,
            Buf::Pool,
            Buf::Params,
            Buf::Gates,
            Buf::Voices(parity),
            Buf::Partials,
            Buf::State,
            Buf::Chan,
        ],
        Group::Reduce => vec![Buf::Uniforms, Buf::Partials, Buf::Out],
        Group::Compact => vec![
            Buf::Uniforms,
            Buf::Voices(parity),
            Buf::Voices(back),
            Buf::Scan,
            Buf::BlockSums,
            Buf::State,
            Buf::SortKeys,
        ],
        Group::Select => vec![Buf::Uniforms, Buf::Voices(parity), Buf::State, Buf::Hist],
        Group::Sort(pair) => {
            let spare: u8 = flip(pair);
            vec![
                Buf::Uniforms,
                Buf::Pairs(pair),
                Buf::Pairs(spare),
                Buf::Scan,
                Buf::BlockSums,
                Buf::State,
                Buf::Voices(parity),
                Buf::Voices(back),
            ]
        },
    };
    assert(v@ =~= bound(g, parity));
    v
}

/// Which bindings of a group are read-only storage. The first is the uniform
/// block and counts as neither.
pub open spec fn read_only(g: Group) -> Seq<bool> {
    match g {
        Group::Spawn => seq![false, true, false, false],
        Group::Render => seq![false, true, true, true, false, false, true, true],
        Group::Reduce => seq![false, true, false],
        Group::Compact => seq![false, false, false, false, false, false, false],
        Group::Select => seq![false, true, false, false],
        Group::Sort(_) => seq![false, false, false, false, false, false, false, false],
    }
}

/// Which bindings of a group are read-only storage.
pub fn read_only_flags(g: Group) -> (r: Vec<bool>)
    ensures
        r@ == read_only(g),
        r@.len() == bound(g, 0).len(),
{
    let v = match g {
        Group::Spawn => vec![false, true, false, false],
        Group::Render => vec![false, true, true, true, false, false, true, true],
        Group::Reduce => vec![false, true, false],
        Group::Compact => vec![false, false, false, false, false, false, false],
        Group::Select => vec![false, true, false, false],
        Group::Sort(_) => vec![false, false, false, false, false, false, false, false],
    };
    assert(v@ =~= read_only(g));
    v
}

/// One dispatch: which pass it belongs to, what is bound, which kernel runs and
/// on how many workgroups.
#[derive(Debug, Clone, Copy, PartialEq, Eq, Structural)]
pub struct Step {
    pub pass: Pass,
    pub group: Group,
    pub kernel: Kernel,
    pub workgroups: u32,
}

/// The five passes of a block, in order. Each is begun in every block, so that
/// every timestamp is written.
#[derive(Debug, Clone, Copy, PartialEq, Eq, Structural)]
pub enum Pass {
    Steal,
    Spawn,
    Render,
    Reduce,
    Compact,
}

pub open spec fn at(pass: Pass, group: Group, kernel: Kernel, workgroups: u32) -> Step {
    Step { pass, group, kernel, workgroups }
}

/// One byte of the selection of the smallest keys.
pub open spec fn select_round(live_wgs: u32) -> Seq<Step> {
    seq![
        at(Pass::Steal, Group::Select, Kernel::SelClear, 1),
        at(Pass::Steal, Group::Select, Kernel::SelHistogram, live_wgs),
        at(Pass::Steal, Group::Select, Kernel::SelRefine, 1),
    ]
}

pub open spec fn select_rounds(live_wgs: u32, n: nat) -> Seq<Step>
    decreases n,
{
    if n == 0 {
        Seq::empty()
    } else {
        select_rounds(live_wgs, (n - 1) as nat) + select_round(live_wgs)
    }
}

/// The steal pass: nothing, or eight rounds of selection and the marking.
pub open spec fn steal_steps(steal_k: u32, live_wgs: u32) -> Seq<Step> {
    if steal_k == 0 {
        Seq::empty()
    } else {
        seq![at(Pass::Steal, Group::Select, Kernel::SelInit, 1)] + select_rounds(live_wgs, 8)
            + seq![
            at(Pass::Steal, Group::Compact, Kernel::MarkStolen, live_wgs),
            at(Pass::Steal, Group::Compact, Kernel::NoteStolen, 1),
        ]
    }
}

pub open spec fn spawn_steps(spawn_count: u32, spawn_wgs: u32) -> Seq<Step> {
    if spawn_count > 0 {
        seq![
            at(Pass::Spawn, Group::Spawn, Kernel::SpawnMain, spawn_wgs),
            at(Pass::Spawn, Group::Spawn, Kernel::SpawnCommit, 1),
        ]
    } else {
        seq![at(Pass::Spawn, Group::Spawn, Kernel::SpawnCommit, 1)]
    }
}

pub open spec fn render_steps(controls: bool, nwg: u32, block_frames: u32) -> Seq<Step> {
    seq![
        at(
            Pass::Render,
            Group::Render,
            if controls {
                Kernel::RenderChan
            } else {
                Kernel::Render
            },
            nwg,
        ),
        at(Pass::Reduce, Group::Reduce, Kernel::Reduce, (block_frames * 2) as u32),
    ]
}

/// Which pair buffer holds the live pairs after `n` rounds of the sort.
pub open spec fn pair_after(n: nat) -> u8 {
    if n % 2 == 0 {
        0
    } else {
        1
    }
}

/// One bit of the radix sort.
pub open spec fn sort_round(pair: u8, wgs: u32) -> Seq<Step> {
    seq![
        at(Pass::Compact, Group::Sort(pair), Kernel::SortScanLocal, wgs),
        at(Pass::Compact, Group::Sort(pair), Kernel::SortScanBlocks, 1),
        at(Pass::Compact, Group::Sort(pair), Kernel::SortSplit, wgs),
        at(Pass::Compact, Group::Sort(pair), Kernel::SortAdvance, 1),
    ]
}

pub open spec fn sort_rounds(wgs: u32, n: nat) -> Seq<Step>
    decreases n,
{
    if n == 0 {
        Seq::empty()
    } else {
        sort_rounds(wgs, (n - 1) as nat) + sort_round(pair_after((n - 1) as nat), wgs)
    }
}

/// The compact pass: count the survivors, then either sort them bit by bit and
/// gather, or scatter them as they are.
pub open spec fn compact_steps(sort: bool, bits: u32, wgs: u32) -> Seq<Step> {
    seq![
        at(Pass::Compact, Group::Compact, Kernel::ScanLocal, wgs),
        at(Pass::Compact, Group::Compact, Kernel::ScanBlocks, 1),
    ] + (if sort {
        seq![
            at(Pass::Compact, Group::Sort(0), Kernel::SortInit, 1),
            at(Pass::Compact, Group::Sort(0), Kernel::SortBuildKeys, wgs),
        ] + sort_rounds(wgs, bits as nat) + seq![
            at(Pass::Compact, Group::Sort(pair_after(bits as nat)), Kernel::SortGather, wgs),
        ]
    } else {
        seq![at(Pass::Compact, Group::Compact, Kernel::Scatter, wgs)]
    }) + seq![at(Pass::Compact, Group::Compact, Kernel::CompactCommit, 1)]
}

/// Every dispatch of a block.
pub open spec fn schedule_of(
    cfg: Config,
    live: u32,
    p: BlockPlan,
    nwg: u32,
    controls: bool,
    bits: u32,
) -> Seq<Step> {
    let live_wgs = grid(live, cfg.workgroup_size, cfg.max_pool_workgroups) as u32;
    let spawn_wgs = grid(p.spawn_count, cfg.workgroup_size, cfg.max_pool_workgroups) as u32;
    let all_wgs = grid(
        (live + p.spawn_count) as u32,
        cfg.workgroup_size,
        cfg.max_pool_workgroups,
    ) as u32;
    steal_steps(p.steal_k, live_wgs) + spawn_steps(p.spawn_count, spawn_wgs) + render_steps(
        controls,
        nwg,
        cfg.block_frames,
    ) + compact_steps(cfg.sort_voices, bits, all_wgs)
}

fn step(pass: Pass, group: Group, kernel: Kernel, workgroups: u32) -> (r: Step)
    ensures
        r == at(pass, group, kernel, workgroups),
{
    Step { pass, group, kernel, workgroups }
}

fn push_steal(out: &mut Vec<Step>, steal_k: u32, live_wgs: u32)
    ensures
        final(out)@ == old(out)@ + steal_steps(steal_k, live_wgs),
{
    let ghost o0 = out@;
    if steal_k == 0 {
        assert(out@ =~= o0 + steal_steps(steal_k, live_wgs));
        return;
    }
    out.push(step(Pass::Steal, Group::Select, Kernel::SelInit, 1));
    let ghost o1 = out@;
    assert(o1 =~= o0 + seq![at(Pass::Steal, Group::Select, Kernel::SelInit, 1)]);
    let mut i: u8 = 0;
    assert(out@ =~= o1 + select_rounds(live_wgs, 0));
    while i < 8
        invariant
            i <= 8,
            out@ == o1 + select_rounds(live_wgs, i as nat),
        decreases 8 - i,
    {
        let ghost b = out@;
        out.push(step(Pass::Steal, Group::Select, Kernel::SelClear, 1));
        out.push(step(Pass::Steal, Group::Select, Kernel::SelHistogram, live_wgs));
        out.push(step(Pass::Steal, Group::Select, Kernel::SelRefine, 1));
        assert(out@ =~= b + select_round(live_wgs));
        assert(out@ =~= o1 + select_rounds(live_wgs, (i + 1) as nat));
        i += 1;
    }
    out.push(step(Pass::Steal, Group::Compact, Kernel::MarkStolen, live_wgs));
    out.push(step(Pass::Steal, Group::Compact, Kernel::NoteStolen, 1));
    assert(out@ =~= o0 + steal_steps(steal_k, live_wgs));
}

fn push_compact(out: &mut Vec<Step>, sort: bool, bits: u32, wgs: u32)
    ensures
        final(out)@ == old(out)@ + compact_steps(sort, bits, wgs),
{
    let ghost o0 = out@;
    out.push(step(Pass::Compact, Group::Compact, Kernel::ScanLocal, wgs));
    out.push(step(Pass::Compact, Group::Compact, Kernel::ScanBlocks, 1));
    if sort {
        out.push(step(Pass::Compact, Group::Sort(0), Kernel::SortInit, 1));
        out.push(step(Pass::Compact, Group::Sort(0), Kernel::SortBuildKeys, wgs));
        let ghost o1 = out@;
        let mut i: u32 = 0;
        let mut pair: u8 = 0;
        assert(out@ =~= o1 + sort_rounds(wgs, 0));
        while i < bits
            invariant
                i <= bits,
                pair == pair_after(i as nat),
                out@ == o1 + sort_rounds(wgs, i as nat),
            decreases bits - i,
        {
            let ghost b = out@;
            out.push(step(Pass::Compact, Group::Sort(pair), Kernel::SortScanLocal, wgs));
            out.push(step(Pass::Compact, Group::Sort(pair), Kernel::SortScanBlocks, 1));
            out.push(step(Pass::Compact, Group::Sort(pair), Kernel::SortSplit, wgs));
            out.push(step(Pass::Compact, Group::Sort(pair), Kernel::SortAdvance, 1));
            assert(out@ =~= b + sort_round(pair, wgs));
            assert(out@ =~= o1 + sort_rounds(wgs, (i + 1) as nat));
            pair = flip(pair);
            i += 1;
        }
        out.push(step(Pass::Compact, Group::Sort(pair), Kernel::SortGather, wgs));
    } else {
        out.push(step(Pass::Compact, Group::Compact, Kernel::Scatter, wgs));
    }
    out.push(step(Pass::Compact, Group::Compact, Kernel::CompactCommit, 1));
    assert(out@ =~= o0 + compact_steps(sort, bits, wgs));
}

/// List every dispatch of a block, in order. The grid of the render pass is also
/// the stride of the partial buffer, so the caller passes the same number to the
/// uniforms.
pub fn schedule(
    cfg: &Config,
    live: u32,
    p: &BlockPlan,
    nwg: u32,
    controls: bool,
    bits: u32,
) -> (r: Vec<Step>)
    requires
        cfg.workgroup_size > 0,
        live + p.spawn_count <= u32::MAX,
        cfg.block_frames * 2 <= u32::MAX,
    ensures
        r@ == schedule_of(*cfg, live, *p, nwg, controls, bits),
{
    let live_wgs: u32 = dispatch_count(cfg, live);
    let spawn_wgs: u32 = dispatch_count(cfg, p.spawn_count);
    let all_wgs: u32 = dispatch_count(cfg, live + p.spawn_count);
    let mut out: Vec<Step> = Vec::new();
    push_steal(&mut out, p.steal_k, live_wgs);
    let ghost o1 = out@;
    assert(o1 =~= steal_steps(p.steal_k, live_wgs));
    if p.spawn_count > 0 {
        out.push(step(Pass::Spawn, Group::Spawn, Kernel::SpawnMain, spawn_wgs));
    }
    out.push(step(Pass::Spawn, Group::Spawn, Kernel::SpawnCommit, 1));
    let ghost o2 = out@;
    assert(o2 =~= o1 + spawn_steps(p.spawn_count, spawn_wgs));
    out.push(
        step(
            Pass::Render,
            Group::Render,
            if controls {
                Kernel::RenderChan
            } else {
                Kernel::Render
            },
            nwg,
        ),
    );
    out.push(step(Pass::Reduce, Group::Reduce, Kernel::Reduce, cfg.block_frames * 2));
    assert(out@ =~= o2 + render_steps(controls, nwg, cfg.block_frames));
    push_compact(&mut out, cfg.sort_voices, bits, all_wgs);
    out
}

/// The sort ends in the pair buffer its gather reads: every round reads the
/// buffer the round before it wrote.
pub proof fn law_sort_rounds_alternate(n: nat)
    ensures
        pair_after(n + 1) == other(pair_after(n)),
        pair_after(0) == 0,
{
}

/// A block that steals nothing dispatches no selection, and one without sorting
/// no sort kernels: seven dispatches are left, or eight with commands to start.
pub proof fn law_quiet_blocks_are_short(
    cfg: Config,
    live: u32,
    p: BlockPlan,
    nwg: u32,
    controls: bool,
    bits: u32,
)
    requires
        p.steal_k == 0,
        !cfg.sort_voices,
    ensures
        schedule_of(cfg, live, p, nwg, controls, bits).len() == if p.spawn_count > 0 {
            8int
        } else {
            7
        },
{
}

/// Whether a dispatch binds a group of the layout its kernel was made for.
pub open spec fn fits(s: Step) -> bool {
    s.group == layout_of(s.kernel) || (s.group is Sort && layout_of(s.kernel) is Sort)
}

spec fn all_fit(steps: Seq<Step>) -> bool {
    forall|i: int| 0 <= i < steps.len() ==> fits(#[trigger] steps[i])
}

proof fn lemma_fit_together(a: Seq<Step>, b: Seq<Step>)
    requires
        all_fit(a),
        all_fit(b),
    ensures
        all_fit(a + b),
{
}

proof fn lemma_rounds_fit(wgs: u32, n: nat)
    ensures
        all_fit(select_rounds(wgs, n)),
        all_fit(sort_rounds(wgs, n)),
    decreases n,
{
    if n > 0 {
        lemma_rounds_fit(wgs, (n - 1) as nat);
        lemma_fit_together(select_rounds(wgs, (n - 1) as nat), select_round(wgs));
        lemma_fit_together(
            sort_rounds(wgs, (n - 1) as nat),
            sort_round(pair_after((n - 1) as nat), wgs),
        );
    }
}

/// Every dispatch of a block binds buffers of the layout its kernel was made for.
pub proof fn law_dispatches_fit_their_kernels(
    cfg: Config,
    live: u32,
    p: BlockPlan,
    nwg: u32,
    controls: bool,
    bits: u32,
    i: int,
)
    requires
        0 <= i < schedule_of(cfg, live, p, nwg, controls, bits).len(),
    ensures
        ({
            let s = schedule_of(cfg, live, p, nwg, controls, bits)[i];
            &&& fits(s)
            &&& read_only(s.group) == read_only(layout_of(s.kernel))
            &&& bound(s.group, 0).len() == bound(layout_of(s.kernel), 0).len()
        }),
{
    let live_wgs = grid(live, cfg.workgroup_size, cfg.max_pool_workgroups) as u32;
    let spawn_wgs = grid(p.spawn_count, cfg.workgroup_size, cfg.max_pool_workgroups) as u32;
    let all_wgs = grid(
        (live + p.spawn_count) as u32,
        cfg.workgroup_size,
        cfg.max_pool_workgroups,
    ) as u32;
    lemma_rounds_fit(live_wgs, 8);
    lemma_rounds_fit(all_wgs, bits as nat);
    let a = steal_steps(p.steal_k, live_wgs);
    let b = spawn_steps(p.spawn_count, spawn_wgs);
    let c = render_steps(controls, nwg, cfg.block_frames);
    let d = compact_steps(cfg.sort_voices, bits, all_wgs);
    assert(all_fit(a));
    assert(all_fit(b));
    assert(all_fit(c));
    assert(all_fit(d));
    lemma_fit_together(a, b);
    lemma_fit_together(a + b, c);
    lemma_fit_together(a + b + c, d);
    assert(fits((a + b + c + d)[i]));
}

} // verus!
