use kestrel::bank::{Bank, Region, RegionParams, SampleInfo};
use kestrel::config::{AdmitRule, Config, ConfigError};
use kestrel::gpu::{
    choose_spawns, dispatch_count, elapsed_ticks, grow_cmds, pick_adapter, plan, plan_block,
    read_state, render_workgroups, AdapterKind, DeviceLimits, GpuError, Session, SortKeyLayout,
};
use kestrel::passes::{
    bindings, kernel_entry, kernel_group, read_only_flags, schedule, Buf, Group, Kernel, Pass,
};
use kestrel::shaders::{replace_all, shader_source, substitute, to_decimal, with_controls};
use kestrel::upload::{
    initial_params, pad_pool, pool_bytes, read_words, row_bytes, spawn_bytes, table_bytes,
    uniform_bytes, variant_offset, BlockUniforms, VariantError,
};
use kestrel::voice::SpawnCmd;

fn limits() -> DeviceLimits {
    DeviceLimits {
        max_compute_workgroup_storage_size: 49152,
        max_storage_buffer_binding_size: 1 << 30,
        max_buffer_size: 1 << 30,
    }
}

fn bank(regions: usize, len: u32) -> Bank {
    Bank {
        pool: Vec::new(),
        pool_rate: 0,
        samples: vec![SampleInfo {
            start: 0,
            len,
            loop_start: 0,
            loop_end: 0,
            rate: 48000,
            root_key: 60,
            correction_cents: 0,
            resample_ratio: 1.0f32.to_bits(),
            name: String::new(),
        }],
        regions: vec![Region::default(); regions],
        params: Vec::new(),
        presets: Vec::new(),
        index: Vec::new(),
        name: String::new(),
        math: Vec::new(),
        key_ok: Vec::new(),
    }
}

fn words(v: &[u32]) -> Vec<u8> {
    v.iter().flat_map(|w| w.to_ne_bytes()).collect()
}

#[test]
fn the_sort_key_is_packed_tightly() {
    let k = SortKeyLayout::plan(&bank(1000, 100_000));
    // Ten bits of region, three of stage, seventeen of phase.
    assert_eq!((k.bits, k.region_shift, k.stage_shift), (30, 20, 17));
    assert_eq!((k.phase_shift, k.phase_mask, k.dead_region), (0, 0x1ffff, 1000));
    let k = SortKeyLayout::plan(&bank(70_000, 10_000_000));
    assert_eq!((k.bits, k.stage_shift, k.phase_shift), (32, 12, 12));
    let mut none = bank(0, 0);
    none.samples.clear();
    let k = SortKeyLayout::plan(&none);
    assert_eq!((k.bits, k.dead_region, k.phase_mask), (5, 1, 1));
}

#[test]
fn the_default_allocation() {
    let p = plan(&Config::default(), &limits(), 0, 1).unwrap();
    assert_eq!((p.capacity, p.tiles, p.render_workgroups), (1310720, 128, 2048));
    assert_eq!(p.scan_workgroups, 5120);
    assert_eq!(p.voice_bytes * 2, 240 << 20);
    assert_eq!(p.partial_bytes, 64 << 20);
    assert_eq!((p.cmds_capacity, p.cmds_bytes), (65536, 65536 * 76));
    assert_eq!((p.gates_bytes, p.chan_bytes), (128 * 2048 * 4, 128 * 64 * 4));
    assert_eq!((p.pool_bytes, p.params_bytes), (4, 32 * 48));
    // 339.6 MiB.
    assert_eq!((p.vram_bytes as f64 / 1048576.0 * 10.0).round(), 3396.0);
    assert_eq!(plan(&Config::default(), &limits(), 3, 0).unwrap().pool_bytes, 8);
}

#[test]
fn small_devices_are_told_why() {
    let d = Config::default;
    let with = |c: Config, l: DeviceLimits| match plan(&c, &l, 0, 1) {
        Ok(_) => panic!("fits"),
        Err(e) => e,
    };
    let e = with(Config { max_layers: 0, ..d() }, limits());
    assert_eq!(e, GpuError::Config(ConfigError::NoLayers));
    let small = DeviceLimits { max_compute_workgroup_storage_size: 9000, ..limits() };
    assert_eq!(with(d(), small), GpuError::WorkgroupStorage(9216));
    let small = DeviceLimits { max_storage_buffer_binding_size: 96 * 1000, ..limits() };
    assert_eq!(with(d(), small), GpuError::VoicePool(800));
    let long = Config { block_frames: 32768, ..d() };
    assert_eq!(with(long, limits()), GpuError::BlockTooLong(65536));
    // The number that is named fits.
    let c = Config { max_voices: 800, ..d() };
    assert!(plan(&c, &small, 0, 1).is_ok());
}

#[test]
fn grids_are_clamped() {
    let c = Config { max_render_workgroups: 4, max_pool_workgroups: 2, ..Default::default() };
    assert_eq!(render_workgroups(&c, 0), 1);
    assert_eq!(render_workgroups(&c, 257), 2);
    assert_eq!(render_workgroups(&c, 1 << 20), 4);
    assert_eq!(dispatch_count(&c, 10_000), 2);
    assert_eq!(dispatch_count(&Config::default(), u32::MAX), 65535);
}

#[test]
fn the_command_buffer_grows_by_doubling() {
    assert_eq!(grow_cmds(1024, 1024, 1 << 20), 1024);
    assert_eq!(grow_cmds(1024, 1025, 1 << 20), 2048);
    assert_eq!(grow_cmds(1024, 3000, 3500), 3500);
    assert_eq!(grow_cmds(1024, 3000, 10), 3000);
    assert_eq!(grow_cmds(0, 1, 10), 1);
}

#[test]
fn a_block_is_cut_to_what_fits() {
    let c = Config { max_voices: 100, ..Default::default() };
    let p = plan_block(&c, 90, 400);
    assert_eq!((p.spawn_count, p.steal_k, p.dropped), (35, 25, 365));
    let cmds: Vec<SpawnCmd> =
        (0..10).map(|i| SpawnCmd { note_id_lo: i, ..Default::default() }).collect();
    let ids = |v: Vec<SpawnCmd>| v.iter().map(|c| c.note_id_lo).collect::<Vec<u32>>();
    assert_eq!(ids(choose_spawns(AdmitRule::Loudest, &cmds, 4)), vec![0, 1, 2, 3]);
    assert_eq!(ids(choose_spawns(AdmitRule::Even, &cmds, 4)), vec![0, 2, 5, 7]);
}

#[test]
fn a_session_follows_the_device() {
    let c = Config { max_voices: 100, workgroup_size: 32, ..Default::default() };
    let mut s = Session::new(20);
    let w = s.begin_block(&c, 30);
    assert_eq!((w.plan.spawn_count, w.live, w.parity, w.nwg, w.regrow), (30, 0, 0, 1, true));
    assert_eq!((s.live, s.parity, s.cmds_capacity), (30, 1, 32));
    let mut state = [0u32; 16];
    state[0] = 25;
    state[8] = 3;
    state[9] = 2;
    let state = read_words(&words(&state));
    assert_eq!(s.finish_block(&c, &state), Some(2));
    assert_eq!((s.live, s.stolen, s.dropped), (25, 3, 2));
    assert_eq!(s.finish_block(&c, &state[..15].to_vec()), None);
    assert_eq!((s.live, s.stolen, s.dropped), (25, 3, 2));
    assert_eq!(s.begin_block(&c, 0).parity, 1);
    assert_eq!(s.parity, 0);
    assert_eq!(read_state(&state, 10).unwrap().live, 10);
    assert_eq!(read_state(&state[..15].to_vec(), 10), None);
}

#[test]
fn kernels_name_their_shader_and_entry() {
    assert_eq!(kernel_entry(Kernel::SpawnCommit), ("spawn", "commit"));
    assert_eq!(kernel_entry(Kernel::RenderChan), ("render_chan", "main"));
    assert_eq!(kernel_entry(Kernel::CompactCommit), ("compact", "commit"));
    assert_eq!(kernel_entry(Kernel::SelRefine), ("select", "refine"));
    assert_eq!(kernel_entry(Kernel::SortAdvance), ("sort", "advance_bit"));
}

#[test]
fn bindings_follow_the_parity() {
    let b = bindings(Group::Compact, 1);
    assert_eq!(&b[..3], &[Buf::Uniforms, Buf::Voices(1), Buf::Voices(0)]);
    let b = bindings(Group::Sort(1), 0);
    assert_eq!(&b[1..3], &[Buf::Pairs(1), Buf::Pairs(0)]);
    assert_eq!(&b[6..], &[Buf::Voices(0), Buf::Voices(1)]);
    for g in [
        Group::Spawn,
        Group::Render,
        Group::Reduce,
        Group::Compact,
        Group::Select,
        Group::Sort(0),
    ] {
        assert_eq!(bindings(g, 0).len(), read_only_flags(g).len());
    }
    assert_eq!(
        read_only_flags(Group::Render),
        vec![false, true, true, true, false, false, true, true]
    );
}

#[test]
fn the_schedule_of_a_block() {
    let quiet = Config { sort_voices: false, ..Default::default() };
    let p = plan_block(&quiet, 0, 0);
    let s = schedule(&quiet, 0, &p, 1, false, 30);
    let kernels: Vec<Kernel> = s.iter().map(|s| s.kernel).collect();
    assert_eq!(
        kernels,
        vec![
            Kernel::SpawnCommit,
            Kernel::Render,
            Kernel::Reduce,
            Kernel::ScanLocal,
            Kernel::ScanBlocks,
            Kernel::Scatter,
            Kernel::CompactCommit,
        ]
    );
    assert_eq!((s[2].pass, s[2].workgroups), (Pass::Reduce, 8192));
    let full = Config { max_voices: 1000, ..Default::default() };
    let p = plan_block(&full, 1000, 500);
    let s = schedule(&full, 1000, &p, 5, true, 3);
    // Init, eight rounds of three, two marks; two spawns, two, and the sort.
    assert_eq!(s.len(), 1 + 24 + 2 + 2 + 2 + 2 + 2 + 12 + 1 + 1);
    assert_eq!(s[2].workgroups, 4);
    assert_eq!(s[29].kernel, Kernel::RenderChan);
    let gather = s.iter().find(|s| s.kernel == Kernel::SortGather).unwrap();
    assert_eq!(gather.group, Group::Sort(1), "three rounds end in the other buffer");
    assert_eq!(gather.workgroups, 5);
}

#[test]
fn uploads_are_the_words_in_memory() {
    assert_eq!(row_bytes(&vec![1, 0x0203_0405]), words(&[1, 0x0203_0405]));
    let c = SpawnCmd { phase_lo: 0x0102_0304, gain_r: 9, ..Default::default() };
    let mut w = vec![0u32; 19];
    w[0] = 0x0102_0304;
    w[18] = 9;
    assert_eq!(spawn_bytes(&vec![c]), words(&w));
    assert_eq!(pad_pool(&vec![1, -1, 2]), vec![1, -1, 2, 0]);
    assert_eq!(pad_pool(&vec![1, -1]), vec![1, -1]);
    assert_eq!(pad_pool(&Vec::new()), vec![0, 0]);
    let halves: Vec<u8> =
        [0x0102i16, -2, 7, 0].iter().flat_map(|v| v.to_ne_bytes()).collect();
    assert_eq!(pool_bytes(&vec![0x0102, -2, 7]), halves);
    assert_eq!(pool_bytes(&Vec::new()), vec![0; 4]);
}

#[test]
fn device_words_are_read_in_the_byte_order_of_the_machine() {
    let back = read_words(&[1, 2, 3, 4, 5, 6, 7, 8]);
    let want = vec![u32::from_ne_bytes([1, 2, 3, 4]), u32::from_ne_bytes([5, 6, 7, 8])];
    assert_eq!(back, want);
    let bits = vec![0.5f32.to_bits(), 0, (-1.0f32).to_bits(), u32::MAX];
    assert_eq!(read_words(&row_bytes(&bits)), bits, "what was sent is read back");
    // Not at a multiple of four in memory, whatever the allocator does.
    let long = [&[9u8][..], &words(&[0x0102_0304])[..]].concat();
    assert_eq!(read_words(&long[1..]), vec![0x0102_0304]);
    assert!(read_words(&[]).is_empty());
}

#[test]
fn params_are_uploaded_in_order() {
    let plain = initial_params(&Vec::new());
    assert_eq!(plain.len(), 1);
    assert_eq!(f32::from_bits(plain[0].sustain), 1.0);
    assert_eq!((plain[0].release_coef, plain[0].flags), (0, 0));
    let p = RegionParams { a2: 7, flags: 1, ..plain[0] };
    assert_eq!(initial_params(&vec![p, p]), vec![p, p]);
    let b = table_bytes(&vec![plain[0], p]);
    assert_eq!(b.len(), 96);
    let one = 1.0f32.to_bits();
    assert_eq!(&b[48..], &words(&[one, one, one, one, one, 0, one, 0, 0, 7, 1, 0])[..]);
}

#[test]
fn uniforms_are_uploaded_in_order() {
    let u = BlockUniforms {
        spawn_count: 3,
        steal_k: 4,
        render_workgroups: 5,
        capacity: 6,
        pool_words: 7,
        params_per_variant: 8,
        bend_active: true,
        gain_active: false,
        variant_active: true,
        sort: SortKeyLayout {
            bits: 11,
            region_shift: 12,
            stage_shift: 13,
            phase_shift: 14,
            phase_mask: 15,
            dead_region: 16,
        },
    };
    let b = uniform_bytes(&Config::default(), &u);
    let floor = 1.0e-5f32.to_bits();
    let want = [
        4096, 1024, 6, 3, 5, 1, 1, 1, floor, 7, 4, 11, 12, 13, 14, 15, 16, 5, 8, 1,
    ];
    assert_eq!(b, words(&want));
}

#[test]
fn variants_have_their_place() {
    let c = Config { max_param_variants: 4, ..Default::default() };
    assert_eq!(variant_offset(&c, 10, 3, 10), Ok(1440));
    assert_eq!(variant_offset(&c, 10, 3, 9), Err(VariantError::WrongLength));
    assert_eq!(variant_offset(&c, 10, 4, 10), Err(VariantError::PastMaximum));
    let c = Config { max_param_variants: 0, ..Default::default() };
    assert_eq!(variant_offset(&c, 10, 0, 10), Ok(0));
}

#[test]
fn ticks_never_run_backwards() {
    assert_eq!(elapsed_ticks(5, 9), 4);
    assert_eq!(elapsed_ticks(9, 5), 0);
}

fn text(s: &str) -> Vec<char> {
    s.chars().collect()
}

#[test]
fn placeholders_are_filled_in() {
    let c = Config::default();
    let s: String = substitute(
        &text("a{{WG}}b{{TILE}}{{GATE_TILE}} {{STEAL_FADE}} {{KAHAN}} {{CHAN}}"),
        &c,
    )
    .iter()
    .collect();
    assert_eq!(s, "a256b432 96 false {{CHAN}}");
    let body = with_controls(&text("x={{CHAN}};"), true);
    let s: String = shader_source(&text("{{WG}}"), &body, &c).iter().collect();
    assert_eq!(s, "256\nx=true;");
    assert_eq!(with_controls(&text("{{CHAN}}"), false), text("false"));
    assert_eq!(replace_all(&text("aaaa"), &text("aaa"), &text("b")), text("ba"));
    assert_eq!(to_decimal(0), text("0"));
    assert_eq!(to_decimal(u32::MAX), text("4294967295"));
}

#[test]
fn a_discrete_adapter_is_preferred() {
    use_kinds(&[], None);
    use_kinds(&[AdapterKind::Other, AdapterKind::Integrated, AdapterKind::Discrete], Some(2));
    use_kinds(&[AdapterKind::Integrated, AdapterKind::Other, AdapterKind::Integrated], Some(0));
    use_kinds(&[AdapterKind::Other, AdapterKind::Discrete, AdapterKind::Discrete], Some(1));
}

fn use_kinds(kinds: &[AdapterKind], want: Option<usize>) {
    assert_eq!(pick_adapter(&kinds.to_vec()), want);
}

#[test]
fn kernels_have_a_layout() {
    assert_eq!(kernel_group(Kernel::SpawnCommit), Group::Spawn);
    assert_eq!(kernel_group(Kernel::RenderChan), Group::Render);
    assert_eq!(kernel_group(Kernel::Reduce), Group::Reduce);
    assert_eq!(kernel_group(Kernel::NoteStolen), Group::Compact);
    assert_eq!(kernel_group(Kernel::SelHistogram), Group::Select);
    assert_eq!(kernel_group(Kernel::SortGather), Group::Sort(0));
    assert_eq!(read_only_flags(Group::Sort(1)), read_only_flags(kernel_group(Kernel::SortInit)));
}
