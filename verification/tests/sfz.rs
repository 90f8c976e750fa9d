use kestrel::bank::{LoopMode, SampleInfo};
use kestrel::opcodes::OpcodeSet;
use kestrel::sfz::{
    add_regions, add_sample, assemble, default_path, file_loop, forward_slashes, is_usable,
    may_nest, note_unhandled, parse_note_name, region_from_opcodes, used_channels, Decimals,
    SampleMeta, Section, SfzError, Tally, MAX_NESTING, OPEN_FILTER,
};
use kestrel::sfz_text::{find_value_end, parse_text, Item};

fn text(s: &str) -> Vec<char> {
    s.chars().collect()
}

fn string(v: &Vec<char>) -> String {
    v.iter().collect()
}

fn ops(pairs: &[(&str, &str)]) -> OpcodeSet {
    let mut o = OpcodeSet::new();
    for (k, v) in pairs {
        o.insert(text(k), text(v));
    }
    o
}

fn no_decimals() -> Decimals {
    Decimals {
        lovel: None,
        hivel: None,
        transpose: None,
        offset: None,
        end: None,
        loop_start: None,
        loop_end: None,
        group: None,
        tune: None,
        pitch: None,
        pitch_keytrack: None,
        volume: None,
        amp_veltrack: None,
        pan: None,
        ampeg_delay: None,
        ampeg_attack: None,
        ampeg_hold: None,
        ampeg_decay: None,
        ampeg_sustain: None,
        ampeg_release: None,
        cutoff: None,
        resonance: None,
        fil_veltrack: None,
    }
}

fn info(len: u32, loop_start: u32, loop_end: u32) -> SampleInfo {
    SampleInfo {
        start: 0,
        len,
        loop_start,
        loop_end,
        rate: 48000,
        root_key: 57,
        correction_cents: 0,
        resample_ratio: 1.0f32.to_bits(),
        name: String::from("a.wav"),
    }
}

fn sections(src: &str) -> Vec<Section> {
    let mut out = Vec::new();
    for i in parse_text(src) {
        match i {
            Item::Section(header, ops) => out.push(Section { header, ops }),
            Item::Nested(_) => {}
        }
    }
    out
}

#[test]
fn note_names() {
    assert_eq!(parse_note_name("c4"), Some(60));
    assert_eq!(parse_note_name("a4"), Some(69));
    assert_eq!(parse_note_name("c#4"), Some(61));
    assert_eq!(parse_note_name("c-1"), Some(0));
}

#[test]
fn value_with_spaces_survives() {
    let s = "My Sample Name.wav lokey=30";
    let end = find_value_end(s);
    assert_eq!(s[..end].trim(), "My Sample Name.wav");
}

#[test]
fn single_value_runs_to_end() {
    let s = "60";
    assert_eq!(find_value_end(s), 2);
}

#[test]
fn note_names_that_are_not() {
    assert_eq!(parse_note_name(""), None);
    assert_eq!(parse_note_name("h4"), None);
    assert_eq!(parse_note_name("c"), None);
    assert_eq!(parse_note_name("Bb3"), Some(58));
    assert_eq!(parse_note_name("G##2"), Some(45));
}

#[test]
fn a_value_ends_before_a_header() {
    assert_eq!(find_value_end("10 <region>"), 2);
    assert_eq!(find_value_end("10<region>"), 2);
    assert_eq!(find_value_end("a=b"), 1);
    assert_eq!(find_value_end(""), 0);
}

#[test]
fn a_line_holds_several_headers_and_opcodes() {
    let items = parse_text("<group> lokey=10 <region> sample=My File.wav key=C4 // note\n");
    assert_eq!(items.len(), 2);
    match &items[0] {
        Item::Section(h, o) => {
            assert_eq!(string(h), "group");
            assert_eq!(string(o.get("lokey").unwrap()), "10");
        }
        Item::Nested(_) => panic!("not nested"),
    }
    match &items[1] {
        Item::Section(h, o) => {
            assert_eq!(string(h), "region");
            assert_eq!(string(o.get("sample").unwrap()), "My File.wav");
            assert_eq!(string(o.get("key").unwrap()), "C4");
            assert_eq!(o.key("key"), Some(60));
        }
        Item::Nested(_) => panic!("not nested"),
    }
}

#[test]
fn nested_files_close_the_open_section() {
    let directive = format!("#{}lude \"more.sfz\"", "inc");
    let src = format!("<global> volume=-3\n{directive}\n#define $A 1\n<region> sample=x\n");
    let items = parse_text(&src);
    assert_eq!(items.len(), 3);
    assert!(matches!(&items[0], Item::Section(_, _)));
    match &items[1] {
        Item::Nested(p) => assert_eq!(string(p), "more.sfz"),
        Item::Section(_, _) => panic!("not a section"),
    }
}

#[test]
fn nesting_is_bounded() {
    assert_eq!(may_nest(MAX_NESTING), Ok(()));
    assert_eq!(may_nest(MAX_NESTING + 1), Err(SfzError::NestedTooDeep));
}

#[test]
fn regions_inherit_from_group_and_global() {
    let s = sections(
        "<global> volume=-6 pan=10\n<group> volume=-3\n<region> sample=a.wav\n\
         <region> sample=b.wav volume=0\n<master> hivel=90\n<region> sample=c.wav\n<mystery> x=1\n",
    );
    let r = match assemble(&s) {
        Ok(r) => r,
        Err(_) => panic!("has regions"),
    };
    assert_eq!(r.sets.len(), 3);
    assert_eq!(string(r.sets[0].get("volume").unwrap()), "-3");
    assert_eq!(string(r.sets[0].get("pan").unwrap()), "10");
    assert_eq!(string(r.sets[1].get("volume").unwrap()), "0");
    assert_eq!(string(r.sets[2].get("volume").unwrap()), "-6", "a master ends the group");
    assert_eq!(string(r.sets[2].get("hivel").unwrap()), "90");
    assert_eq!(r.unknown.names.len(), 1);
    assert_eq!(string(&r.unknown.names[0]), "<mystery>");
    assert_eq!(r.unknown.counts[0], 1);
}

#[test]
fn a_file_without_regions_is_refused() {
    let s = sections("<global> volume=-6\n");
    assert!(matches!(assemble(&s), Err(SfzError::NoRegions)));
}

#[test]
fn the_last_default_path_wins() {
    let s = sections("<control> default_path=a\\b\\\n<control> default_path=c\\d/\n");
    assert_eq!(string(&default_path(&s)), "c/d/");
    assert_eq!(string(&forward_slashes(&text("x\\y"))), "x/y");
}

#[test]
fn unhandled_opcodes_are_counted() {
    let mut t = Tally::new();
    let o = ops(&[("sample", "a"), ("pitch_keytrack", "50"), ("amplfo_freq", "1"), ("zz", "1")]);
    note_unhandled(&o, &mut t);
    note_unhandled(&o, &mut t);
    let mut seen: Vec<(String, u32)> =
        t.names.iter().map(string).zip(t.counts.iter().copied()).collect();
    seen.sort();
    assert_eq!(
        seen,
        vec![(String::from("amplfo_* (not implemented)"), 2), (String::from("zz"), 2)]
    );
}

#[test]
fn key_sets_range_and_root() {
    let o = ops(&[("key", "c#4"), ("hikey", "64")]);
    let r = region_from_opcodes(&o, &no_decimals(), 3, &info(100, 0, 0));
    assert_eq!((r.sample, r.key_lo, r.key_hi, r.root_key_override), (3, 61, 64, 61));
    let r = region_from_opcodes(&ops(&[]), &no_decimals(), 0, &info(100, 0, 0));
    assert_eq!((r.key_lo, r.key_hi, r.root_key_override), (0, 127, 57));
    let o = ops(&[("lovel", "20"), ("hivel", "300")]);
    let r = region_from_opcodes(&o, &no_decimals(), 0, &info(100, 0, 0));
    assert_eq!((r.vel_lo, r.vel_hi), (20, 127));
}

#[test]
fn the_loop_follows_the_opcode_then_the_file() {
    let loud = info(100, 10, 90);
    let plain = info(100, 10, 11);
    let d = no_decimals();
    let mode = |o: OpcodeSet, i: &SampleInfo| region_from_opcodes(&o, &d, 0, i).loop_mode;
    assert_eq!(mode(ops(&[]), &loud), LoopMode::Continuous);
    assert_eq!(mode(ops(&[]), &plain), LoopMode::NoLoop);
    assert_eq!(mode(ops(&[("loop_mode", "one_shot")]), &loud), LoopMode::NoLoop);
    assert_eq!(mode(ops(&[("loop_mode", "loop_sustain")]), &plain), LoopMode::UntilRelease);
}

#[test]
fn only_low_passes_filter() {
    let mut d = no_decimals();
    d.cutoff = Some(7000.0f32.to_bits());
    d.fil_veltrack = Some(1200.0f32.to_bits());
    let i = info(100, 0, 0);
    let r = region_from_opcodes(&ops(&[("fil_type", "lpf_2p")]), &d, 0, &i);
    assert_eq!(r.filter_fc_cents, 7000.0f32.to_bits());
    let r = region_from_opcodes(&ops(&[("fil_type", "hpf_2p")]), &d, 0, &i);
    assert_eq!(r.filter_fc_cents, OPEN_FILTER);
    assert_eq!(f32::from_bits(OPEN_FILTER), 13500.0);
    assert_eq!(r.filter_veltrack_cents, 0);
}

#[test]
fn regions_without_a_sample_are_unusable() {
    assert!(!is_usable(&ops(&[]), None));
    assert!(!is_usable(&ops(&[("sample", "a"), ("end", "-1")]), None));
    assert!(is_usable(&ops(&[("sample", "a"), ("end", "10")]), None));
}

#[test]
fn stereo_files_are_panned_hard() {
    let samples = vec![info(10, 0, 0), info(10, 0, 0)];
    let mut regions = Vec::new();
    let mut t = Tally::new();
    let o = ops(&[("sample", "a.wav")]);
    add_regions(&o, &no_decimals(), &vec![0, 1], &samples, &mut regions, &mut t);
    assert_eq!(regions.len(), 2);
    assert_eq!(f32::from_bits(regions[0].pan), -1.0);
    assert_eq!(f32::from_bits(regions[1].pan), 1.0);
    assert_eq!(regions[1].sample, 1);
    assert_eq!(used_channels(0), 1);
    assert_eq!(used_channels(6), 2);
}

#[test]
fn samples_are_laid_end_to_end_with_a_guard() {
    let mut pool = Vec::new();
    let mut samples = Vec::new();
    for _ in 0..2 {
        let meta = SampleMeta {
            loop_start: 9,
            loop_end: 9,
            source_rate: 44100,
            root_key: None,
            correction_cents: 0,
            resample_ratio: 1.0f32.to_bits(),
            name: String::from("a"),
        };
        add_sample(&mut pool, &mut samples, &vec![1, 2, 3], 0, meta);
    }
    assert_eq!(pool.len(), 22);
    assert_eq!(&pool[..4], &[1, 2, 3, 0]);
    assert_eq!(samples[1].start, 11);
    assert_eq!((samples[1].loop_start, samples[1].loop_end), (2, 3));
    assert_eq!((samples[1].rate, samples[1].root_key), (44100, 60));
    assert_eq!(file_loop(None, 10), (0, 9));
    assert_eq!(file_loop(Some((3, 5)), 10), (3, 5));
    assert_eq!(file_loop(None, 0), (0, 0));
}

#[test]
fn merging_prefers_the_right() {
    let a = ops(&[("a", "1"), ("b", "2")]);
    let b = ops(&[("b", "3")]);
    let m = a.merged(&b);
    assert_eq!(string(m.get("a").unwrap()), "1");
    assert_eq!(string(m.get("b").unwrap()), "3");
    assert_eq!(m.get("c").map(string), None);
    assert_eq!(a.integer("a", None), Some(1));
    assert_eq!(ops(&[("a", "1.5")]).integer("a", Some(1)), Some(1));
    assert_eq!(ops(&[("a", "x")]).integer("a", None), None);
}

#[test]
fn velocity_tracking_is_read() {
    let o = ops(&[("sample", "a.wav"), ("amp_veltrack", "0")]);
    let mut d = no_decimals();
    d.amp_veltrack = Some(0.0f32.to_bits());
    let r = region_from_opcodes(&o, &d, 0, &info(100, 0, 0));
    assert_eq!(f32::from_bits(r.amp_veltrack), 0.0);
    let r = region_from_opcodes(&ops(&[("sample", "a.wav")]), &no_decimals(), 0, &info(100, 0, 0));
    assert_eq!(f32::from_bits(r.amp_veltrack), 100.0);
    let mut t = Tally::new();
    note_unhandled(&o, &mut t);
    assert!(t.names.is_empty());
}

#[test]
fn the_older_spelling_of_the_loop_mode_is_read() {
    let i = info(100, 10, 90);
    let d = no_decimals();
    let r = region_from_opcodes(&ops(&[("loopmode", "no_loop")]), &d, 0, &i);
    assert_eq!(r.loop_mode, LoopMode::NoLoop);
    let both = ops(&[("loopmode", "no_loop"), ("loop_mode", "loop_sustain")]);
    assert_eq!(region_from_opcodes(&both, &d, 0, &i).loop_mode, LoopMode::UntilRelease);
    let mut t = Tally::new();
    note_unhandled(&ops(&[("loopmode", "no_loop"), ("off_by", "1"), ("group", "1")]), &mut t);
    assert_eq!(t.names.iter().map(string).collect::<Vec<String>>(), vec!["off_by"]);
}

#[test]
fn one_shot_regions_are_marked() {
    let i = info(100, 10, 90);
    let d = no_decimals();
    for key in ["loop_mode", "loopmode"] {
        let r = region_from_opcodes(&ops(&[(key, "one_shot")]), &d, 0, &i);
        assert_eq!((r.loop_mode, r.one_shot), (LoopMode::NoLoop, true));
    }
    assert!(!region_from_opcodes(&ops(&[("loop_mode", "no_loop")]), &d, 0, &i).one_shot);
    assert!(!region_from_opcodes(&ops(&[]), &d, 0, &i).one_shot);
}

#[test]
fn reported_opcodes_change_nothing() {
    let i = info(100, 10, 90);
    let d = no_decimals();
    let plain = ops(&[("sample", "a"), ("key", "60")]);
    let more = ops(&[("sample", "a"), ("key", "60"), ("amplfo_freq", "3"), ("off_by", "2")]);
    assert_eq!(
        region_from_opcodes(&plain, &d, 0, &i),
        region_from_opcodes(&more, &d, 0, &i)
    );
}

#[test]
fn the_count_does_not_depend_on_the_order_opcodes_came_in() {
    let count = |pairs: &[(&str, &str)]| {
        let mut t = Tally::new();
        note_unhandled(&ops(pairs), &mut t);
        let mut seen: Vec<(String, u32)> =
            t.names.iter().map(string).zip(t.counts.iter().copied()).collect();
        seen.sort();
        seen
    };
    let a = count(&[("zz", "1"), ("amplfo_freq", "2"), ("key", "60"), ("amplfo_depth", "3")]);
    let b = count(&[("amplfo_depth", "3"), ("key", "60"), ("amplfo_freq", "2"), ("zz", "1")]);
    assert_eq!(a, b);
    assert_eq!(a[0], (String::from("amplfo_* (not implemented)"), 2));
}
