//! From SFZ opcodes to regions.

use crate::bank::{blank_region, LoopMode, Region, SampleInfo};
use crate::fbits::{F32_MINUS_ONE, F32_ONE};
use crate::opcodes::{lemma_pairs, pairs, OpcodeSet};
use crate::text::{
    begins, chars_of, copy_text, integer_of, parse_integer, same_text, spells, starts_with, trim,
    trimmed,
};
use vstd::prelude::*;

verus! {

/// How deep one file may ask for another.
pub const MAX_NESTING: u32 = 16;

/// Zero frames behind every sample in the pool, so interpolation may read past
/// its end.
pub const POOL_GUARD: usize = 8;

/// Why an instrument cannot be used.
#[derive(Debug, Clone, Copy, PartialEq, Eq, Structural)]
pub enum SfzError {
    /// Files ask for each other too deeply.
    NestedTooDeep,
    /// No region sections at all.
    NoRegions,
    /// No region has a usable sample.
    NothingUsable,
}

/// Whether a file at this depth may be read.
pub fn may_nest(depth: u32) -> (r: Result<(), SfzError>)
    ensures
        r == if depth > MAX_NESTING {
            Err::<(), SfzError>(SfzError::NestedTooDeep)
        } else {
            Ok::<(), SfzError>(())
        },
{
    if depth > MAX_NESTING {
        Err(SfzError::NestedTooDeep)
    } else {
        Ok(())
    }
}

// ---- note names -----------------------------------------------------------

/// The semitone of a note letter above C.
pub open spec fn letter_step(c: char) -> Option<int> {
    if c == 'c' || c == 'C' {
        Some(0)
    } else if c == 'd' || c == 'D' {
        Some(2)
    } else if c == 'e' || c == 'E' {
        Some(4)
    } else if c == 'f' || c == 'F' {
        Some(5)
    } else if c == 'g' || c == 'G' {
        Some(7)
    } else if c == 'a' || c == 'A' {
        Some(9)
    } else if c == 'b' || c == 'B' {
        Some(11)
    } else {
        None
    }
}

/// Where the accidentals that start at `i` end.
pub open spec fn accidentals_end(s: Seq<char>, i: int) -> int
    decreases s.len() - i,
{
    if 0 <= i < s.len() && (s[i] == '#' || s[i] == 'b') {
        accidentals_end(s, i + 1)
    } else {
        i
    }
}

/// Sharps less flats in `i..n`.
pub open spec fn accidentals(s: Seq<char>, i: int, n: int) -> int
    decreases n - i,
{
    if i >= n {
        0
    } else {
        (if s[i] == '#' {
            1int
        } else {
            -1
        }) + accidentals(s, i + 1, n)
    }
}

/// A number kept in 32 signed bits.
pub open spec fn wrap32(x: int) -> i32 {
    ((x + 0x8000_0000) % 0x1_0000_0000 - 0x8000_0000) as i32
}

/// The key a note name stands for: a letter, accidentals and an octave. Middle C
/// is `c4`, key 60.
pub open spec fn note_of(s: Seq<char>) -> Option<i32> {
    if s.len() == 0 {
        None
    } else {
        match letter_step(s[0]) {
            None => None,
            Some(step) => {
                let i = accidentals_end(s, 1);
                match integer_of(trimmed(s.skip(i))) {
                    None => None,
                    Some(octave) => Some(
                        wrap32((octave + 1) * 12 + step + accidentals(s, 1, i)),
                    ),
                }
            },
        }
    }
}

proof fn lemma_accidentals_end(s: Seq<char>, i: int)
    requires
        0 <= i <= s.len(),
    ensures
        i <= accidentals_end(s, i) <= s.len(),
    decreases s.len() - i,
{
    if i < s.len() && (s[i] == '#' || s[i] == 'b') {
        lemma_accidentals_end(s, i + 1);
    }
}

proof fn lemma_accidentals_step(s: Seq<char>, i: int, n: int)
    requires
        i <= n,
    ensures
        accidentals(s, i, n + 1) == accidentals(s, i, n) + (if s[n] == '#' {
            1int
        } else {
            -1
        }),
    decreases n - i,
{
    reveal_with_fuel(accidentals, 2);
    if i < n {
        lemma_accidentals_step(s, i + 1, n);
    }
}

fn wrap_i32(x: i128) -> (r: i32)
    requires
        -0x1_0000_0000_0000_0000_0000 <= x <= 0x1_0000_0000_0000_0000_0000,
    ensures
        r == wrap32(x as int),
{
    let y: i128 = x + 0x8000_0000;
    // The remainder is taken on a number that is not negative.
    let z: i128 = (y + 0x1_0000_0000_0000_0000_0000_0000) % 0x1_0000_0000;
    assert((y + 0x1_0000_0000_0000_0000_0000_0000) as int % 0x1_0000_0000 == y as int
        % 0x1_0000_0000);
    (z - 0x8000_0000) as i32
}

/// Read a note name.
pub fn parse_note_name(s: &str) -> (r: Option<i32>)
    ensures
        r == note_of(s@),
{
    let v = chars_of(s);
    note_name(&v)
}

fn note_name(v: &Vec<char>) -> (r: Option<i32>)
    ensures
        r == note_of(v@),
{
    let n: usize = v.len();
    if n == 0 {
        return None;
    }
    let c = v[0];
    let step: i128 = if c == 'c' || c == 'C' {
        0
    } else if c == 'd' || c == 'D' {
        2
    } else if c == 'e' || c == 'E' {
        4
    } else if c == 'f' || c == 'F' {
        5
    } else if c == 'g' || c == 'G' {
        7
    } else if c == 'a' || c == 'A' {
        9
    } else if c == 'b' || c == 'B' {
        11
    } else {
        return None;
    };
    let mut i: usize = 1;
    let mut acc: i128 = 0;
    while i < n && (v[i] == '#' || v[i] == 'b')
        invariant
            1 <= i <= n == v@.len(),
            accidentals_end(v@, 1) == accidentals_end(v@, i as int),
            acc == accidentals(v@, 1, i as int),
            -(i as int) <= acc <= i,
        decreases n - i,
    {
        proof {
            lemma_accidentals_step(v@, 1, i as int);
        }
        if v[i] == '#' {
            acc += 1;
        } else {
            acc -= 1;
        }
        i += 1;
    }
    let t = trim(v, i, n);
    assert(v@.subrange(i as int, n as int) =~= v@.skip(i as int));
    match parse_integer(&t) {
        None => None,
        Some(octave) => {
            let x: i128 = (octave as i128 + 1) * 12 + step + acc;
            Some(wrap_i32(x))
        },
    }
}

// ---- opcode values --------------------------------------------------------

/// The integer an opcode is set to. A value that spells no integer is what a
/// decimal reading of it, cut to an integer, gives.
pub open spec fn integer_opcode(
    ops: Map<Seq<char>, Seq<char>>,
    key: Seq<char>,
    decimal: Option<i32>,
) -> Option<i32> {
    if !ops.contains_key(key) {
        None
    } else {
        match integer_of(trimmed(ops[key])) {
            Some(n) => Some(n),
            None => decimal,
        }
    }
}

/// The key an opcode is set to, as a number or a note name.
pub open spec fn key_opcode(ops: Map<Seq<char>, Seq<char>>, key: Seq<char>) -> Option<i32> {
    if !ops.contains_key(key) {
        None
    } else {
        match integer_of(trimmed(ops[key])) {
            Some(n) => Some(n),
            None => note_of(trimmed(ops[key])),
        }
    }
}

impl OpcodeSet {
    /// An integer opcode; `decimal` is the reading for a value that spells no
    /// integer.
    pub fn integer(&self, key: &str, decimal: Option<i32>) -> (r: Option<i32>)
        requires
            self.wf(),
        ensures
            r == integer_opcode(self@, key@, decimal),
    {
        match self.get(key) {
            None => None,
            Some(v) => {
                let t = trim(v, 0, v.len());
                assert(v@.subrange(0, v@.len() as int) =~= v@);
                match parse_integer(&t) {
                    Some(n) => Some(n),
                    None => decimal,
                }
            },
        }
    }

    /// A key opcode: note names as well as numbers.
    pub fn key(&self, key: &str) -> (r: Option<i32>)
        requires
            self.wf(),
        ensures
            r == key_opcode(self@, key@),
    {
        match self.get(key) {
            None => None,
            Some(v) => {
                let t = trim(v, 0, v.len());
                assert(v@.subrange(0, v@.len() as int) =~= v@);
                match parse_integer(&t) {
                    Some(n) => Some(n),
                    None => note_name(&t),
                }
            },
        }
    }
}

// ---- sections -------------------------------------------------------------

/// A section with its header's name.
#[derive(Debug)]
pub struct Section {
    pub header: Vec<char>,
    pub ops: OpcodeSet,
}

/// A section as the contracts speak of it.
#[verifier::ext_equal]
pub struct SectionView {
    pub header: Seq<char>,
    pub ops: Map<Seq<char>, Seq<char>>,
}

impl View for Section {
    type V = SectionView;

    open spec fn view(&self) -> SectionView {
        SectionView { header: self.header@, ops: self.ops@ }
    }
}

/// How often each unsupported name has come up.
#[derive(Debug)]
pub struct Tally {
    pub names: Vec<Vec<char>>,
    pub counts: Vec<u32>,
}

pub open spec fn tally_of(names: Seq<Vec<char>>, counts: Seq<u32>, n: int) -> Map<Seq<char>, u32>
    decreases n,
{
    if n <= 0 {
        Map::empty()
    } else {
        tally_of(names, counts, n - 1).insert(names[n - 1]@, counts[n - 1])
    }
}

impl View for Tally {
    type V = Map<Seq<char>, u32>;

    open spec fn view(&self) -> Map<Seq<char>, u32> {
        tally_of(self.names@, self.counts@, self.names@.len() as int)
    }
}

/// One more of a name. A count stays at its highest value once there.
pub open spec fn bumped(t: Map<Seq<char>, u32>, name: Seq<char>) -> Map<Seq<char>, u32> {
    t.insert(
        name,
        if !t.contains_key(name) {
            1
        } else if t[name] == u32::MAX {
            u32::MAX
        } else {
            (t[name] + 1) as u32
        },
    )
}

proof fn lemma_tally_at(names: Seq<Vec<char>>, counts: Seq<u32>, n: int, i: int)
    requires
        0 <= i < n <= names.len(),
        names.len() == counts.len(),
        forall|a: int, b: int|
            0 <= a < b < names.len() ==> (#[trigger] names[a])@ != (#[trigger] names[b])@,
    ensures
        tally_of(names, counts, n).contains_key(names[i]@),
        tally_of(names, counts, n)[names[i]@] == counts[i],
    decreases n,
{
    if i < n - 1 {
        lemma_tally_at(names, counts, n - 1, i);
        assert(names[i]@ != names[n - 1]@);
    }
}

proof fn lemma_tally_absent(names: Seq<Vec<char>>, counts: Seq<u32>, n: int, key: Seq<char>)
    requires
        0 <= n <= names.len(),
        forall|i: int| 0 <= i < n ==> (#[trigger] names[i])@ != key,
    ensures
        !tally_of(names, counts, n).contains_key(key),
    decreases n,
{
    if n > 0 {
        lemma_tally_absent(names, counts, n - 1, key);
        assert(names[n - 1]@ != key);
    }
}

proof fn lemma_tally_update(names: Seq<Vec<char>>, counts: Seq<u32>, n: int, i: int, c: u32)
    requires
        0 <= i < names.len(),
        0 <= n <= names.len(),
        names.len() == counts.len(),
        forall|a: int, b: int|
            0 <= a < b < names.len() ==> (#[trigger] names[a])@ != (#[trigger] names[b])@,
    ensures
        i < n ==> tally_of(names, counts.update(i, c), n) == tally_of(names, counts, n).insert(
            names[i]@,
            c,
        ),
        i >= n ==> tally_of(names, counts.update(i, c), n) == tally_of(names, counts, n),
    decreases n,
{
    if n > 0 {
        lemma_tally_update(names, counts, n - 1, i, c);
        if i < n - 1 {
            assert(names[i]@ != names[n - 1]@);
        }
        if i < n {
            assert(tally_of(names, counts.update(i, c), n) =~= tally_of(names, counts, n).insert(
                names[i]@,
                c,
            ));
        }
    }
}

proof fn lemma_tally_push(
    names: Seq<Vec<char>>,
    counts: Seq<u32>,
    name: Vec<char>,
    c: u32,
    n: int,
)
    requires
        0 <= n <= names.len() == counts.len(),
    ensures
        tally_of(names.push(name), counts.push(c), n) == tally_of(names, counts, n),
    decreases n,
{
    if n > 0 {
        lemma_tally_push(names, counts, name, c, n - 1);
    }
}

impl Tally {
    pub open spec fn wf(&self) -> bool {
        &&& self.names@.len() == self.counts@.len()
        &&& forall|a: int, b: int|
            0 <= a < b < self.names@.len() ==> (#[trigger] self.names@[a])@ != (
            #[trigger] self.names@[b])@
    }

    pub fn new() -> (r: Tally)
        ensures
            r.wf(),
            r@ == Map::<Seq<char>, u32>::empty(),
    {
        Tally { names: Vec::new(), counts: Vec::new() }
    }

    /// Count one more of a name.
    pub fn bump(&mut self, name: Vec<char>)
        requires
            old(self).wf(),
        ensures
            final(self).wf(),
            final(self)@ == bumped(old(self)@, name@),
    {
        let ghost n0 = self.names@;
        let ghost c0 = self.counts@;
        let n: usize = self.names.len();
        let mut i: usize = 0;
        while i < n
            invariant
                i <= n == n0.len(),
                self.wf(),
                self.names@ == n0,
                self.counts@ == c0,
                n0 == old(self).names@,
                c0 == old(self).counts@,
                forall|j: int| 0 <= j < i ==> (#[trigger] n0[j])@ != name@,
            decreases n - i,
        {
            if same_text(&self.names[i], &name) {
                let c: u32 = self.counts[i].saturating_add(1);
                self.counts[i] = c;
                proof {
                    lemma_tally_at(n0, c0, n as int, i as int);
                    lemma_tally_update(n0, c0, n as int, i as int, c);
                }
                return;
            }
            i += 1;
        }
        proof {
            lemma_tally_absent(n0, c0, n as int, name@);
            lemma_tally_push(n0, c0, name, 1, n as int);
        }
        self.names.push(name);
        self.counts.push(1);
    }
}

/// Sections half taken in.
#[verifier::ext_equal]
pub struct Assembly {
    pub global: Map<Seq<char>, Seq<char>>,
    pub group: Map<Seq<char>, Seq<char>>,
    /// The opcodes of each region, with what it inherits.
    pub regions: Seq<Map<Seq<char>, Seq<char>>>,
    pub unknown: Map<Seq<char>, u32>,
}

impl Assembly {
    pub open spec fn start() -> Assembly {
        Assembly {
            global: Map::empty(),
            group: Map::empty(),
            regions: Seq::empty(),
            unknown: Map::empty(),
        }
    }

    /// One section: a region inherits from the group and the group from the
    /// global section; a global or master section starts a new group.
    pub open spec fn with(self, s: SectionView) -> Assembly {
        if s.header == "global"@ {
            Assembly { global: s.ops, group: Map::empty(), ..self }
        } else if s.header == "master"@ {
            Assembly {
                global: self.global.union_prefer_right(s.ops),
                group: Map::empty(),
                ..self
            }
        } else if s.header == "group"@ {
            Assembly { group: s.ops, ..self }
        } else if s.header == "region"@ {
            Assembly {
                regions: self.regions.push(
                    self.global.union_prefer_right(self.group).union_prefer_right(s.ops),
                ),
                ..self
            }
        } else if s.header == "control"@ || s.header == "curve"@ || s.header == "effect"@ {
            self
        } else {
            Assembly { unknown: bumped(self.unknown, bracketed(s.header)), ..self }
        }
    }

    /// The first `n` sections.
    pub open spec fn all(sections: Seq<SectionView>, n: int) -> Assembly
        decreases n,
    {
        if n <= 0 {
            Assembly::start()
        } else {
            Assembly::all(sections, n - 1).with(sections[n - 1])
        }
    }
}

/// A header name as it stands in a file.
pub open spec fn bracketed(name: Seq<char>) -> Seq<char> {
    seq!['<'] + name + seq!['>']
}

/// The regions of an instrument, each with what it inherits, and what was not
/// understood.
pub struct Regions {
    pub sets: Vec<OpcodeSet>,
    pub unknown: Tally,
}

pub open spec fn section_views(s: Seq<Section>) -> Seq<SectionView> {
    s.map_values(|x: Section| x@)
}

pub open spec fn set_views(s: Seq<OpcodeSet>) -> Seq<Map<Seq<char>, Seq<char>>> {
    s.map_values(|x: OpcodeSet| x@)
}

/// Work the sections into regions. Fails where there is no region at all.
pub fn assemble(sections: &Vec<Section>) -> (r: Result<Regions, SfzError>)
    requires
        forall|i: int| 0 <= i < sections@.len() ==> (#[trigger] sections@[i]).ops.wf(),
    ensures
        ({
            let a = Assembly::all(section_views(sections@), sections@.len() as int);
            match r {
                Ok(x) => {
                    &&& a.regions.len() > 0
                    &&& set_views(x.sets@) == a.regions
                    &&& x.unknown@ == a.unknown
                    &&& x.unknown.wf()
                    &&& forall|i: int| 0 <= i < x.sets@.len() ==> (#[trigger] x.sets@[i]).wf()
                },
                Err(e) => a.regions.len() == 0 && e == SfzError::NoRegions,
            }
        }),
{
    let ghost views = section_views(sections@);
    let mut global = OpcodeSet::new();
    let mut group = OpcodeSet::new();
    let mut sets: Vec<OpcodeSet> = Vec::new();
    let mut unknown = Tally::new();
    let n: usize = sections.len();
    let mut i: usize = 0;
    assert(set_views(sets@) =~= Assembly::start().regions);
    while i < n
        invariant
            i <= n == sections@.len(),
            views == section_views(sections@),
            forall|j: int| 0 <= j < sections@.len() ==> (#[trigger] sections@[j]).ops.wf(),
            global.wf(),
            group.wf(),
            unknown.wf(),
            forall|j: int| 0 <= j < sets@.len() ==> (#[trigger] sets@[j]).wf(),
            Assembly::all(views, i as int) == (Assembly {
                global: global@,
                group: group@,
                regions: set_views(sets@),
                unknown: unknown@,
            }),
        decreases n - i,
    {
        let s = &sections[i];
        assert(views[i as int] == s@);
        let h = &s.header;
        if spells(h, "global") {
            global = s.ops.copy();
            group = OpcodeSet::new();
        } else if spells(h, "master") {
            group = OpcodeSet::new();
            global = global.merged(&s.ops);
        } else if spells(h, "group") {
            group = s.ops.copy();
        } else if spells(h, "region") {
            let inherited = global.merged(&group);
            let ops = inherited.merged(&s.ops);
            let ghost before = sets@;
            sets.push(ops);
            assert(set_views(sets@) =~= set_views(before).push(ops@));
        } else if spells(h, "control") || spells(h, "curve") || spells(h, "effect") {
        } else {
            let mut name: Vec<char> = Vec::new();
            name.push('<');
            let mut k: usize = 0;
            while k < h.len()
                invariant
                    k <= h@.len(),
                    name@ == seq!['<'] + h@.take(k as int),
                decreases h@.len() - k,
            {
                name.push(h[k]);
                assert(name@ =~= seq!['<'] + h@.take(k + 1));
                k += 1;
            }
            name.push('>');
            assert(h@.take(k as int) =~= h@);
            assert(name@ =~= bracketed(h@));
            unknown.bump(name);
        }
        i += 1;
    }
    if sets.len() == 0 {
        return Err(SfzError::NoRegions);
    }
    Ok(Regions { sets, unknown })
}

/// A path with forward slashes.
pub open spec fn slashed(s: Seq<char>) -> Seq<char> {
    s.map_values(
        |c: char|
            if c == '\\' {
                '/'
            } else {
                c
            },
    )
}

/// Turn the backslashes of a path into slashes.
pub fn forward_slashes(v: &Vec<char>) -> (r: Vec<char>)
    ensures
        r@ == slashed(v@),
{
    let mut out: Vec<char> = Vec::new();
    let mut i: usize = 0;
    while i < v.len()
        invariant
            i <= v@.len(),
            out@ == slashed(v@).take(i as int),
        decreases v@.len() - i,
    {
        let c = v[i];
        out.push(
            if c == '\\' {
                '/'
            } else {
                c
            },
        );
        assert(out@ =~= slashed(v@).take(i + 1));
        i += 1;
    }
    assert(slashed(v@).take(i as int) =~= slashed(v@));
    out
}

/// The directory sample paths are relative to: the last that a control section
/// among the first `n` names, with forward slashes.
pub open spec fn sample_root(sections: Seq<SectionView>, n: int) -> Seq<char>
    decreases n,
{
    if n <= 0 {
        Seq::empty()
    } else if sections[n - 1].header == "control"@ && sections[n - 1].ops.contains_key(
        "default_path"@,
    ) {
        slashed(sections[n - 1].ops["default_path"@])
    } else {
        sample_root(sections, n - 1)
    }
}

/// The directory sample paths are relative to.
pub fn default_path(sections: &Vec<Section>) -> (r: Vec<char>)
    requires
        forall|i: int| 0 <= i < sections@.len() ==> (#[trigger] sections@[i]).ops.wf(),
    ensures
        r@ == sample_root(section_views(sections@), sections@.len() as int),
{
    let ghost views = section_views(sections@);
    let mut path: Vec<char> = Vec::new();
    let mut i: usize = 0;
    assert(path@ =~= sample_root(views, 0));
    while i < sections.len()
        invariant
            i <= sections@.len(),
            views == section_views(sections@),
            forall|j: int| 0 <= j < sections@.len() ==> (#[trigger] sections@[j]).ops.wf(),
            path@ == sample_root(views, i as int),
        decreases sections@.len() - i,
    {
        let s = &sections[i];
        assert(views[i as int] == s@);
        if spells(&s.header, "control") {
            if let Some(p) = s.ops.get("default_path") {
                path = forward_slashes(p);
            }
        }
        i += 1;
    }
    path
}

// ---- what is not supported ------------------------------------------------

/// The opcodes this loader reads.
pub open spec fn known(k: Seq<char>) -> bool {
    ||| k == "sample"@
    ||| k == "lokey"@
    ||| k == "hikey"@
    ||| k == "key"@
    ||| k == "lovel"@
    ||| k == "hivel"@
    ||| k == "pitch_keycenter"@
    ||| k == "pitch_keytrack"@
    ||| k == "tune"@
    ||| k == "pitch"@
    ||| k == "transpose"@
    ||| k == "volume"@
    ||| k == "amp_veltrack"@
    ||| k == "pan"@
    ||| k == "loop_mode"@
    ||| k == "loopmode"@
    ||| k == "loop_start"@
    ||| k == "loop_end"@
    ||| k == "offset"@
    ||| k == "end"@
    ||| k == "ampeg_delay"@
    ||| k == "ampeg_attack"@
    ||| k == "ampeg_hold"@
    ||| k == "ampeg_decay"@
    ||| k == "ampeg_sustain"@
    ||| k == "ampeg_release"@
    ||| k == "cutoff"@
    ||| k == "resonance"@
    ||| k == "fil_veltrack"@
    ||| k == "fil_type"@
    ||| k == "group"@
    ||| k == "default_path"@
}

/// Opcodes recognised as deliberately unimplemented are reported together, by
/// what they start with.
pub open spec fn unimplemented_group(k: Seq<char>) -> Option<Seq<char>> {
    if begins(k, "amplfo_"@) {
        Some("amplfo_* (not implemented)"@)
    } else if begins(k, "fillfo_"@) {
        Some("fillfo_* (not implemented)"@)
    } else if begins(k, "pitchlfo_"@) {
        Some("pitchlfo_* (not implemented)"@)
    } else if begins(k, "set_cc"@) {
        Some("set_cc* (not implemented)"@)
    } else if begins(k, "label_cc"@) {
        Some("label_cc* (not implemented)"@)
    } else {
        None
    }
}

/// Under which name an opcode is reported, if it is not read.
pub open spec fn reported_as(k: Seq<char>) -> Option<Seq<char>> {
    if known(k) {
        None
    } else {
        match unimplemented_group(k) {
            Some(g) => Some(g),
            None => Some(k),
        }
    }
}

fn is_known(k: &Vec<char>) -> (r: bool)
    ensures
        r == known(k@),
{
    spells(k, "sample") || spells(k, "lokey") || spells(k, "hikey") || spells(k, "key") || spells(k, "lovel") || spells(k, "hivel") || spells(k, "pitch_keycenter") || spells(k, "pitch_keytrack") || spells(k, "tune") || spells(k, "pitch") || spells(k, "transpose") || spells(k, "volume") || spells(k, "amp_veltrack") || spells(k, "pan") || spells(k, "loop_mode") || spells(k, "loopmode") || spells(k, "loop_start") || spells(k, "loop_end") || spells(k, "offset") || spells(k, "end") || spells(k, "ampeg_delay") || spells(k, "ampeg_attack") || spells(k, "ampeg_hold") || spells(k, "ampeg_decay") || spells(k, "ampeg_sustain") || spells(k, "ampeg_release") || spells(k, "cutoff") || spells(k, "resonance") || spells(k, "fil_veltrack") || spells(k, "fil_type") || spells(k, "group") || spells(k, "default_path")
}

fn group_of(k: &Vec<char>) -> (r: Option<Vec<char>>)
    ensures
        match r {
            Some(g) => unimplemented_group(k@) == Some(g@),
            None => unimplemented_group(k@) is None,
        },
{
    if starts_with(k, &chars_of("amplfo_")) {
        return Some(chars_of("amplfo_* (not implemented)"));
    }
    if starts_with(k, &chars_of("fillfo_")) {
        return Some(chars_of("fillfo_* (not implemented)"));
    }
    if starts_with(k, &chars_of("pitchlfo_")) {
        return Some(chars_of("pitchlfo_* (not implemented)"));
    }
    if starts_with(k, &chars_of("set_cc")) {
        return Some(chars_of("set_cc* (not implemented)"));
    }
    if starts_with(k, &chars_of("label_cc")) {
        return Some(chars_of("label_cc* (not implemented)"));
    }
    None
}

/// How many of the opcodes set are reported under a name.
pub open spec fn times_reported(ops: Map<Seq<char>, Seq<char>>, name: Seq<char>) -> nat {
    ops.dom().filter(|k: Seq<char>| reported_as(k) == Some(name)).len()
}

/// A tally after a set of opcodes has been counted `n` times over: every name its
/// unread opcodes are reported under goes up by as many, and stays at the highest
/// count once there.
pub open spec fn tallied(t: Map<Seq<char>, u32>, ops: Map<Seq<char>, Seq<char>>, n: int) -> Map<
    Seq<char>,
    u32,
> {
    Map::new(
        |name: Seq<char>| t.contains_key(name) || (n > 0 && times_reported(ops, name) > 0),
        |name: Seq<char>| counted_to(t, name, n * times_reported(ops, name)),
    )
}

/// A name's count, gone up by `more`.
pub open spec fn counted_to(t: Map<Seq<char>, u32>, name: Seq<char>, more: int) -> u32 {
    let before: int = if t.contains_key(name) {
        t[name] as int
    } else {
        0
    };
    if before + more < u32::MAX {
        (before + more) as u32
    } else {
        u32::MAX
    }
}

/// Setting one more opcode reports it once more under its own name.
proof fn lemma_one_more(
    ops: Map<Seq<char>, Seq<char>>,
    key: Seq<char>,
    value: Seq<char>,
    name: Seq<char>,
)
    requires
        ops.dom().finite(),
        !ops.contains_key(key),
    ensures
        times_reported(ops.insert(key, value), name) == times_reported(ops, name) + (if reported_as(
            key,
        ) == Some(name) {
            1int
        } else {
            0
        }),
{
    let f = |k: Seq<char>| reported_as(k) == Some(name);
    ops.dom().lemma_len_filter(f);
    let more = ops.insert(key, value).dom().filter(f);
    if reported_as(key) == Some(name) {
        assert(more =~= ops.dom().filter(f).insert(key));
    } else {
        assert(more =~= ops.dom().filter(f));
    }
}

proof fn lemma_tallied_step(
    t: Map<Seq<char>, u32>,
    ops: Map<Seq<char>, Seq<char>>,
    key: Seq<char>,
    value: Seq<char>,
)
    requires
        ops.dom().finite(),
        !ops.contains_key(key),
    ensures
        tallied(t, ops.insert(key, value), 1) == match reported_as(key) {
            Some(name) => bumped(tallied(t, ops, 1), name),
            None => tallied(t, ops, 1),
        },
{
    let after = tallied(t, ops.insert(key, value), 1);
    let before = tallied(t, ops, 1);
    assert forall|name: Seq<char>|
        #![trigger after.contains_key(name)]
        #![trigger after[name]]
        {
            let b = bumped(before, name);
            &&& reported_as(key) == Some(name) ==> after.contains_key(name) && after[name]
                == b[name]
            &&& reported_as(key) != Some(name) ==> after.contains_key(name)
                == before.contains_key(name)
            &&& reported_as(key) != Some(name) && after.contains_key(name) ==> after[name]
                == before[name]
        } by {
        lemma_one_more(ops, key, value, name);
    }
    match reported_as(key) {
        Some(name) => {
            assert(after =~= bumped(before, name));
        },
        None => {
            assert(after =~= before);
        },
    }
}

proof fn lemma_nothing_tallied(t: Map<Seq<char>, u32>, ops: Map<Seq<char>, Seq<char>>, n: int)
    requires
        n == 0 || ops.dom() == Set::<Seq<char>>::empty(),
    ensures
        tallied(t, ops, n) == t,
{
    assert forall|name: Seq<char>| n * #[trigger] times_reported(ops, name) == 0 && (n > 0
        ==> times_reported(ops, name) == 0) by {
        if n != 0 {
            let f = |k: Seq<char>| reported_as(k) == Some(name);
            assert(ops.dom().filter(f) =~= Set::<Seq<char>>::empty());
        }
        let x = times_reported(ops, name);
        assert(n * x == 0) by (nonlinear_arith)
            requires
                n == 0 || x == 0,
        ;
    }
    assert(tallied(t, ops, n) =~= t);
}

/// Counting a set once more.
proof fn lemma_tallied_again(t: Map<Seq<char>, u32>, ops: Map<Seq<char>, Seq<char>>, n: int)
    requires
        0 <= n,
    ensures
        tallied(tallied(t, ops, n), ops, 1) == tallied(t, ops, n + 1),
{
    let a = tallied(tallied(t, ops, n), ops, 1);
    let b = tallied(t, ops, n + 1);
    assert forall|name: Seq<char>|
        #![trigger a.contains_key(name)]
        #![trigger a[name]]
        a.contains_key(name) == b.contains_key(name) && (a.contains_key(name) ==> a[name]
            == b[name]) by {
        let x = times_reported(ops, name) as int;
        assert((n + 1) * x == n * x + x) by (nonlinear_arith);
        assert(n * x >= 0) by (nonlinear_arith)
            requires
                n >= 0,
                x >= 0,
        ;
        if n == 0 {
            assert(n * x == 0) by (nonlinear_arith)
                requires
                    n == 0,
            ;
        }
        if x == 0 {
            assert(n * x == 0) by (nonlinear_arith)
                requires
                    x == 0,
            ;
        }
    }
    assert(a =~= b);
}

/// Count the opcodes of a region that nothing reads, so a library that leans on
/// something unimplemented is visible instead of quietly wrong.
pub fn note_unhandled(ops: &OpcodeSet, unknown: &mut Tally)
    requires
        ops.wf(),
        old(unknown).wf(),
    ensures
        final(unknown).wf(),
        final(unknown)@ == tallied(old(unknown)@, ops@, 1),
{
    let n: usize = ops.ops.len();
    let ghost list = ops.ops@;
    let mut i: usize = 0;
    proof {
        assert(pairs(list, 0).dom() =~= Set::<Seq<char>>::empty());
        lemma_nothing_tallied(unknown@, pairs(list, 0), 1);
    }
    while i < n
        invariant
            i <= n == list.len(),
            list == ops.ops@,
            ops.wf(),
            unknown.wf(),
            unknown@ == tallied(old(unknown)@, pairs(list, i as int), 1),
        decreases n - i,
    {
        let k = &ops.ops[i].key;
        proof {
            lemma_pairs(list, i as int, k@);
            lemma_tallied_step(old(unknown)@, pairs(list, i as int), k@, list[i as int].value@);
        }
        if !is_known(k) {
            match group_of(k) {
                Some(g) => unknown.bump(g),
                None => unknown.bump(copy_text(k)),
            }
        }
        i += 1;
    }
}

// ---- regions --------------------------------------------------------------

/// The opcodes of a region as decimal numbers read them, in the form a region
/// holds them: cut to an integer, rounded, or scaled, as the opcode asks for.
#[derive(Debug, Clone, Copy, PartialEq, Eq, Structural)]
pub struct Decimals {
    /// Cut to integers.
    pub lovel: Option<i32>,
    pub hivel: Option<i32>,
    pub transpose: Option<i32>,
    pub offset: Option<i32>,
    pub end: Option<i32>,
    pub loop_start: Option<i32>,
    pub loop_end: Option<i32>,
    pub group: Option<i32>,
    /// Rounded, within 16 bits.
    pub tune: Option<i16>,
    pub pitch: Option<i16>,
    /// Rounded, within 1200 either way.
    pub pitch_keytrack: Option<i16>,
    /// The volume as an attenuation in centibels.
    pub volume: Option<u32>,
    /// Velocity tracking in percent, as written.
    pub amp_veltrack: Option<u32>,
    /// Within -1 to 1.
    pub pan: Option<u32>,
    /// Envelope times in seconds, not negative.
    pub ampeg_delay: Option<u32>,
    pub ampeg_attack: Option<u32>,
    pub ampeg_hold: Option<u32>,
    pub ampeg_decay: Option<u32>,
    /// A level within 0 to 1.
    pub ampeg_sustain: Option<u32>,
    pub ampeg_release: Option<u32>,
    /// The cutoff in cents; unset where it is not above zero.
    pub cutoff: Option<u32>,
    /// The resonance in centibels.
    pub resonance: Option<u32>,
    /// Within 9600 cents either way.
    pub fil_veltrack: Option<u32>,
}

pub open spec fn clamp_int(x: int, lo: int, hi: int) -> int {
    if x < lo {
        lo
    } else if x > hi {
        hi
    } else {
        x
    }
}

fn clamp(x: i32, lo: i32, hi: i32) -> (r: i32)
    requires
        lo <= hi,
    ensures
        r == clamp_int(x as int, lo as int, hi as int),
{
    if x < lo {
        lo
    } else if x > hi {
        hi
    } else {
        x
    }
}

pub open spec fn or_else(x: Option<u32>, default: u32) -> u32 {
    match x {
        Some(v) => v,
        None => default,
    }
}

fn given(x: Option<u32>, default: u32) -> (r: u32)
    ensures
        r == or_else(x, default),
{
    match x {
        Some(v) => v,
        None => default,
    }
}

/// The keys a region sounds on.
pub open spec fn key_range(ops: Map<Seq<char>, Seq<char>>) -> (u8, u8) {
    let (lo, hi): (u8, u8) = match key_opcode(ops, "key"@) {
        Some(k) => (clamp_int(k as int, 0, 127) as u8, clamp_int(k as int, 0, 127) as u8),
        None => (0, 127),
    };
    (
        match key_opcode(ops, "lokey"@) {
            Some(k) => clamp_int(k as int, 0, 127) as u8,
            None => lo,
        },
        match key_opcode(ops, "hikey"@) {
            Some(k) => clamp_int(k as int, 0, 127) as u8,
            None => hi,
        },
    )
}

/// The key a region plays its sample unshifted on: its key centre, its only key,
/// or the sample's own.
pub open spec fn root_key(ops: Map<Seq<char>, Seq<char>>, sample_root: u8) -> i16 {
    match key_opcode(ops, "pitch_keycenter"@) {
        Some(k) => clamp_int(k as int, 0, 127) as i16,
        None => match key_opcode(ops, "key"@) {
            Some(k) => clamp_int(k as int, 0, 127) as i16,
            None => sample_root as i16,
        },
    }
}

/// How a region is asked to loop: `loop_mode`, or its older spelling `loopmode`.
/// Empty where neither is given.
pub open spec fn loop_word(ops: Map<Seq<char>, Seq<char>>) -> Seq<char> {
    if ops.contains_key("loop_mode"@) {
        ops["loop_mode"@]
    } else if ops.contains_key("loopmode"@) {
        ops["loopmode"@]
    } else {
        Seq::empty()
    }
}

/// How a region loops. Without an opcode for it the sample decides: if the file
/// declares a loop, it is used.
pub open spec fn loop_mode_of(
    ops: Map<Seq<char>, Seq<char>>,
    loop_start: u32,
    loop_end: u32,
) -> LoopMode {
    let word = loop_word(ops);
    if word == "loop_continuous"@ {
        LoopMode::Continuous
    } else if word == "loop_sustain"@ {
        LoopMode::UntilRelease
    } else if word == "one_shot"@ || word == "no_loop"@ {
        LoopMode::NoLoop
    } else if loop_end > loop_start + 1 {
        LoopMode::Continuous
    } else {
        LoopMode::NoLoop
    }
}

/// Whether a region's filter is one this synth has. Applying a lowpass where the
/// file asked for a highpass would be worse than applying nothing.
pub open spec fn lowpass(ops: Map<Seq<char>, Seq<char>>) -> bool {
    ops.contains_key("fil_type"@) ==> begins(ops["fil_type"@], "lpf"@)
}

/// 13500.0, the cutoff that means no filter.
pub const OPEN_FILTER: u32 = 0x4652_f000;

/// The region a set of opcodes describes.
pub open spec fn region_of(
    ops: Map<Seq<char>, Seq<char>>,
    d: Decimals,
    sample: u32,
    info: SampleInfo,
) -> Region {
    Region {
        sample,
        key_lo: key_range(ops).0,
        key_hi: key_range(ops).1,
        root_key_override: root_key(ops, info.root_key),
        vel_lo: match integer_opcode(ops, "lovel"@, d.lovel) {
            Some(v) => clamp_int(v as int, 0, 127) as u8,
            None => 0,
        },
        vel_hi: match integer_opcode(ops, "hivel"@, d.hivel) {
            Some(v) => clamp_int(v as int, 0, 127) as u8,
            None => 127,
        },
        fine_tune: match d.tune {
            Some(t) => t,
            None => match d.pitch {
                Some(t) => t,
                None => 0,
            },
        },
        coarse_tune: match integer_opcode(ops, "transpose"@, d.transpose) {
            Some(t) => clamp_int(t as int, -127, 127) as i16,
            None => 0,
        },
        scale_tuning: match d.pitch_keytrack {
            Some(s) => s,
            None => 100,
        },
        attenuation_cb: or_else(d.volume, 0),
        // 100.
        amp_veltrack: or_else(d.amp_veltrack, 0x42c8_0000),
        pan: or_else(d.pan, 0),
        loop_mode: loop_mode_of(ops, info.loop_start, info.loop_end),
        one_shot: loop_word(ops) == "one_shot"@,
        addr_start: match integer_opcode(ops, "offset"@, d.offset) {
            Some(o) => if o > 0 {
                o
            } else {
                0
            },
            None => 0,
        },
        addr_end: match integer_opcode(ops, "end"@, d.end) {
            Some(e) => if e > 0 {
                wrap32(e - info.len)
            } else {
                0
            },
            None => 0,
        },
        addr_loop_start: match integer_opcode(ops, "loop_start"@, d.loop_start) {
            Some(l) => wrap32(l - info.loop_start),
            None => 0,
        },
        addr_loop_end: match integer_opcode(ops, "loop_end"@, d.loop_end) {
            Some(l) => wrap32(l - info.loop_end),
            None => 0,
        },
        delay: or_else(d.ampeg_delay, 0),
        // 0.001, 100, 1 and 0.05.
        attack: or_else(d.ampeg_attack, 0x3a83_126f),
        hold: or_else(d.ampeg_hold, 0),
        decay: or_else(d.ampeg_decay, 0x42c8_0000),
        sustain: or_else(d.ampeg_sustain, F32_ONE),
        release: or_else(d.ampeg_release, 0x3d4c_cccd),
        filter_fc_cents: if lowpass(ops) {
            or_else(d.cutoff, OPEN_FILTER)
        } else {
            OPEN_FILTER
        },
        filter_q_cb: or_else(d.resonance, 0),
        filter_veltrack_cents: if lowpass(ops) {
            or_else(d.fil_veltrack, 0)
        } else {
            0
        },
        exclusive_class: match integer_opcode(ops, "group"@, d.group) {
            Some(g) => clamp_int(g as int, 0, 255) as u8,
            None => 0,
        },
        ..blank_region()
    }
}

/// Turn a region's opcodes into a region.
pub fn region_from_opcodes(
    ops: &OpcodeSet,
    d: &Decimals,
    sample: u32,
    info: &SampleInfo,
) -> (r: Region)
    requires
        ops.wf(),
    ensures
        r == region_of(ops@, *d, sample, *info),
{
    let keys = read_keys(ops);
    let root: i16 = read_root(ops, info.root_key);
    let vel_lo: u8 = within(ops.integer("lovel", d.lovel), 0, 127, 0) as u8;
    let vel_hi: u8 = within(ops.integer("hivel", d.hivel), 0, 127, 127) as u8;
    let fine_tune: i16 = match d.tune {
        Some(t) => t,
        None => match d.pitch {
            Some(t) => t,
            None => 0,
        },
    };
    let coarse_tune: i16 = within(ops.integer("transpose", d.transpose), -127, 127, 0) as i16;
    let scale_tuning: i16 = match d.pitch_keytrack {
        Some(s) => s,
        None => 100,
    };
    let word = read_loop_word(ops);
    let loop_mode = read_loop_mode(&word, info, Ghost(ops@));
    let one_shot = spells(&word, "one_shot");
    let addr_start: i32 = within(ops.integer("offset", d.offset), 0, i32::MAX, 0);
    let addr_end: i32 = match ops.integer("end", d.end) {
        Some(e) => if e > 0 {
            wrap_i32(e as i128 - info.len as i128)
        } else {
            0
        },
        None => 0,
    };
    let addr_loop_start: i32 = distance_to(ops.integer("loop_start", d.loop_start), info.loop_start);
    let addr_loop_end: i32 = distance_to(ops.integer("loop_end", d.loop_end), info.loop_end);
    let lowpass = reads_lowpass(ops);
    let exclusive_class: u8 = within(ops.integer("group", d.group), 0, 255, 0) as u8;
    let blank = Region::default();
    Region {
        sample,
        key_lo: keys.0,
        key_hi: keys.1,
        root_key_override: root,
        vel_lo,
        vel_hi,
        fine_tune,
        coarse_tune,
        scale_tuning,
        attenuation_cb: given(d.volume, 0),
        amp_veltrack: given(d.amp_veltrack, 0x42c8_0000),
        pan: given(d.pan, 0),
        loop_mode,
        one_shot,
        addr_start,
        addr_end,
        addr_loop_start,
        addr_loop_end,
        delay: given(d.ampeg_delay, 0),
        attack: given(d.ampeg_attack, 0x3a83_126f),
        hold: given(d.ampeg_hold, 0),
        decay: given(d.ampeg_decay, 0x42c8_0000),
        sustain: given(d.ampeg_sustain, F32_ONE),
        release: given(d.ampeg_release, 0x3d4c_cccd),
        filter_fc_cents: if lowpass {
            given(d.cutoff, OPEN_FILTER)
        } else {
            OPEN_FILTER
        },
        filter_q_cb: given(d.resonance, 0),
        filter_veltrack_cents: if lowpass {
            given(d.fil_veltrack, 0)
        } else {
            0
        },
        exclusive_class,
        ..blank
    }
}

fn within(x: Option<i32>, lo: i32, hi: i32, default: i32) -> (r: i32)
    requires
        lo <= hi,
    ensures
        r == match x {
            Some(v) => clamp_int(v as int, lo as int, hi as int),
            None => default as int,
        },
{
    match x {
        Some(v) => clamp(v, lo, hi),
        None => default,
    }
}

fn distance_to(x: Option<i32>, from: u32) -> (r: i32)
    ensures
        r == match x {
            Some(v) => wrap32(v - from),
            None => 0,
        },
{
    match x {
        Some(v) => wrap_i32(v as i128 - from as i128),
        None => 0,
    }
}

fn read_keys(ops: &OpcodeSet) -> (r: (u8, u8))
    requires
        ops.wf(),
    ensures
        r == key_range(ops@),
{
    let mut lo: u8 = 0;
    let mut hi: u8 = 127;
    if let Some(k) = ops.key("key") {
        let only: u8 = clamp(k, 0, 127) as u8;
        lo = only;
        hi = only;
    }
    if let Some(k) = ops.key("lokey") {
        lo = clamp(k, 0, 127) as u8;
    }
    if let Some(k) = ops.key("hikey") {
        hi = clamp(k, 0, 127) as u8;
    }
    (lo, hi)
}

fn read_root(ops: &OpcodeSet, sample_root: u8) -> (r: i16)
    requires
        ops.wf(),
    ensures
        r == root_key(ops@, sample_root),
{
    if let Some(k) = ops.key("pitch_keycenter") {
        return clamp(k, 0, 127) as i16;
    }
    if let Some(k) = ops.key("key") {
        return clamp(k, 0, 127) as i16;
    }
    sample_root as i16
}

fn reads_lowpass(ops: &OpcodeSet) -> (r: bool)
    requires
        ops.wf(),
    ensures
        r == lowpass(ops@),
{
    match ops.get("fil_type") {
        Some(kind) => starts_with(kind, &chars_of("lpf")),
        None => true,
    }
}

fn read_loop_word(ops: &OpcodeSet) -> (r: Vec<char>)
    requires
        ops.wf(),
    ensures
        r@ == loop_word(ops@),
{
    if let Some(w) = ops.get("loop_mode") {
        return copy_text(w);
    }
    if let Some(w) = ops.get("loopmode") {
        return copy_text(w);
    }
    Vec::new()
}

fn read_loop_mode(word: &Vec<char>, info: &SampleInfo, Ghost(ops): Ghost<Map<Seq<char>, Seq<char>>>)
    -> (r: LoopMode)
    requires
        word@ == loop_word(ops),
    ensures
        r == loop_mode_of(ops, info.loop_start, info.loop_end),
{
    if spells(word, "loop_continuous") {
        return LoopMode::Continuous;
    }
    if spells(word, "loop_sustain") {
        return LoopMode::UntilRelease;
    }
    if spells(word, "one_shot") || spells(word, "no_loop") {
        return LoopMode::NoLoop;
    }
    if info.loop_end as u64 > info.loop_start as u64 + 1 {
        LoopMode::Continuous
    } else {
        LoopMode::NoLoop
    }
}

/// Whether a region can sound at all: it names a sample, and it is not switched
/// off by an end of -1.
pub open spec fn usable(ops: Map<Seq<char>, Seq<char>>, end: Option<i32>) -> bool {
    ops.contains_key("sample"@) && integer_opcode(ops, "end"@, end) != Some(-1i32)
}

/// Whether a region can sound at all.
pub fn is_usable(ops: &OpcodeSet, end: Option<i32>) -> (r: bool)
    requires
        ops.wf(),
    ensures
        r == usable(ops@, end),
{
    match ops.get("sample") {
        None => false,
        Some(_) => match ops.integer("end", end) {
            Some(e) => e != -1,
            None => true,
        },
    }
}

/// The pan of one half of a stereo sample: the left half hard left, the right
/// half hard right.
pub open spec fn half_pan(half: int) -> u32 {
    if half == 0 {
        F32_MINUS_ONE
    } else {
        F32_ONE
    }
}

/// The region of one channel of a sample with `halves` channels.
pub open spec fn channel_region(
    ops: Map<Seq<char>, Seq<char>>,
    d: Decimals,
    channels: Seq<u32>,
    samples: Seq<SampleInfo>,
    half: int,
) -> Region {
    let r = region_of(ops, d, channels[half], samples[channels[half] as int]);
    if channels.len() == 2 {
        Region { pan: half_pan(half), ..r }
    } else {
        r
    }
}

/// Add the regions of one set of opcodes, one per channel of its sample: a
/// stereo sample becomes two mono regions panned apart. What the opcodes ask for
/// and nothing reads is counted once per region.
pub fn add_regions(
    ops: &OpcodeSet,
    d: &Decimals,
    channels: &Vec<u32>,
    samples: &Vec<SampleInfo>,
    regions: &mut Vec<Region>,
    unknown: &mut Tally,
)
    requires
        ops.wf(),
        old(unknown).wf(),
        forall|i: int| 0 <= i < channels@.len() ==> (#[trigger] channels@[i]) < samples@.len(),
    ensures
        final(unknown).wf(),
        final(unknown)@ == tallied(old(unknown)@, ops@, channels@.len() as int),
        final(regions)@ == old(regions)@ + Seq::new(
            channels@.len(),
            |i: int| channel_region(ops@, *d, channels@, samples@, i),
        ),
{
    let n: usize = channels.len();
    let ghost r0 = regions@;
    let ghost f = |i: int| channel_region(ops@, *d, channels@, samples@, i);
    let mut ch: usize = 0;
    assert(regions@ =~= r0 + Seq::new(0, f));
    proof {
        lemma_nothing_tallied(unknown@, ops@, 0);
    }
    while ch < n
        invariant
            ch <= n == channels@.len(),
            ops.wf(),
            unknown.wf(),
            unknown@ == tallied(old(unknown)@, ops@, ch as int),
            forall|i: int| 0 <= i < channels@.len() ==> (#[trigger] channels@[i]) < samples@.len(),
            f == (|i: int| channel_region(ops@, *d, channels@, samples@, i)),
            regions@ == r0 + Seq::new(ch as nat, f),
        decreases n - ch,
    {
        note_unhandled(ops, unknown);
        proof {
            lemma_tallied_again(old(unknown)@, ops@, ch as int);
        }
        let s: u32 = channels[ch];
        let mut r = region_from_opcodes(ops, d, s, &samples[s as usize]);
        if n == 2 {
            r.pan = if ch == 0 {
                F32_MINUS_ONE
            } else {
                F32_ONE
            };
        }
        regions.push(r);
        assert(regions@ =~= r0 + Seq::new((ch + 1) as nat, f));
        ch += 1;
    }
}

// ---- samples --------------------------------------------------------------

/// Channels of a sample that become regions: one or two.
pub fn used_channels(channels: u16) -> (r: usize)
    ensures
        r == if channels < 1 {
            1
        } else if channels > 2 {
            2
        } else {
            channels as int
        },
{
    if channels < 1 {
        1
    } else if channels > 2 {
        2
    } else {
        channels as usize
    }
}

/// The loop of a sample of `len` frames: the file's own, or all of it.
pub fn file_loop(points: Option<(u32, u32)>, len: u32) -> (r: (u32, u32))
    ensures
        r == match points {
            Some(p) => p,
            None => (0u32, if len > 0 {
                (len - 1) as u32
            } else {
                0
            }),
        },
{
    match points {
        Some(p) => p,
        None => (0, len.saturating_sub(1)),
    }
}

/// What is known of a sample beside its data.
#[derive(Debug)]
pub struct SampleMeta {
    /// Loop start and end in pool frames.
    pub loop_start: u32,
    pub loop_end: u32,
    /// The rate of the file.
    pub source_rate: u32,
    pub root_key: Option<u8>,
    pub correction_cents: u32,
    pub resample_ratio: u32,
    pub name: String,
}

/// A sample of `len` frames that starts at `start` in the pool. Its loop is held
/// inside it; a pool of one rate has it at that rate; and without a root key of
/// its own it is rooted at middle C.
pub open spec fn sample_info(start: int, len: int, pool_rate: u32, meta: SampleMeta) -> SampleInfo {
    SampleInfo {
        start: start as u32,
        len: len as u32,
        loop_start: clamp_int(meta.loop_start as int, 0, if len > 0 {
            len - 1
        } else {
            0
        }) as u32,
        loop_end: clamp_int(meta.loop_end as int, 0, len) as u32,
        rate: if pool_rate != 0 {
            pool_rate
        } else {
            meta.source_rate
        },
        root_key: match meta.root_key {
            Some(k) => k,
            None => 60u8,
        },
        correction_cents: meta.correction_cents,
        resample_ratio: meta.resample_ratio,
        name: meta.name,
    }
}

/// Add a sample to the pool, with guard frames behind it, and return its index.
pub fn add_sample(
    pool: &mut Vec<i16>,
    samples: &mut Vec<SampleInfo>,
    data: &Vec<i16>,
    pool_rate: u32,
    meta: SampleMeta,
) -> (index: u32)
    requires
        old(pool)@.len() + data@.len() + POOL_GUARD <= u32::MAX,
        old(samples)@.len() <= u32::MAX,
    ensures
        index == old(samples)@.len(),
        final(pool)@ == old(pool)@ + data@ + Seq::new(POOL_GUARD as nat, |i: int| 0i16),
        final(samples)@.len() == old(samples)@.len() + 1,
        final(samples)@.drop_last() == old(samples)@,
        final(samples)@.last() == sample_info(
            old(pool)@.len() as int,
            data@.len() as int,
            pool_rate,
            meta,
        ),
{
    let start: u32 = pool.len() as u32;
    let len: u32 = data.len() as u32;
    let index: u32 = samples.len() as u32;
    let ghost p0 = pool@;
    let mut i: usize = 0;
    while i < data.len()
        invariant
            i <= data@.len(),
            pool@ == p0 + data@.take(i as int),
        decreases data@.len() - i,
    {
        pool.push(data[i]);
        assert(pool@ =~= p0 + data@.take(i + 1));
        i += 1;
    }
    assert(data@.take(i as int) =~= data@);
    let ghost p1 = pool@;
    let mut g: usize = 0;
    while g < POOL_GUARD
        invariant
            g <= POOL_GUARD,
            pool@ == p1 + Seq::new(g as nat, |k: int| 0i16),
        decreases POOL_GUARD - g,
    {
        pool.push(0);
        assert(pool@ =~= p1 + Seq::new((g + 1) as nat, |k: int| 0i16));
        g += 1;
    }
    let last: u32 = len.saturating_sub(1);
    samples.push(
        SampleInfo {
            start,
            len,
            loop_start: if meta.loop_start < last {
                meta.loop_start
            } else {
                last
            },
            loop_end: if meta.loop_end < len {
                meta.loop_end
            } else {
                len
            },
            rate: if pool_rate != 0 {
                pool_rate
            } else {
                meta.source_rate
            },
            root_key: match meta.root_key {
                Some(k) => k,
                None => 60,
            },
            correction_cents: meta.correction_cents,
            resample_ratio: meta.resample_ratio,
            name: meta.name,
        },
    );
    assert(samples@.drop_last() =~= old(samples)@);
    index
}

} // verus!
