//! The SFZ text grammar: lines, headers, opcodes and references to other files.

use crate::opcodes::OpcodeSet;
use crate::text::{
    begins, chars_of, copy_text, find, find_char, lower_all, skip_space, starts_with, trim,
    trim_lowered, trim_start, trimmed, unquote, unquote_end, unquote_start,
};
use vstd::prelude::*;
use vstd::string::StringSliceAdditionalSpecFns;

verus! {

/// ASCII white space: tab, line feed, form feed, carriage return and space.
pub open spec fn blank(b: u8) -> bool {
    b == 9 || b == 10 || b == 12 || b == 13 || b == 32
}

fn is_blank(b: u8) -> (r: bool)
    ensures
        r == blank(b),
{
    b == 9 || b == 10 || b == 12 || b == 13 || b == 32
}

/// The first place from `from` on with an `=` or a `<`.
pub open spec fn next_stop(k: Seq<u8>, from: int) -> Option<int>
    decreases k.len() - from,
{
    if from < 0 || from >= k.len() {
        None
    } else if k[from] == 61 || k[from] == 60 {
        Some(from)
    } else {
        next_stop(k, from + 1)
    }
}

/// Where the last run of white space before `end` starts.
pub open spec fn last_run(k: Seq<u8>, end: int) -> Option<int>
    decreases end,
{
    if end <= 0 {
        None
    } else if blank(k[end - 1]) && (end == 1 || !blank(k[end - 2])) {
        Some(end - 1)
    } else {
        last_run(k, end - 1)
    }
}

/// Where a value ends: at the white space before the token with the next `=` or
/// `<`, so that values with spaces in them survive. Without such a token the
/// value runs to the end; without white space it ends at the `=` or `<`.
pub open spec fn value_end_of(k: Seq<u8>) -> int {
    match next_stop(k, 0) {
        None => k.len() as int,
        Some(e) => match last_run(k, e) {
            Some(w) => w,
            None => e,
        },
    }
}

proof fn lemma_stop_bounds(k: Seq<u8>, from: int)
    requires
        0 <= from,
    ensures
        next_stop(k, from) matches Some(e) ==> from <= e < k.len(),
    decreases k.len() - from,
{
    if from < k.len() && !(k[from] == 61 || k[from] == 60) {
        lemma_stop_bounds(k, from + 1);
    }
}

proof fn lemma_run_bounds(k: Seq<u8>, end: int)
    ensures
        last_run(k, end) matches Some(w) ==> 0 <= w < end,
    decreases end,
{
    if end > 0 {
        lemma_run_bounds(k, end - 1);
    }
}

pub proof fn lemma_value_end_bounds(k: Seq<u8>)
    ensures
        0 <= value_end_of(k) <= k.len(),
{
    lemma_stop_bounds(k, 0);
    if let Some(e) = next_stop(k, 0) {
        lemma_run_bounds(k, e);
    }
}

/// Inside a run of white space that starts at `w`, the last run is that one.
proof fn lemma_run_extends(k: Seq<u8>, w: int, end: int)
    requires
        0 <= w < end <= k.len(),
        w == 0 || !blank(k[w - 1]),
        forall|i: int| w <= i < end ==> blank(#[trigger] k[i]),
    ensures
        last_run(k, end) == Some(w),
    decreases end,
{
    if end > w + 1 {
        assert(blank(k[end - 2]));
        lemma_run_extends(k, w, end - 1);
    }
}

fn scan_value(k: &[u8]) -> (r: usize)
    ensures
        r == value_end_of(k@),
        r <= k@.len(),
{
    let n: usize = k.len();
    let mut i: usize = 0;
    let mut last: Option<usize> = None;
    while i < n
        invariant
            i <= n == k@.len(),
            next_stop(k@, 0) == next_stop(k@, i as int),
            last_run(k@, i as int) == (match last {
                Some(w) => Some(w as int),
                None => None::<int>,
            }),
            last matches Some(w) ==> w < n,
            i == 0 || i == n || !blank(k@[i as int]) || !blank(k@[i - 1]),
        decreases n - i,
    {
        let b: u8 = k[i];
        if b == 61 || b == 60 {
            return match last {
                Some(w) => w,
                None => i,
            };
        }
        if is_blank(b) {
            let w: usize = i;
            while i < n && is_blank(k[i])
                invariant
                    w <= i <= n == k@.len(),
                    next_stop(k@, 0) == next_stop(k@, i as int),
                    forall|j: int| w <= j < i ==> blank(#[trigger] k@[j]),
                decreases n - i,
            {
                i += 1;
            }
            proof {
                lemma_run_extends(k@, w as int, i as int);
            }
            last = Some(w);
        } else {
            i += 1;
        }
    }
    n
}

/// Where the value at the start of `s` ends, in bytes.
pub fn find_value_end(s: &str) -> (r: usize)
    ensures
        r == value_end_of(s.spec_bytes()),
        r <= s.spec_bytes().len(),
{
    scan_value(s.as_bytes())
}

/// A character as the byte the grammar tells apart, with one byte standing for
/// everything outside ASCII.
pub open spec fn kind(c: char) -> u8 {
    if (c as u32) < 128 {
        c as u8
    } else {
        128
    }
}

pub open spec fn kinds(s: Seq<char>) -> Seq<u8> {
    s.map_values(|c: char| kind(c))
}

/// A line without its comment: everything before the first double slash.
pub open spec fn uncommented(s: Seq<char>, from: int) -> Seq<char>
    decreases s.len() - from,
{
    if from < 0 || from + 1 >= s.len() {
        s
    } else if s[from] == '/' && s[from + 1] == '/' {
        s.take(from)
    } else {
        uncommented(s, from + 1)
    }
}

/// Where the comment of the line in `from..to` starts.
fn strip_comment(v: &Vec<char>, from: usize, to: usize) -> (r: usize)
    requires
        from <= to <= v@.len(),
    ensures
        from <= r <= to,
        v@.subrange(from as int, r as int) == uncommented(v@.subrange(from as int, to as int), 0),
{
    let ghost s = v@.subrange(from as int, to as int);
    let mut i: usize = from;
    while to - i >= 2
        invariant
            from <= i <= to <= v@.len(),
            s == v@.subrange(from as int, to as int),
            uncommented(s, 0) == uncommented(s, i - from),
        decreases to - i,
    {
        if v[i] == '/' && v[i + 1] == '/' {
            assert(v@.subrange(from as int, i as int) =~= s.take(i - from));
            return i;
        }
        i += 1;
    }
    to
}

/// What a text holds, in order: sections, and places where another file's
/// contents go.
#[derive(Debug)]
pub enum Item {
    Section(Vec<char>, OpcodeSet),
    /// The path of a file to read in here.
    Nested(Vec<char>),
}

/// An item as the contracts speak of it.
#[verifier::ext_equal]
pub enum ItemView {
    Section(Seq<char>, Map<Seq<char>, Seq<char>>),
    Nested(Seq<char>),
}

impl View for Item {
    type V = ItemView;

    open spec fn view(&self) -> ItemView {
        match self {
            Item::Section(h, ops) => ItemView::Section(h@, ops@),
            Item::Nested(p) => ItemView::Nested(p@),
        }
    }
}

impl Item {
    pub open spec fn wf(&self) -> bool {
        match self {
            Item::Section(h, ops) => ops.wf(),
            Item::Nested(p) => true,
        }
    }
}

/// A text half read.
#[verifier::ext_equal]
pub struct Progress {
    pub items: Seq<ItemView>,
    pub header: Seq<char>,
    pub current: Map<Seq<char>, Seq<char>>,
    /// The section in hand has a header or an opcode.
    pub started: bool,
}

impl Progress {
    /// The start of a text: an unnamed section counts as global.
    pub open spec fn start() -> Progress {
        Progress {
            items: Seq::empty(),
            header: "global"@,
            current: Map::empty(),
            started: false,
        }
    }

    /// The section in hand closed.
    pub open spec fn closed(self) -> Progress {
        if self.started {
            Progress {
                items: self.items.push(ItemView::Section(self.header, self.current)),
                current: Map::empty(),
                started: false,
                ..self
            }
        } else {
            self
        }
    }

    /// A header.
    pub open spec fn header(self, name: Seq<char>) -> Progress {
        Progress { header: name, current: Map::empty(), started: true, ..self.closed() }
    }

    /// An opcode. One without a name is dropped.
    pub open spec fn opcode(self, key: Seq<char>, value: Seq<char>) -> Progress {
        if key.len() == 0 {
            self
        } else {
            Progress { current: self.current.insert(key, value), started: true, ..self }
        }
    }

    /// A reference to another file.
    pub open spec fn nested(self, path: Seq<char>) -> Progress {
        let p = self.closed();
        Progress { items: p.items.push(ItemView::Nested(path)), ..p }
    }

    /// The rest of a line: any number of headers and opcodes. A header without
    /// its closing bracket, or a word without a value, ends the line.
    pub open spec fn rest(self, s: Seq<char>) -> Progress
        decreases s.len(),
    {
        proof {
            lemma_trim_start_len(s);
        }
        let r = trim_start(s);
        if r.len() == 0 {
            self
        } else if r[0] == '<' {
            let t = r.skip(1);
            match find_char(t, '>', 0) {
                None => self,
                Some(e) => {
                    proof {
                        lemma_find_bounds(t, '>', 0);
                    }
                    self.header(lower_all(trimmed(t.take(e)))).rest(t.skip(e + 1))
                },
            }
        } else {
            match find_char(r, '=', 0) {
                None => self,
                Some(e) => {
                    let after = r.skip(e + 1);
                    let v = value_end_of(kinds(after));
                    proof {
                        lemma_find_bounds(r, '=', 0);
                        lemma_value_end_bounds(kinds(after));
                    }
                    self.opcode(lower_all(trimmed(r.take(e))), trimmed(after.take(v))).rest(
                        after.skip(v),
                    )
                },
            }
        }
    }

    /// One line.
    pub open spec fn line(self, raw: Seq<char>) -> Progress {
        let s = trimmed(uncommented(raw, 0));
        if s.len() == 0 {
            self
        } else if begins(s, nest_word()) {
            self.nested(
                trimmed(
                    unquote_end(unquote_start(trimmed(s.skip(nest_word().len() as int)))),
                ),
            )
        } else if begins(s, "#define"@) {
            self
        } else {
            self.rest(s)
        }
    }

    /// The lines of a text from `at` on.
    pub open spec fn lines(self, text: Seq<char>, at: int) -> Progress
        decreases text.len() - at,
    {
        if at < 0 || at > text.len() {
            self
        } else {
            match find_char(text.skip(at), '\n', 0) {
                None => self.line(text.skip(at)),
                Some(e) => {
                    proof {
                        lemma_find_bounds(text.skip(at), '\n', 0);
                    }
                    self.line(text.subrange(at, at + e)).lines(text, at + e + 1)
                },
            }
        }
    }
}

/// The word that asks for another file's contents.
pub open spec fn nest_word() -> Seq<char> {
    seq!['#', 'i', 'n', 'c', 'l', 'u', 'd', 'e']
}

/// What a whole text holds.
pub open spec fn parsed(text: Seq<char>) -> Seq<ItemView> {
    Progress::start().lines(text, 0).closed().items
}

pub proof fn lemma_trim_start_len(s: Seq<char>)
    ensures
        trim_start(s).len() <= s.len(),
    decreases s.len(),
{
    if s.len() > 0 && crate::text::space(s[0]) {
        lemma_trim_start_len(s.skip(1));
    }
}

pub proof fn lemma_find_bounds(s: Seq<char>, c: char, from: int)
    requires
        0 <= from,
    ensures
        find_char(s, c, from) matches Some(i) ==> from <= i < s.len() && s[i] == c,
    decreases s.len() - from,
{
    if from < s.len() && s[from] != c {
        lemma_find_bounds(s, c, from + 1);
    }
}

/// A text being read.
struct Reader {
    items: Vec<Item>,
    header: Vec<char>,
    current: OpcodeSet,
    started: bool,
}

spec fn item_views(items: Seq<Item>) -> Seq<ItemView> {
    items.map_values(|i: Item| i@)
}

impl Reader {
    spec fn view(&self) -> Progress {
        Progress {
            items: item_views(self.items@),
            header: self.header@,
            current: self.current@,
            started: self.started,
        }
    }

    spec fn wf(&self) -> bool {
        &&& self.current.wf()
        &&& forall|i: int| 0 <= i < self.items@.len() ==> (#[trigger] self.items@[i]).wf()
        &&& !self.started ==> self.current@ == Map::<Seq<char>, Seq<char>>::empty()
    }

    fn close(&mut self)
        requires
            old(self).wf(),
        ensures
            final(self).wf(),
            final(self)@ == old(self)@.closed(),
            !final(self).started,
    {
        if self.started {
            let ghost before = self@;
            let mut ops = OpcodeSet::new();
            std::mem::swap(&mut ops, &mut self.current);
            let h = copy_text(&self.header);
            self.items.push(Item::Section(h, ops));
            self.started = false;
            assert(self@.items =~= before.closed().items);
        }
    }

    fn take_header(&mut self, name: Vec<char>)
        requires
            old(self).wf(),
        ensures
            final(self).wf(),
            final(self)@ == old(self)@.header(name@),
    {
        self.close();
        self.header = name;
        self.current = OpcodeSet::new();
        self.started = true;
    }

    fn take_opcode(&mut self, key: Vec<char>, value: Vec<char>)
        requires
            old(self).wf(),
        ensures
            final(self).wf(),
            final(self)@ == old(self)@.opcode(key@, value@),
    {
        if key.len() > 0 {
            self.current.insert(key, value);
            self.started = true;
        }
    }

    fn take_rest(&mut self, v: &Vec<char>)
        requires
            old(self).wf(),
        ensures
            final(self).wf(),
            final(self)@ == old(self)@.rest(v@),
    {
        let n: usize = v.len();
        let mut at: usize = 0;
        assert(v@.subrange(0, n as int) =~= v@);
        loop
            invariant_except_break
                at <= n,
                self@.rest(v@.subrange(at as int, n as int)) == old(self)@.rest(v@),
            invariant
                n == v@.len(),
                self.wf(),
            ensures
                self.wf(),
                self@ == old(self)@.rest(v@),
            decreases n - at,
        {
            let ghost s = v@.subrange(at as int, n as int);
            let p: usize = skip_space(v, at, n);
            let ghost r = v@.subrange(p as int, n as int);
            assert(r == trim_start(s));
            if p == n {
                break;
            }
            assert(r[0] == v@[p as int]);
            if v[p] == '<' {
                let ghost t = v@.subrange(p + 1, n as int);
                assert(r.skip(1) =~= t);
                match find(v, '>', p + 1, n) {
                    None => {
                        break;
                    },
                    Some(e) => {
                        let name = trim_lowered(v, p + 1, e);
                        let ghost k = e - (p + 1);
                        assert(v@.subrange(p + 1, e as int) =~= t.take(k));
                        self.take_header(name);
                        assert(t.skip(k + 1) =~= v@.subrange(e + 1, n as int));
                        at = e + 1;
                    },
                }
            } else {
                match find(v, '=', p, n) {
                    None => {
                        break;
                    },
                    Some(e) => {
                        let key = trim_lowered(v, p, e);
                        let ghost k = e - p;
                        assert(v@.subrange(p as int, e as int) =~= r.take(k));
                        let ghost after = v@.subrange(e + 1, n as int);
                        assert(r.skip(k + 1) =~= after);
                        let w: usize = char_value_end(v, e + 1, n);
                        let value = trim(v, e + 1, e + 1 + w);
                        assert(v@.subrange(e + 1, e + 1 + w) =~= after.take(w as int));
                        self.take_opcode(key, value);
                        assert(after.skip(w as int) =~= v@.subrange(e + 1 + w, n as int));
                        at = e + 1 + w;
                    },
                }
            }
        }
    }

    fn take_line(&mut self, text: &Vec<char>, from: usize, to: usize)
        requires
            old(self).wf(),
            from <= to <= text@.len(),
        ensures
            final(self).wf(),
            final(self)@ == old(self)@.line(text@.subrange(from as int, to as int)),
    {
        let end: usize = strip_comment(text, from, to);
        let s = trim(text, from, end);
        if s.len() == 0 {
            return;
        }
        let word = nest_word_chars();
        if starts_with(&s, &word) {
            let a = trim(&s, word.len(), s.len());
            assert(s@.subrange(word@.len() as int, s@.len() as int) =~= s@.skip(
                word@.len() as int,
            ));
            let b = unquote(&a);
            let path = trim(&b, 0, b.len());
            assert(b@.subrange(0, b@.len() as int) =~= b@);
            self.close();
            let ghost before = self@;
            let ghost p = path@;
            self.items.push(Item::Nested(path));
            assert(self@.items =~= before.items.push(ItemView::Nested(p)));
            return;
        }
        let define = chars_of("#define");
        if starts_with(&s, &define) {
            return;
        }
        self.take_rest(&s);
    }
}

fn nest_word_chars() -> (r: Vec<char>)
    ensures
        r@ == nest_word(),
{
    let mut v: Vec<char> = Vec::new();
    v.push('#');
    v.push('i');
    v.push('n');
    v.push('c');
    v.push('l');
    v.push('u');
    v.push('d');
    v.push('e');
    assert(v@ =~= nest_word());
    v
}

/// How many characters the value at the start of `from..to` has.
fn char_value_end(v: &Vec<char>, from: usize, to: usize) -> (r: usize)
    requires
        from <= to <= v@.len(),
    ensures
        r == value_end_of(kinds(v@.subrange(from as int, to as int))),
        from + r <= to,
{
    let mut k: Vec<u8> = Vec::new();
    let ghost s = v@.subrange(from as int, to as int);
    let mut i: usize = from;
    while i < to
        invariant
            from <= i <= to <= v@.len(),
            s == v@.subrange(from as int, to as int),
            k@ == kinds(s).take(i - from),
        decreases to - i,
    {
        let c = v[i];
        k.push(
            if (c as u32) < 128 {
                c as u8
            } else {
                128
            },
        );
        assert(k@ =~= kinds(s).take(i + 1 - from));
        i += 1;
    }
    assert(kinds(s).take(to - from) =~= kinds(s));
    scan_value(k.as_slice())
}

/// Read a text into its sections and its references to other files.
pub fn parse_text(text: &str) -> (r: Vec<Item>)
    ensures
        r@.map_values(|i: Item| i@) == parsed(text@),
        forall|i: int| 0 <= i < r@.len() ==> (#[trigger] r@[i]).wf(),
{
    let v = chars_of(text);
    let n: usize = v.len();
    let mut reader = Reader {
        items: Vec::new(),
        header: chars_of("global"),
        current: OpcodeSet::new(),
        started: false,
    };
    assert(reader@ =~= Progress::start());
    let mut at: usize = 0;
    loop
        invariant_except_break
            at <= n,
            reader@.lines(text@, at as int) == Progress::start().lines(text@, 0),
        invariant
            n == v@.len(),
            v@ == text@,
            reader.wf(),
        ensures
            reader.wf(),
            reader@ == Progress::start().lines(text@, 0),
        decreases n - at,
    {
        assert(text@.skip(at as int) =~= v@.subrange(at as int, n as int));
        match find(&v, '\n', at, n) {
            None => {
                reader.take_line(&v, at, n);
                break;
            },
            Some(e) => {
                reader.take_line(&v, at, e);
                at = e + 1;
            },
        }
    }
    reader.close();
    reader.items
}

} // verus!
