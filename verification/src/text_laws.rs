//! What holds of any text: letters, numbers, trimming, lines and placeholders.

use crate::config::Config;
use crate::sfz_text::{
    blank, kind, kinds, last_run, lemma_find_bounds, lemma_value_end_bounds, nest_word, next_stop,
    parsed, uncommented, value_end_of, ItemView, Progress,
};
use crate::shaders::{
    decimal, digit, lemma_nothing_to_replace, replaced, source_of, substituted, truth,
};
use crate::text::{
    begins, digits_value, find_char, integer_of, lower_all, space, trim_end, trim_start, trimmed,
    unquote_end, unquote_start,
};
use vstd::prelude::*;

verus! {

/// Capital letters become small, place by place, and nothing else changes.
pub proof fn law_lower_case(s: Seq<char>, i: int)
    requires
        0 <= i < s.len(),
    ensures
        lower_all(s).len() == s.len(),
        'A' <= s[i] <= 'Z' ==> lower_all(s)[i] as int == s[i] as int + 32,
        !('A' <= s[i] <= 'Z') ==> lower_all(s)[i] == s[i],
        lower_all(lower_all(s)) == lower_all(s),
{
    assert(lower_all(lower_all(s)) =~= lower_all(s));
}

/// White space is what a text is trimmed of: blanks and line breaks, and no
/// letter, digit or sign.
pub proof fn law_white_space(c: char)
    ensures
        c == ' ' || c == '\t' || c == '\n' || c == '\r' ==> space(c),
        '!' <= c <= '~' ==> !space(c),
        blank(kind(c)) ==> space(c),
{
}

proof fn lemma_trim_start(s: Seq<char>) -> (a: int)
    ensures
        0 <= a <= s.len(),
        trim_start(s) == s.skip(a),
        forall|i: int| 0 <= i < a ==> space(#[trigger] s[i]),
        a < s.len() ==> !space(s[a]),
    decreases s.len(),
{
    if s.len() > 0 && space(s[0]) {
        let b = lemma_trim_start(s.skip(1));
        assert(s.skip(1).skip(b) =~= s.skip(b + 1));
        assert forall|i: int| 0 <= i < b + 1 implies space(#[trigger] s[i]) by {
            if i > 0 {
                assert(s.skip(1)[i - 1] == s[i]);
            }
        }
        if b < s.skip(1).len() {
            assert(s.skip(1)[b] == s[b + 1]);
        }
        b + 1
    } else {
        assert(s.skip(0) =~= s);
        0
    }
}

proof fn lemma_trim_end(s: Seq<char>) -> (b: int)
    ensures
        0 <= b <= s.len(),
        trim_end(s) == s.take(b),
        forall|i: int| b <= i < s.len() ==> space(#[trigger] s[i]),
        b > 0 ==> !space(s[b - 1]),
    decreases s.len(),
{
    if s.len() > 0 && space(s.last()) {
        let t = s.drop_last();
        let b = lemma_trim_end(t);
        assert(t.take(b) =~= s.take(b));
        assert forall|i: int| b <= i < s.len() implies space(#[trigger] s[i]) by {
            if i < t.len() {
                assert(t[i] == s[i]);
            }
        }
        if b > 0 {
            assert(t[b - 1] == s[b - 1]);
        }
        b
    } else {
        assert(s.take(s.len() as int) =~= s);
        s.len() as int
    }
}

/// Trimming cuts a text out of its own white space: what is left is one stretch
/// of it that neither starts nor ends with white space, and all that was cut off
/// is white space.
pub proof fn law_trimming_cuts_white_space(s: Seq<char>) -> (cut: (int, int))
    ensures
        0 <= cut.0 <= cut.1 <= s.len(),
        trimmed(s) == s.subrange(cut.0, cut.1),
        forall|i: int|
            0 <= i < cut.0 || (cut.1 <= i < s.len() && cut.0 < cut.1) ==> space(#[trigger] s[i]),
        cut.0 < cut.1 ==> !space(s[cut.0]) && !space(s[cut.1 - 1]),
        cut.0 == cut.1 ==> cut.0 == s.len(),
{
    let a = lemma_trim_start(s);
    let t = s.skip(a);
    let b = lemma_trim_end(t);
    assert(t.take(b) =~= s.subrange(a, a + b));
    assert forall|i: int| 0 <= i < a || (a + b <= i < s.len() && b > 0) implies space(
        #[trigger] s[i],
    ) by {
        if i >= a {
            assert(t[i - a] == s[i]);
        }
    }
    if b > 0 {
        assert(t[b - 1] == s[a + b - 1]);
        if space(s[a]) {
            assert(false);
        }
    } else if a < s.len() {
        assert(t[0] == s[a]);
        assert(space(t[0]));
    }
    (a, a + b)
}

proof fn lemma_trim_nothing(s: Seq<char>)
    requires
        s.len() > 0 ==> !space(s[0]) && !space(s.last()),
    ensures
        trimmed(s) == s,
        trim_start(s) == s,
{
}

/// Trimming what is trimmed changes nothing.
pub proof fn law_trimming_is_done_once(s: Seq<char>)
    ensures
        trimmed(trimmed(s)) == trimmed(s),
{
    let cut = law_trimming_cuts_white_space(s);
    let t = trimmed(s);
    if t.len() > 0 {
        assert(t[0] == s[cut.0]);
        assert(t.last() == s[cut.1 - 1]);
    }
    lemma_trim_nothing(t);
}

/// Unquoting takes the quotation marks off either end and leaves a text without
/// them as it is.
pub proof fn law_unquoting(s: Seq<char>)
    ensures
        s.len() == 0 || s[0] != '"' ==> unquote_start(s) == s,
        unquote_start(seq!['"'] + s) == unquote_start(s),
        s.len() == 0 || s.last() != '"' ==> unquote_end(s) == s,
        unquote_end(s + seq!['"']) == unquote_end(s),
{
    let q = seq!['"'] + s;
    assert(q[0] == '"' && q.skip(1) =~= s);
    let r = s + seq!['"'];
    assert(r.last() == '"' && r.drop_last() =~= s);
}

/// The first place a character stands at, or none where it does not occur.
pub proof fn law_find_is_the_first(s: Seq<char>, c: char, from: int)
    requires
        0 <= from <= s.len(),
    ensures
        find_char(s, c, from) matches Some(i) ==> {
            &&& from <= i < s.len()
            &&& s[i] == c
            &&& forall|j: int| from <= j < i ==> #[trigger] s[j] != c
        },
        find_char(s, c, from) is None ==> forall|j: int|
            from <= j < s.len() ==> #[trigger] s[j] != c,
    decreases s.len() - from,
{
    if from < s.len() && s[from] != c {
        law_find_is_the_first(s, c, from + 1);
    }
}

/// A text begins with another exactly where the other is its opening stretch.
pub proof fn law_beginnings(s: Seq<char>, p: Seq<char>, rest: Seq<char>)
    ensures
        begins(p + rest, p),
        begins(s, p) ==> s == p + s.skip(p.len() as int),
        begins(s, p) ==> s.len() >= p.len(),
{
    assert((p + rest).take(p.len() as int) =~= p);
    if begins(s, p) {
        assert forall|i: int| 0 <= i < p.len() implies s[i] == p[i] by {
            assert(s.take(p.len() as int)[i] == s[i]);
        }
        assert(s =~= p + s.skip(p.len() as int));
    }
}

proof fn lemma_decimal(n: nat)
    ensures
        decimal(n).len() > 0,
        digits_value(decimal(n)) == Some(n as int),
        forall|i: int| 0 <= i < decimal(n).len() ==> '0' <= #[trigger] decimal(n)[i] <= '9',
    decreases n,
{
    if n < 10 {
        let d = decimal(n);
        assert(d.drop_last() =~= Seq::<char>::empty());
        assert(digits_value(d.drop_last()) == Some(0int));
        assert(d.last() == digit(n as int));
    } else {
        lemma_decimal(n / 10);
        let d = decimal(n);
        assert(d.drop_last() =~= decimal(n / 10));
        assert(d.last() == digit((n % 10) as int));
        assert forall|i: int| 0 <= i < d.len() implies '0' <= #[trigger] d[i] <= '9' by {
            if i < d.len() - 1 {
                assert(d[i] == decimal(n / 10)[i]);
            }
        }
    }
}

/// A number written in decimal reads back as itself, with a sign in front as its
/// own value or its negative. It has no leading zero.
pub proof fn law_numbers_read_back(n: nat)
    requires
        n <= i32::MAX,
    ensures
        integer_of(decimal(n)) == Some(n as i32),
        integer_of(seq!['+'] + decimal(n)) == Some(n as i32),
        integer_of(seq!['-'] + decimal(n)) == Some((-n) as i32),
        n > 0 ==> decimal(n)[0] != '0',
{
    lemma_decimal(n);
    let d = decimal(n);
    assert(d[0] != '+' && d[0] != '-');
    let p = seq!['+'] + d;
    let m = seq!['-'] + d;
    assert(p[0] == '+' && p.skip(1) =~= d);
    assert(m[0] == '-' && m.skip(1) =~= d);
    lemma_no_leading_zero(n);
}

proof fn lemma_no_leading_zero(n: nat)
    ensures
        n > 0 ==> decimal(n).len() > 0 && decimal(n)[0] != '0',
    decreases n,
{
    if n >= 10 {
        lemma_no_leading_zero(n / 10);
        lemma_decimal(n / 10);
        assert(decimal(n)[0] == decimal(n / 10)[0]);
    }
}

/// A digit more is ten times the number and the digit; what is no digit spells no
/// number, and neither does a sign alone.
pub proof fn law_digits_spell_numbers(s: Seq<char>, c: char)
    ensures
        digits_value(s) is Some && '0' <= c <= '9' ==> digits_value(s.push(c)) == Some(
            digits_value(s)->Some_0 * 10 + (c as int - 48),
        ),
        !('0' <= c <= '9') ==> digits_value(s.push(c)) is None,
        digits_value(s) is None ==> digits_value(s.push(c)) is None,
        integer_of(Seq::<char>::empty()) is None,
        integer_of(seq!['-']) is None,
        integer_of(seq!['+']) is None,
{
    assert(s.push(c).drop_last() =~= s);
    assert(seq!['-'].skip(1).len() == 0);
    assert(seq!['+'].skip(1).len() == 0);
}

/// A comment starts at a line's first double slash: what stands before it is
/// kept whole and holds none.
pub proof fn law_comments_end_a_line(s: Seq<char>, from: int)
    requires
        0 <= from <= s.len(),
    ensures
        ({
            let u = uncommented(s, from);
            &&& u.len() <= s.len()
            &&& u == s.take(u.len() as int)
            &&& u.len() < s.len() ==> from <= u.len() && u.len() + 1 < s.len() && s[u.len() as int]
                == '/' && s[u.len() as int + 1] == '/'
            &&& forall|i: int|
                from <= i < u.len() - 1 ==> !(#[trigger] s[i] == '/' && s[i + 1] == '/')
        }),
    decreases s.len() - from,
{
    let u = uncommented(s, from);
    if from + 1 >= s.len() {
        assert(s.take(s.len() as int) =~= s);
    } else if s[from] == '/' && s[from + 1] == '/' {
        assert(u.len() == from);
    } else {
        law_comments_end_a_line(s, from + 1);
    }
}

proof fn lemma_first_stop(k: Seq<u8>, from: int)
    requires
        0 <= from,
    ensures
        next_stop(k, from) matches Some(e) ==> {
            &&& from <= e < k.len()
            &&& k[e] == 61 || k[e] == 60
            &&& forall|i: int| from <= i < e ==> #[trigger] k[i] != 61 && k[i] != 60
        },
        next_stop(k, from) is None ==> forall|i: int|
            from <= i < k.len() ==> #[trigger] k[i] != 61 && k[i] != 60,
    decreases k.len() - from,
{
    if from < k.len() && !(k[from] == 61 || k[from] == 60) {
        lemma_first_stop(k, from + 1);
    }
}

/// The last white space before `end`: where it starts and stops.
proof fn lemma_last_run(k: Seq<u8>, end: int) -> (w: int)
    requires
        0 <= end <= k.len(),
    ensures
        last_run(k, end) matches Some(v) ==> {
            &&& 0 <= v < w <= end
            &&& v == 0 || !blank(k[v - 1])
            &&& forall|i: int| v <= i < w ==> blank(#[trigger] k[i])
            &&& forall|i: int| w <= i < end ==> !blank(#[trigger] k[i])
        },
        last_run(k, end) is None ==> forall|i: int| 0 <= i < end ==> !blank(#[trigger] k[i]),
    decreases end,
{
    if end <= 0 {
        0
    } else if blank(k[end - 1]) && (end == 1 || !blank(k[end - 2])) {
        end
    } else {
        let w = lemma_last_run(k, end - 1);
        if blank(k[end - 1]) {
            assert(blank(k[end - 2]));
            if last_run(k, end - 1) is Some {
                assert(w == end - 1);
            }
            end
        } else {
            w
        }
    }
}

/// A value runs to the white space before the word that holds the next `=` or
/// `<`, so that spaces inside it survive; to that sign itself where there is no
/// white space before it; and to the end where there is no such sign.
pub proof fn law_a_value_ends_before_the_next_word(k: Seq<u8>) -> (next: (int, int))
    ensures
        ({
            let v = value_end_of(k);
            let word = next.0;
            let sign = next.1;
            &&& 0 <= v <= k.len()
            &&& (forall|i: int| 0 <= i < k.len() ==> #[trigger] k[i] != 61 && k[i] != 60) ==> v
                == k.len()
            &&& !(forall|i: int| 0 <= i < k.len() ==> #[trigger] k[i] != 61 && k[i] != 60) ==> {
                &&& v <= word <= sign < k.len()
                &&& k[sign] == 61 || k[sign] == 60
                &&& forall|i: int| 0 <= i < sign ==> #[trigger] k[i] != 61 && k[i] != 60
                &&& forall|i: int| v <= i < word ==> blank(#[trigger] k[i])
                &&& forall|i: int| word <= i < sign ==> !blank(#[trigger] k[i])
                &&& v < word ==> v == 0 || !blank(k[v - 1])
                &&& v == word ==> v == sign && forall|i: int|
                    0 <= i < sign ==> !blank(#[trigger] k[i])
            }
        }),
{
    lemma_value_end_bounds(k);
    lemma_first_stop(k, 0);
    match next_stop(k, 0) {
        None => (0, 0),
        Some(e) => {
            let w = lemma_last_run(k, e);
            assert(!(k[e] != 61 && k[e] != 60));
            match last_run(k, e) {
                Some(v) => (w, e),
                None => (e, e),
            }
        },
    }
}

proof fn lemma_kind(c: char)
    requires
        c != '=',
        c != '<',
    ensures
        kind(c) != 61,
        kind(c) != 60,
{
}

proof fn lemma_no_equals(s: Seq<char>)
    requires
        forall|i: int| 0 <= i < s.len() ==> #[trigger] s[i] != '=' && s[i] != '<',
    ensures
        value_end_of(kinds(s)) == s.len(),
{
    assert forall|i: int| 0 <= i < kinds(s).len() implies #[trigger] kinds(s)[i] != 61 && kinds(
        s,
    )[i] != 60 by {
        let c = s[i];
        assert(c != '=' && c != '<');
        assert(kinds(s)[i] == kind(c));
        lemma_kind(c);
    }
    law_a_value_ends_before_the_next_word(kinds(s));
}

proof fn lemma_find_at(s: Seq<char>, c: char, from: int, at: int)
    requires
        0 <= from <= at < s.len(),
        s[at] == c,
        forall|j: int| from <= j < at ==> #[trigger] s[j] != c,
    ensures
        find_char(s, c, from) == Some(at),
    decreases at - from,
{
    if from < at {
        assert(s[from] != c);
        lemma_find_at(s, c, from + 1, at);
    }
}

/// A line spelled `name=value` sets that opcode: its name in small letters, its
/// value as written, spaces inside it and all.
pub proof fn law_a_line_sets_its_opcode(p: Progress, name: Seq<char>, value: Seq<char>)
    requires
        name.len() > 0,
        !space(name[0]),
        name[0] != '<',
        forall|i: int| 0 <= i < name.len() ==> #[trigger] name[i] != '=',
        forall|i: int| 0 <= i < value.len() ==> #[trigger] value[i] != '=' && value[i] != '<',
    ensures
        p.rest(name + seq!['='] + value) == p.opcode(lower_all(trimmed(name)), trimmed(value)),
{
    let s = name + seq!['='] + value;
    let e = name.len() as int;
    assert(s[0] == name[0]);
    assert(s[e] == '=');
    assert forall|j: int| 0 <= j < e implies #[trigger] s[j] != '=' by {
        assert(s[j] == name[j]);
    }
    lemma_find_at(s, '=', 0, e);
    let after = s.skip(e + 1);
    assert(after =~= value);
    assert(s.take(e) =~= name);
    lemma_no_equals(value);
    assert(after.take(value.len() as int) =~= value);
    let next = p.opcode(lower_all(trimmed(name)), trimmed(value));
    let left = after.skip(value.len() as int);
    assert(left.len() == 0);
    assert(trim_start(left) == left);
    assert(next.rest(left) == next);
}

/// A line spelled `<name>` opens the section of that name, in small letters, and
/// what follows on the line is read in it.
pub proof fn law_a_line_opens_its_section(p: Progress, name: Seq<char>, more: Seq<char>)
    requires
        forall|i: int| 0 <= i < name.len() ==> #[trigger] name[i] != '>',
    ensures
        p.rest(seq!['<'] + name + seq!['>'] + more) == p.header(lower_all(trimmed(name))).rest(
            more,
        ),
{
    let s = seq!['<'] + name + seq!['>'] + more;
    assert(s[0] == '<');
    assert(!space('<'));
    let t = s.skip(1);
    let e = name.len() as int;
    assert(t =~= name + seq!['>'] + more);
    assert(t[e] == '>');
    assert forall|j: int| 0 <= j < e implies #[trigger] t[j] != '>' by {
        assert(t[j] == name[j]);
    }
    lemma_find_at(t, '>', 0, e);
    assert(t.take(e) =~= name);
    assert(t.skip(e + 1) =~= more);
}

/// An opcode belongs to the section in hand and replaces its own earlier value
/// alone; it ends no section. One without a name is dropped.
pub proof fn law_opcodes_go_to_the_section_in_hand(
    p: Progress,
    name: Seq<char>,
    value: Seq<char>,
    other: Seq<char>,
)
    ensures
        ({
            let q = p.opcode(name, value);
            &&& name.len() > 0 ==> q.current.contains_key(name) && q.current[name] == value
                && q.started
            &&& other != name ==> q.current.contains_key(other) == p.current.contains_key(other)
            &&& other != name && p.current.contains_key(other) ==> q.current[other]
                == p.current[other]
            &&& q.items == p.items && q.header == p.header
            &&& name.len() == 0 ==> q == p
        }),
{
}

/// A reference to another file closes the section in hand, goes into the list at
/// its own place, and starts nothing.
pub proof fn law_references_stand_at_their_place(p: Progress, path: Seq<char>)
    ensures
        ({
            let q = p.nested(path);
            &&& q.items.last() == ItemView::Nested(path)
            &&& !q.started
            &&& p.started ==> q.items.len() == p.items.len() + 2 && q.items[p.items.len() as int]
                == ItemView::Section(p.header, p.current)
            &&& !p.started ==> q.items.len() == p.items.len() + 1
            &&& forall|i: int| 0 <= i < p.items.len() ==> q.items[i] == p.items[i]
            &&& q.header == p.header
        }),
{
}

/// Empty lines, lines of comment alone and definitions change nothing; a line is
/// read without its comment and without the white space around it.
pub proof fn law_what_a_line_is(p: Progress, raw: Seq<char>)
    ensures
        trimmed(uncommented(raw, 0)).len() == 0 ==> p.line(raw) == p,
        begins(trimmed(uncommented(raw, 0)), "#define"@) ==> p.line(raw) == p,
        p.line(raw) == p.line(trimmed(uncommented(raw, 0))) || begins(
            trimmed(uncommented(raw, 0)),
            nest_word(),
        ) || uncommented(trimmed(uncommented(raw, 0)), 0) != trimmed(uncommented(raw, 0)),
        trimmed(uncommented(raw, 0)).len() > 0 && trimmed(uncommented(raw, 0))[0] != '#'
            ==> p.line(raw) == p.rest(trimmed(uncommented(raw, 0))),
{
    let s = trimmed(uncommented(raw, 0));
    law_trimming_is_done_once(uncommented(raw, 0));
    reveal_strlit("#define");
    let w = nest_word();
    assert(w[0] == '#' && w[1] == 'i' && w.len() == 8);
    assert("#define"@[0] == '#' && "#define"@[1] == 'd' && "#define"@.len() == 7);
    if begins(s, "#define"@) {
        assert(s.take(7)[1] == s[1]);
        if begins(s, w) {
            assert(s.take(8)[1] == s[1]);
        }
    }
    if s.len() > 0 && s[0] != '#' {
        if begins(s, w) {
            assert(s.take(8)[0] == s[0]);
        }
        if begins(s, "#define"@) {
            assert(s.take(7)[0] == s[0]);
        }
    }
}

proof fn lemma_lines_shift(p: Progress, a: Seq<char>, i: int, b: Seq<char>, j: int)
    requires
        0 <= i <= a.len(),
        0 <= j <= b.len(),
        a.skip(i) == b.skip(j),
    ensures
        p.lines(a, i) == p.lines(b, j),
    decreases a.len() - i,
{
    let t = a.skip(i);
    lemma_find_bounds(t, '\n', 0);
    match find_char(t, '\n', 0) {
        None => {},
        Some(e) => {
            assert(a.subrange(i, i + e) =~= t.take(e));
            assert(b.subrange(j, j + e) =~= t.take(e));
            assert(a.skip(i + e + 1) =~= t.skip(e + 1));
            assert(b.skip(j + e + 1) =~= t.skip(e + 1));
            lemma_lines_shift(p.line(t.take(e)), a, i + e + 1, b, j + e + 1);
        },
    }
}

/// A text is read line by line, each where the one before it left off.
pub proof fn law_a_text_is_its_lines(p: Progress, first: Seq<char>, others: Seq<char>)
    requires
        forall|i: int| 0 <= i < first.len() ==> #[trigger] first[i] != '\n',
    ensures
        p.lines(first, 0) == p.line(first),
        p.lines(first + seq!['\n'] + others, 0) == p.line(first).lines(others, 0),
{
    let e = first.len() as int;
    assert(first.skip(0) =~= first);
    law_find_is_the_first(first, '\n', 0);
    let t = first + seq!['\n'] + others;
    assert(t.skip(0) =~= t);
    assert(t[e] == '\n');
    assert forall|j: int| 0 <= j < e implies #[trigger] t[j] != '\n' by {
        assert(t[j] == first[j]);
    }
    lemma_find_at(t, '\n', 0, e);
    assert(t.subrange(0, e) =~= first);
    assert(t.skip(e + 1) =~= others.skip(0));
    lemma_lines_shift(p.line(first), t, e + 1, others, 0);
}

/// A text starts in an unnamed section that counts as global, and its last
/// section is handed over like the others.
pub proof fn law_a_text_starts_global(text: Seq<char>)
    ensures
        Progress::start().header == "global"@,
        Progress::start().items.len() == 0,
        !Progress::start().started,
        ({
            let end = Progress::start().lines(text, 0);
            &&& end.started ==> parsed(text) == end.items.push(
                ItemView::Section(end.header, end.current),
            )
            &&& !end.started ==> parsed(text) == end.items
        }),
{
}

// ---- placeholders ---------------------------------------------------------

/// A text with no opening brace in it.
pub open spec fn braceless(s: Seq<char>) -> bool {
    !s.contains('{')
}

proof fn lemma_join_braceless(a: Seq<char>, b: Seq<char>)
    requires
        braceless(a),
        braceless(b),
    ensures
        braceless(a + b),
{
    assert forall|i: int| 0 <= i < (a + b).len() implies (a + b)[i] != '{' by {
        if i < a.len() {
            assert((a + b)[i] == a[i]);
            assert(a.contains(a[i]));
        } else {
            assert((a + b)[i] == b[i - a.len()]);
            assert(b.contains(b[i - a.len()]));
        }
    }
}

/// A placeholder: two opening braces, then no more of them.
spec fn placeholder(p: Seq<char>) -> bool {
    &&& p.len() >= 3
    &&& p[0] == '{' && p[1] == '{'
    &&& forall|i: int| 2 <= i < p.len() ==> #[trigger] p[i] != '{'
}

proof fn lemma_fill(a: Seq<char>, p: Seq<char>, b: Seq<char>, to: Seq<char>)
    requires
        braceless(a),
        braceless(b),
        placeholder(p),
    ensures
        replaced(a + p + b, p, to) == a + to + b,
    decreases a.len(),
{
    let s = a + p + b;
    if a.len() == 0 {
        assert(s =~= p + b);
        assert(s.take(p.len() as int) =~= p);
        assert(s.skip(p.len() as int) =~= b);
        lemma_nothing_to_replace(b, p, to);
        assert(to + b =~= a + to + b);
    } else {
        assert(s[0] == a[0]);
        assert(a.contains(a[0]));
        if begins(s, p) {
            assert(s.take(p.len() as int)[0] == s[0]);
        }
        let t = a.skip(1);
        assert forall|c: char| t.contains(c) implies a.contains(c) by {
            let k = choose|k: int| 0 <= k < t.len() && t[k] == c;
            assert(a[k + 1] == c);
        }
        lemma_fill(t, p, b, to);
        assert(s.skip(1) =~= t + p + b);
        assert(seq![a[0]] + (t + to + b) =~= a + to + b);
    }
}

proof fn lemma_other(a: Seq<char>, p: Seq<char>, b: Seq<char>, q: Seq<char>, to: Seq<char>)
    requires
        braceless(a),
        braceless(b),
        placeholder(p),
        placeholder(q),
        p[2] != q[2],
    ensures
        replaced(a + p + b, q, to) == a + p + b,
    decreases a.len(),
{
    let s = a + p + b;
    if a.len() == 0 {
        assert(s =~= p + b);
        if begins(s, q) {
            assert(s.take(q.len() as int)[2] == s[2]);
        }
        let u = s.skip(1);
        assert(u[0] == '{' && u[1] == p[2]);
        if begins(u, q) {
            assert(u.take(q.len() as int)[1] == u[1]);
        }
        let w = u.skip(1);
        assert forall|i: int| 0 <= i < w.len() implies w[i] != '{' by {
            if i < p.len() - 2 {
                assert(w[i] == p[i + 2]);
            } else {
                assert(w[i] == b[i - (p.len() - 2)]);
                assert(b.contains(b[i - (p.len() - 2)]));
            }
        }
        lemma_nothing_to_replace(w, q, to);
        assert(seq![u[0]] + w =~= u);
        assert(replaced(u, q, to) == u);
        assert(seq![s[0]] + u =~= s);
        assert(replaced(s, q, to) == s);
    } else {
        assert(s[0] == a[0]);
        assert(a.contains(a[0]));
        if begins(s, q) {
            assert(s.take(q.len() as int)[0] == s[0]);
        }
        let t = a.skip(1);
        assert forall|c: char| t.contains(c) implies a.contains(c) by {
            let k = choose|k: int| 0 <= k < t.len() && t[k] == c;
            assert(a[k + 1] == c);
        }
        lemma_other(t, p, b, q, to);
        assert(s.skip(1) =~= t + p + b);
        assert(seq![a[0]] + (t + p + b) =~= s);
    }
}

proof fn lemma_decimal_braceless(n: nat)
    ensures
        braceless(decimal(n)),
{
    lemma_decimal(n);
    assert forall|i: int| 0 <= i < decimal(n).len() implies decimal(n)[i] != '{' by {}
}

proof fn lemma_truth_braceless(b: bool)
    ensures
        braceless(truth(b)),
{
    reveal_strlit("true");
    reveal_strlit("false");
    assert forall|i: int| 0 <= i < truth(b).len() implies truth(b)[i] != '{' by {}
}

proof fn lemma_placeholders()
    ensures
        placeholder("{{WG}}"@) && "{{WG}}"@[2] == 'W',
        placeholder("{{TILE}}"@) && "{{TILE}}"@[2] == 'T',
        placeholder("{{GATE_TILE}}"@) && "{{GATE_TILE}}"@[2] == 'G',
        placeholder("{{STEAL_FADE}}"@) && "{{STEAL_FADE}}"@[2] == 'S',
        placeholder("{{KAHAN}}"@) && "{{KAHAN}}"@[2] == 'K',
        placeholder("{{CHAN}}"@),
{
    reveal_strlit("{{WG}}");
    reveal_strlit("{{TILE}}");
    reveal_strlit("{{GATE_TILE}}");
    reveal_strlit("{{STEAL_FADE}}");
    reveal_strlit("{{KAHAN}}");
    reveal_strlit("{{CHAN}}");
}

proof fn lemma_rest_kept(s: Seq<char>, cfg: Config)
    requires
        braceless(s),
    ensures
        replaced(s, "{{WG}}"@, decimal(cfg.workgroup_size as nat)) == s,
        replaced(s, "{{TILE}}"@, decimal(cfg.reduce_tile as nat)) == s,
        replaced(s, "{{GATE_TILE}}"@, decimal(cfg.gate_frames as nat)) == s,
        replaced(s, "{{STEAL_FADE}}"@, decimal(cfg.steal_fade_frames as nat)) == s,
        replaced(s, "{{KAHAN}}"@, truth(cfg.kahan_reduce)) == s,
{
    lemma_placeholders();
    lemma_nothing_to_replace(s, "{{WG}}"@, decimal(cfg.workgroup_size as nat));
    lemma_nothing_to_replace(s, "{{TILE}}"@, decimal(cfg.reduce_tile as nat));
    lemma_nothing_to_replace(s, "{{GATE_TILE}}"@, decimal(cfg.gate_frames as nat));
    lemma_nothing_to_replace(s, "{{STEAL_FADE}}"@, decimal(cfg.steal_fade_frames as nat));
    lemma_nothing_to_replace(s, "{{KAHAN}}"@, truth(cfg.kahan_reduce));
}

/// Each placeholder of a shader is filled in with its own setting, and the text
/// round it stays as it is: the workgroup size, the reduce tile, the note-off
/// tile, the fade of a stolen voice, and whether the reduction is compensated.
pub proof fn law_placeholders_take_their_own_setting(a: Seq<char>, b: Seq<char>, cfg: Config)
    requires
        braceless(a),
        braceless(b),
    ensures
        substituted(a + "{{WG}}"@ + b, cfg) == a + decimal(cfg.workgroup_size as nat) + b,
        substituted(a + "{{TILE}}"@ + b, cfg) == a + decimal(cfg.reduce_tile as nat) + b,
        substituted(a + "{{GATE_TILE}}"@ + b, cfg) == a + decimal(cfg.gate_frames as nat) + b,
        substituted(a + "{{STEAL_FADE}}"@ + b, cfg) == a + decimal(cfg.steal_fade_frames as nat)
            + b,
        substituted(a + "{{KAHAN}}"@ + b, cfg) == a + truth(cfg.kahan_reduce) + b,
{
    lemma_placeholders();
    let wg = decimal(cfg.workgroup_size as nat);
    let tile = decimal(cfg.reduce_tile as nat);
    let off = decimal(cfg.gate_frames as nat);
    let fade = decimal(cfg.steal_fade_frames as nat);
    let kahan = truth(cfg.kahan_reduce);
    lemma_decimal_braceless(cfg.workgroup_size as nat);
    lemma_decimal_braceless(cfg.reduce_tile as nat);
    lemma_decimal_braceless(cfg.gate_frames as nat);
    lemma_decimal_braceless(cfg.steal_fade_frames as nat);
    lemma_truth_braceless(cfg.kahan_reduce);
    assert(substituted(a + "{{WG}}"@ + b, cfg) == a + wg + b) by {
        lemma_fill(a, "{{WG}}"@, b, wg);
        lemma_join_braceless(a, wg);
        lemma_join_braceless(a + wg, b);
        lemma_rest_kept(a + wg + b, cfg);
    }
    assert(substituted(a + "{{TILE}}"@ + b, cfg) == a + tile + b) by {
        lemma_other(a, "{{TILE}}"@, b, "{{WG}}"@, wg);
        lemma_fill(a, "{{TILE}}"@, b, tile);
        lemma_join_braceless(a, tile);
        lemma_join_braceless(a + tile, b);
        lemma_rest_kept(a + tile + b, cfg);
    }
    assert(substituted(a + "{{GATE_TILE}}"@ + b, cfg) == a + off + b) by {
        lemma_other(a, "{{GATE_TILE}}"@, b, "{{WG}}"@, wg);
        lemma_other(a, "{{GATE_TILE}}"@, b, "{{TILE}}"@, tile);
        lemma_fill(a, "{{GATE_TILE}}"@, b, off);
        lemma_join_braceless(a, off);
        lemma_join_braceless(a + off, b);
        lemma_rest_kept(a + off + b, cfg);
    }
    assert(substituted(a + "{{STEAL_FADE}}"@ + b, cfg) == a + fade + b) by {
        lemma_other(a, "{{STEAL_FADE}}"@, b, "{{WG}}"@, wg);
        lemma_other(a, "{{STEAL_FADE}}"@, b, "{{TILE}}"@, tile);
        lemma_other(a, "{{STEAL_FADE}}"@, b, "{{GATE_TILE}}"@, off);
        lemma_fill(a, "{{STEAL_FADE}}"@, b, fade);
        lemma_join_braceless(a, fade);
        lemma_join_braceless(a + fade, b);
        lemma_rest_kept(a + fade + b, cfg);
    }
    assert(substituted(a + "{{KAHAN}}"@ + b, cfg) == a + kahan + b) by {
        lemma_other(a, "{{KAHAN}}"@, b, "{{WG}}"@, wg);
        lemma_other(a, "{{KAHAN}}"@, b, "{{TILE}}"@, tile);
        lemma_other(a, "{{KAHAN}}"@, b, "{{GATE_TILE}}"@, off);
        lemma_other(a, "{{KAHAN}}"@, b, "{{STEAL_FADE}}"@, fade);
        lemma_fill(a, "{{KAHAN}}"@, b, kahan);
    }
}

/// The controller path of the render shader is switched by its own placeholder,
/// and a shader is what all share, a line break, and its own part.
pub proof fn law_shader_text(common: Seq<char>, a: Seq<char>, b: Seq<char>, on: bool, cfg: Config)
    requires
        braceless(common),
        braceless(a),
        braceless(b),
    ensures
        replaced(a + "{{CHAN}}"@ + b, "{{CHAN}}"@, truth(on)) == a + (if on {
            "true"@
        } else {
            "false"@
        }) + b,
        source_of(common, a, cfg) == common + seq!['\n'] + a,
{
    lemma_placeholders();
    lemma_fill(a, "{{CHAN}}"@, b, truth(on));
    lemma_rest_kept(common, cfg);
    lemma_rest_kept(a, cfg);
    assert(common.push('\n') =~= common + seq!['\n']);
}

} // verus!
