//! Shader text: the placeholders a shader is written with, filled in from the
//! configuration.

use crate::config::Config;
use crate::text::{begins, chars_of};
use vstd::prelude::*;

verus! {

/// A text with every occurrence of `from` replaced by `to`, scanning from the
/// left and going on behind each occurrence.
pub open spec fn replaced(s: Seq<char>, from: Seq<char>, to: Seq<char>) -> Seq<char>
    decreases s.len(),
{
    if s.len() == 0 {
        s
    } else if from.len() > 0 && begins(s, from) {
        to + replaced(s.skip(from.len() as int), from, to)
    } else {
        seq![s[0]] + replaced(s.skip(1), from, to)
    }
}

fn occurs_at(s: &Vec<char>, i: usize, from: &Vec<char>) -> (r: bool)
    requires
        i <= s@.len(),
    ensures
        r == begins(s@.skip(i as int), from@),
{
    let n: usize = s.len();
    if from.len() > n - i {
        return false;
    }
    let ghost rest = s@.skip(i as int);
    let mut k: usize = 0;
    while k < from.len()
        invariant
            n == s@.len(),
            i <= n,
            k <= from@.len() <= n - i,
            rest == s@.skip(i as int),
            rest.take(k as int) == from@.take(k as int),
        decreases from@.len() - k,
    {
        if s[i + k] != from[k] {
            assert(rest.take(from@.len() as int)[k as int] != from@[k as int]);
            return false;
        }
        assert(rest.take(k + 1) =~= from@.take(k + 1));
        k += 1;
    }
    assert(from@.take(k as int) =~= from@);
    true
}

fn append(out: &mut Vec<char>, tail: &Vec<char>)
    ensures
        final(out)@ == old(out)@ + tail@,
{
    let mut k: usize = 0;
    while k < tail.len()
        invariant
            k <= tail@.len(),
            out@ == old(out)@ + tail@.take(k as int),
        decreases tail@.len() - k,
    {
        out.push(tail[k]);
        assert(out@ =~= old(out)@ + tail@.take(k + 1));
        k += 1;
    }
    assert(tail@.take(k as int) =~= tail@);
}

/// Replace every occurrence of `from`, which is not empty, by `to`.
pub fn replace_all(s: &Vec<char>, from: &Vec<char>, to: &Vec<char>) -> (r: Vec<char>)
    requires
        from@.len() > 0,
    ensures
        r@ == replaced(s@, from@, to@),
{
    let mut out: Vec<char> = Vec::new();
    let mut i: usize = 0;
    assert(s@.skip(0) =~= s@);
    while i < s.len()
        invariant
            i <= s@.len(),
            from@.len() > 0,
            out@ + replaced(s@.skip(i as int), from@, to@) == replaced(s@, from@, to@),
        decreases s@.len() - i,
    {
        let ghost before = out@;
        let ghost rest = s@.skip(i as int);
        if occurs_at(s, i, from) {
            append(&mut out, to);
            assert(rest.skip(from@.len() as int) =~= s@.skip(i + from@.len()));
            assert(out@ + replaced(s@.skip(i + from@.len()), from@, to@) =~= before + replaced(
                rest,
                from@,
                to@,
            ));
            i += from.len();
        } else {
            out.push(s[i]);
            assert(rest.skip(1) =~= s@.skip(i + 1));
            assert(out@ + replaced(s@.skip(i + 1), from@, to@) =~= before + replaced(
                rest,
                from@,
                to@,
            ));
            i += 1;
        }
    }
    assert(out@ + replaced(s@.skip(i as int), from@, to@) =~= out@);
    out
}

/// The decimal digit of a number below ten.
pub open spec fn digit(d: int) -> char {
    (48 + d) as char
}

/// A number in decimal, without leading zeros.
pub open spec fn decimal(n: nat) -> Seq<char>
    decreases n,
{
    if n < 10 {
        seq![digit(n as int)]
    } else {
        decimal(n / 10) + seq![digit((n % 10) as int)]
    }
}

/// Write a number in decimal.
pub fn to_decimal(n: u32) -> (r: Vec<char>)
    ensures
        r@ == decimal(n as nat),
    decreases n,
{
    let mut out: Vec<char> = if n < 10 {
        Vec::new()
    } else {
        to_decimal(n / 10)
    };
    let d: u8 = (n % 10) as u8;
    let ghost before = out@;
    out.push((48 + d) as char);
    assert(out@ =~= before + seq![digit((n % 10) as int)]);
    assert(n < 10 ==> out@ =~= seq![digit(n as int)]);
    out
}

/// A truth value as the shader language spells it.
pub open spec fn truth(b: bool) -> Seq<char> {
    if b {
        "true"@
    } else {
        "false"@
    }
}

fn spell_truth(b: bool) -> (r: Vec<char>)
    ensures
        r@ == truth(b),
{
    if b {
        chars_of("true")
    } else {
        chars_of("false")
    }
}

/// A shader text with its placeholders filled in from a configuration.
pub open spec fn substituted(src: Seq<char>, cfg: Config) -> Seq<char> {
    let a = replaced(src, "{{WG}}"@, decimal(cfg.workgroup_size as nat));
    let b = replaced(a, "{{TILE}}"@, decimal(cfg.reduce_tile as nat));
    let c = replaced(b, "{{GATE_TILE}}"@, decimal(cfg.gate_frames as nat));
    let d = replaced(c, "{{STEAL_FADE}}"@, decimal(cfg.steal_fade_frames as nat));
    replaced(d, "{{KAHAN}}"@, truth(cfg.kahan_reduce))
}

/// Fill in the placeholders of a shader text.
pub fn substitute(src: &Vec<char>, cfg: &Config) -> (r: Vec<char>)
    ensures
        r@ == substituted(src@, *cfg),
{
    proof {
        reveal_strlit("{{WG}}");
        reveal_strlit("{{TILE}}");
        reveal_strlit("{{GATE_TILE}}");
        reveal_strlit("{{STEAL_FADE}}");
        reveal_strlit("{{KAHAN}}");
    }
    let a = replace_all(src, &chars_of("{{WG}}"), &to_decimal(cfg.workgroup_size));
    let b = replace_all(&a, &chars_of("{{TILE}}"), &to_decimal(cfg.reduce_tile));
    let c = replace_all(&b, &chars_of("{{GATE_TILE}}"), &to_decimal(cfg.gate_frames));
    let d = replace_all(&c, &chars_of("{{STEAL_FADE}}"), &to_decimal(cfg.steal_fade_frames));
    replace_all(&d, &chars_of("{{KAHAN}}"), &spell_truth(cfg.kahan_reduce))
}

/// The text of a shader: what all shaders share, a line break, and its own part.
pub open spec fn source_of(common: Seq<char>, body: Seq<char>, cfg: Config) -> Seq<char> {
    substituted(common, cfg).push('\n') + substituted(body, cfg)
}

/// Put a shader together.
pub fn shader_source(common: &Vec<char>, body: &Vec<char>, cfg: &Config) -> (r: Vec<char>)
    ensures
        r@ == source_of(common@, body@, *cfg),
{
    let mut out = substitute(common, cfg);
    out.push('\n');
    let tail = substitute(body, cfg);
    append(&mut out, &tail);
    out
}

/// The render shader, with the path for channel controllers in it or left out.
pub fn with_controls(body: &Vec<char>, on: bool) -> (r: Vec<char>)
    ensures
        r@ == replaced(body@, "{{CHAN}}"@, truth(on)),
{
    proof {
        reveal_strlit("{{CHAN}}");
    }
    replace_all(body, &chars_of("{{CHAN}}"), &spell_truth(on))
}

/// A text without the first letter of what is looked for stays as it is.
pub proof fn lemma_nothing_to_replace(s: Seq<char>, from: Seq<char>, to: Seq<char>)
    requires
        from.len() > 0,
        !s.contains(from[0]),
    ensures
        replaced(s, from, to) == s,
    decreases s.len(),
{
    if s.len() > 0 {
        if begins(s, from) {
            assert(s.take(from.len() as int)[0] == s[0]);
            assert(s.contains(s[0]));
        }
        assert forall|c: char| s.skip(1).contains(c) implies s.contains(c) by {
            let k = choose|k: int| 0 <= k < s.skip(1).len() && s.skip(1)[k] == c;
            assert(s[k + 1] == c);
        }
        lemma_nothing_to_replace(s.skip(1), from, to);
        assert(seq![s[0]] + s.skip(1) =~= s);
    }
}

/// A shader text without braces has no placeholders and stays as it is.
pub proof fn law_plain_text_is_kept(src: Seq<char>, cfg: Config)
    requires
        !src.contains('{'),
    ensures
        substituted(src, cfg) == src,
{
    reveal_strlit("{{WG}}");
    reveal_strlit("{{TILE}}");
    reveal_strlit("{{GATE_TILE}}");
    reveal_strlit("{{STEAL_FADE}}");
    reveal_strlit("{{KAHAN}}");
    lemma_nothing_to_replace(src, "{{WG}}"@, decimal(cfg.workgroup_size as nat));
    lemma_nothing_to_replace(src, "{{TILE}}"@, decimal(cfg.reduce_tile as nat));
    lemma_nothing_to_replace(src, "{{GATE_TILE}}"@, decimal(cfg.gate_frames as nat));
    lemma_nothing_to_replace(src, "{{STEAL_FADE}}"@, decimal(cfg.steal_fade_frames as nat));
    lemma_nothing_to_replace(src, "{{KAHAN}}"@, truth(cfg.kahan_reduce));
}

} // verus!
