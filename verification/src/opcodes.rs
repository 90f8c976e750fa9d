//! Opcode sets: the name/value pairs of one SFZ section.

use crate::text::{copy_text, same_text, spells};
use vstd::prelude::*;

verus! {

/// One opcode and its value.
#[derive(Debug)]
pub struct Opcode {
    pub key: Vec<char>,
    pub value: Vec<char>,
}

/// The opcodes of a section, each named once.
#[derive(Debug)]
pub struct OpcodeSet {
    pub ops: Vec<Opcode>,
}

/// The pairs among the first `n` of a list.
pub open spec fn pairs(ops: Seq<Opcode>, n: int) -> Map<Seq<char>, Seq<char>>
    decreases n,
{
    if n <= 0 {
        Map::empty()
    } else {
        pairs(ops, n - 1).insert(ops[n - 1].key@, ops[n - 1].value@)
    }
}

impl View for OpcodeSet {
    type V = Map<Seq<char>, Seq<char>>;

    open spec fn view(&self) -> Map<Seq<char>, Seq<char>> {
        pairs(self.ops@, self.ops@.len() as int)
    }
}

pub proof fn lemma_pairs(ops: Seq<Opcode>, n: int, key: Seq<char>)
    requires
        0 <= n <= ops.len(),
    ensures
        pairs(ops, n).dom().finite(),
        pairs(ops, n).contains_key(key) <==> exists|i: int|
            0 <= i < n && (#[trigger] ops[i]).key@ == key,
    decreases n,
{
    if n > 0 {
        lemma_pairs(ops, n - 1, key);
        if pairs(ops, n).contains_key(key) && ops[n - 1].key@ != key {
            assert(pairs(ops, n - 1).contains_key(key));
            let i = choose|i: int| 0 <= i < n - 1 && (#[trigger] ops[i]).key@ == key;
            assert(ops[i].key@ == key);
        }
        if exists|i: int| 0 <= i < n && (#[trigger] ops[i]).key@ == key {
            let i = choose|i: int| 0 <= i < n && (#[trigger] ops[i]).key@ == key;
            if i < n - 1 {
                assert(ops[i].key@ == key);
            }
        }
    }
}

/// With each name once, a name's value is the one beside it.
proof fn lemma_pair_at(ops: Seq<Opcode>, n: int, i: int)
    requires
        0 <= i < n <= ops.len(),
        forall|a: int, b: int|
            0 <= a < b < ops.len() ==> (#[trigger] ops[a]).key@ != (#[trigger] ops[b]).key@,
    ensures
        pairs(ops, n).contains_key(ops[i].key@),
        pairs(ops, n)[ops[i].key@] == ops[i].value@,
    decreases n,
{
    if i < n - 1 {
        lemma_pair_at(ops, n - 1, i);
        assert(ops[i].key@ != ops[n - 1].key@);
    }
}

proof fn lemma_pairs_prefix(a: Seq<Opcode>, b: Seq<Opcode>, n: int)
    requires
        0 <= n <= a.len(),
        n <= b.len(),
        forall|i: int|
            0 <= i < n ==> (#[trigger] a[i]).key@ == b[i].key@ && a[i].value@ == b[i].value@,
    ensures
        pairs(a, n) == pairs(b, n),
    decreases n,
{
    if n > 0 {
        lemma_pairs_prefix(a, b, n - 1);
    }
}

impl OpcodeSet {
    /// Each name stands in the list once.
    pub open spec fn wf(&self) -> bool {
        forall|a: int, b: int|
            0 <= a < b < self.ops@.len() ==> (#[trigger] self.ops@[a]).key@ != (
            #[trigger] self.ops@[b]).key@
    }

    pub fn new() -> (r: OpcodeSet)
        ensures
            r.wf(),
            r@ == Map::<Seq<char>, Seq<char>>::empty(),
    {
        OpcodeSet { ops: Vec::new() }
    }

    /// Set an opcode, replacing an earlier value.
    pub fn insert(&mut self, key: Vec<char>, value: Vec<char>)
        requires
            old(self).wf(),
        ensures
            final(self).wf(),
            final(self)@ == old(self)@.insert(key@, value@),
    {
        let ghost o0 = self.ops@;
        let n: usize = self.ops.len();
        let mut i: usize = 0;
        while i < n
            invariant
                i <= n == self.ops@.len(),
                self.ops@ == o0,
                o0 == old(self).ops@,
                self.wf(),
                forall|j: int| 0 <= j < i ==> (#[trigger] o0[j]).key@ != key@,
            decreases n - i,
        {
            if same_text(&self.ops[i].key, &key) {
                self.ops[i] = Opcode { key, value };
                proof {
                    lemma_replace(o0, self.ops@, n as int, i as int);
                    assert(self@ =~= pairs(o0, n as int).insert(key@, value@));
                }
                return;
            }
            i += 1;
        }
        self.ops.push(Opcode { key, value });
        proof {
            lemma_pairs_prefix(o0, self.ops@, n as int);
        }
    }

    /// The value of an opcode, if it is set.
    pub fn get(&self, key: &str) -> (r: Option<&Vec<char>>)
        requires
            self.wf(),
        ensures
            match r {
                Some(v) => self@.contains_key(key@) && v@ == self@[key@],
                None => !self@.contains_key(key@),
            },
    {
        let n: usize = self.ops.len();
        let mut i: usize = 0;
        while i < n
            invariant
                i <= n == self.ops@.len(),
                self.wf(),
                forall|j: int| 0 <= j < i ==> (#[trigger] self.ops@[j]).key@ != key@,
            decreases n - i,
        {
            if spells(&self.ops[i].key, key) {
                proof {
                    lemma_pair_at(self.ops@, n as int, i as int);
                }
                return Some(&self.ops[i].value);
            }
            i += 1;
        }
        proof {
            lemma_pairs(self.ops@, n as int, key@);
        }
        None
    }

    /// A copy of the set.
    pub fn copy(&self) -> (r: OpcodeSet)
        requires
            self.wf(),
        ensures
            r.wf(),
            r@ == self@,
    {
        let n: usize = self.ops.len();
        let mut ops: Vec<Opcode> = Vec::new();
        let mut i: usize = 0;
        while i < n
            invariant
                i <= n == self.ops@.len(),
                ops@.len() == i,
                forall|j: int|
                    0 <= j < i ==> (#[trigger] ops@[j]).key@ == self.ops@[j].key@ && ops@[j].value@
                        == self.ops@[j].value@,
            decreases n - i,
        {
            ops.push(
                Opcode {
                    key: copy_text(&self.ops[i].key),
                    value: copy_text(&self.ops[i].value),
                },
            );
            i += 1;
        }
        let r = OpcodeSet { ops };
        proof {
            lemma_pairs_prefix(self.ops@, r.ops@, n as int);
            assert forall|a: int, b: int| 0 <= a < b < r.ops@.len() implies (
            #[trigger] r.ops@[a]).key@ != (#[trigger] r.ops@[b]).key@ by {
                assert(self.ops@[a].key@ != self.ops@[b].key@);
            }
        }
        r
    }

    /// Both sets together; where both set an opcode, the other's value counts.
    pub fn merged(&self, other: &OpcodeSet) -> (r: OpcodeSet)
        requires
            self.wf(),
            other.wf(),
        ensures
            r.wf(),
            r@ == self@.union_prefer_right(other@),
    {
        let mut r = self.copy();
        let n: usize = other.ops.len();
        let mut i: usize = 0;
        assert(r@ =~= self@.union_prefer_right(pairs(other.ops@, 0)));
        while i < n
            invariant
                i <= n == other.ops@.len(),
                r.wf(),
                r@ == self@.union_prefer_right(pairs(other.ops@, i as int)),
            decreases n - i,
        {
            let key = copy_text(&other.ops[i].key);
            let value = copy_text(&other.ops[i].value);
            r.insert(key, value);
            assert(r@ =~= self@.union_prefer_right(pairs(other.ops@, i + 1)));
            i += 1;
        }
        r
    }
}

/// Replacing the value beside a name replaces that name's value alone.
proof fn lemma_replace(a: Seq<Opcode>, b: Seq<Opcode>, n: int, i: int)
    requires
        0 <= i < a.len(),
        0 <= n <= a.len() == b.len(),
        forall|x: int, y: int|
            0 <= x < y < a.len() ==> (#[trigger] a[x]).key@ != (#[trigger] a[y]).key@,
        b == a.update(i, b[i]),
        b[i].key@ == a[i].key@,
    ensures
        i < n ==> pairs(b, n) == pairs(a, n).insert(a[i].key@, b[i].value@),
        i >= n ==> pairs(b, n) == pairs(a, n),
    decreases n,
{
    if n > 0 {
        lemma_replace(a, b, n - 1, i);
        if i < n - 1 {
            assert(b[n - 1] == a[n - 1]);
            assert(a[i].key@ != a[n - 1].key@);
            assert(pairs(b, n) =~= pairs(a, n).insert(a[i].key@, b[i].value@));
        } else if i == n - 1 {
            assert(pairs(b, n) =~= pairs(a, n).insert(a[i].key@, b[i].value@));
        } else {
            assert(b[n - 1] == a[n - 1]);
        }
    }
}

} // verus!
