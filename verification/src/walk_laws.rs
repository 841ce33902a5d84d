//! What holds of a walk: in which order it takes the objects, which of them it
//! keeps, and which names it finds there.

use crate::layout::{law_object_parts, raw_field, raw_tag};
use crate::lean_sys::LeanObj;
use crate::memory::Bytes;
use crate::term::is_expr;
use crate::walk::{
    are_exprs, children, firsts, lemma_children, lemma_walk_append, lemma_walk_one, names_in,
    walk,
};
use vstd::prelude::*;

verus! {

/// A walk takes the later roots first, and all of them.
pub proof fn law_walk_roots(m: Bytes, a: Seq<LeanObj>, b: Seq<LeanObj>)
    requires
        are_exprs(m, a),
        are_exprs(m, b),
    ensures
        walk(m, a + b) == walk(m, b) + walk(m, a),
        walk(m, seq![]).len() == 0,
{
    lemma_walk_append(m, a, b);
}

proof fn lemma_walk_two(m: Bytes, a: LeanObj, b: LeanObj)
    requires
        are_exprs(m, seq![a, b]),
    ensures
        are_exprs(m, seq![a]),
        are_exprs(m, seq![b]),
        walk(m, seq![a, b]) == walk(m, seq![b]) + walk(m, seq![a]),
{
    assert(is_expr(m, seq![a, b][0]));
    assert(is_expr(m, seq![a, b][1]));
    assert(seq![a, b] =~= seq![a] + seq![b]);
    lemma_walk_append(m, seq![a], seq![b]);
}

proof fn lemma_walk_three(m: Bytes, a: LeanObj, b: LeanObj, c: LeanObj)
    requires
        are_exprs(m, seq![a, b, c]),
    ensures
        walk(m, seq![a, b, c]) == walk(m, seq![c]) + walk(m, seq![b]) + walk(m, seq![a]),
{
    assert(is_expr(m, seq![a, b, c][0]));
    assert(is_expr(m, seq![a, b, c][1]));
    assert(is_expr(m, seq![a, b, c][2]));
    assert(are_exprs(m, seq![a, b]));
    assert(are_exprs(m, seq![c]));
    lemma_walk_two(m, a, b);
    assert(seq![a, b, c] =~= seq![a, b] + seq![c]);
    lemma_walk_append(m, seq![a, b], seq![c]);
    assert(walk(m, seq![c]) + (walk(m, seq![b]) + walk(m, seq![a])) =~= walk(m, seq![c]) + walk(
        m,
        seq![b],
    ) + walk(m, seq![a]));
}

/// A walk takes an expression before its subexpressions, and those from the
/// last field to the first: of an application the argument before the
/// function, of a binder the body before the type, of a `let` the body, the
/// value and the type. It goes into annotations and projections, and nowhere
/// else.
pub proof fn law_walk_order(m: Bytes, o: LeanObj)
    requires
        is_expr(m, o),
    ensures
        ({
            let tag = raw_tag(m, o);
            let w = walk(m, seq![o]);
            let w0 = walk(m, seq![raw_field(m, o, 0)]);
            let w1 = walk(m, seq![raw_field(m, o, 1)]);
            let w2 = walk(m, seq![raw_field(m, o, 2)]);
            let w3 = walk(m, seq![raw_field(m, o, 3)]);
            &&& tag < 5 || tag == 9 ==> w == seq![o]
            &&& tag == 5 ==> w == seq![o] + w1 + w0
            &&& tag == 6 || tag == 7 ==> w == seq![o] + w2 + w1
            &&& tag == 8 ==> w == seq![o] + w3 + w2 + w1
            &&& tag == 10 ==> w == seq![o] + w1
            &&& tag > 10 ==> w == seq![o] + w2
        }),
{
    let f0 = raw_field(m, o, 0);
    let f1 = raw_field(m, o, 1);
    let f2 = raw_field(m, o, 2);
    let f3 = raw_field(m, o, 3);
    let tag = raw_tag(m, o);
    let c = children(m, o);
    law_object_parts(m, o, 0, 0);
    law_object_parts(m, o, 1, 0);
    law_object_parts(m, o, 2, 0);
    law_object_parts(m, o, 3, 0);
    lemma_walk_one(m, o);
    lemma_children(m, o);
    if tag == 5 {
        lemma_walk_two(m, f0, f1);
        assert(walk(m, seq![o]) =~= seq![o] + walk(m, seq![f1]) + walk(m, seq![f0]));
    } else if tag == 6 || tag == 7 {
        lemma_walk_two(m, f1, f2);
        assert(walk(m, seq![o]) =~= seq![o] + walk(m, seq![f2]) + walk(m, seq![f1]));
    } else if tag == 8 {
        lemma_walk_three(m, f1, f2, f3);
        assert(walk(m, seq![o]) =~= seq![o] + walk(m, seq![f3]) + walk(m, seq![f2]) + walk(
            m,
            seq![f1],
        ));
    } else if tag < 5 || tag == 9 {
        assert(c.len() == 0);
        assert(walk(m, seq![o]) =~= seq![o]);
    }
}

/// Whether `x` occurs first in `s` at the index `k`.
pub open spec fn first_at(s: Seq<LeanObj>, k: int, x: LeanObj) -> bool {
    0 <= k < s.len() && s[k] == x && forall|j: int| 0 <= j < k ==> #[trigger] s[j] != x
}

/// Objects are kept in the order in which they occur first.
pub proof fn law_firsts_in_order(s: Seq<LeanObj>, i: int, j: int, a: int, b: int)
    requires
        0 <= i < j < firsts(s).len(),
        first_at(s, a, firsts(s)[i]),
        first_at(s, b, firsts(s)[j]),
    ensures
        a < b,
    decreases s.len(),
{
    let front = s.drop_last();
    let x = s.last();
    lemma_firsts_occur(front, i);
    let k = choose|k: int| 0 <= k < front.len() && front[k] == firsts(front)[i];
    assert(firsts(s)[i] == firsts(front)[i]);
    assert(s[k] == firsts(s)[i]);
    assert(a <= k);
    if j < firsts(front).len() {
        lemma_firsts_occur(front, j);
        let n = choose|n: int| 0 <= n < front.len() && front[n] == firsts(front)[j];
        assert(s[n] == firsts(s)[j]);
        assert(b <= n);
        assert(first_at(front, a, firsts(front)[i])) by {
            assert forall|y: int| 0 <= y < a implies #[trigger] front[y] != firsts(front)[i] by {
                assert(s[y] != firsts(s)[i]);
            }
        }
        assert(first_at(front, b, firsts(front)[j])) by {
            assert forall|y: int| 0 <= y < b implies #[trigger] front[y] != firsts(front)[j] by {
                assert(s[y] != firsts(s)[j]);
            }
        }
        law_firsts_in_order(front, i, j, a, b);
    } else {
        assert(firsts(s)[j] == x);
        if b < front.len() {
            assert(front[b] == x);
        }
    }
}

proof fn lemma_firsts_occur(s: Seq<LeanObj>, i: int)
    requires
        0 <= i < firsts(s).len(),
    ensures
        exists|k: int| 0 <= k < s.len() && #[trigger] s[k] == firsts(s)[i],
    decreases s.len(),
{
    let front = s.drop_last();
    if i < firsts(front).len() {
        lemma_firsts_occur(front, i);
        let k = choose|k: int| 0 <= k < front.len() && #[trigger] front[k] == firsts(front)[i];
        assert(s[k] == firsts(s)[i]);
    } else {
        assert(s[s.len() - 1] == firsts(s)[i]);
    }
}

/// The names in two sequences of expressions are those in the first, and those
/// in the second.
pub proof fn law_names_append(m: Bytes, a: Seq<LeanObj>, b: Seq<LeanObj>, projs: bool)
    ensures
        names_in(m, a + b, projs) == names_in(m, a, projs) + names_in(m, b, projs),
        names_in(m, seq![], projs).len() == 0,
    decreases b.len(),
{
    if b.len() == 0 {
        assert(a + b =~= a);
        assert(names_in(m, a, projs) + names_in(m, b, projs) =~= names_in(m, a, projs));
    } else {
        law_names_append(m, a, b.drop_last(), projs);
        assert((a + b).drop_last() =~= a + b.drop_last());
        assert((a + b).last() == b.last());
        assert(names_in(m, a + b, projs) =~= names_in(m, a, projs) + names_in(m, b, projs));
    }
}

/// A constant has its name to give, a projection that of its structure type
/// where projections count, and no other expression has one.
pub proof fn law_names_of_one(m: Bytes, o: LeanObj, projs: bool)
    ensures
        raw_tag(m, o) == 4 ==> names_in(m, seq![o], projs) == seq![raw_field(m, o, 0)],
        raw_tag(m, o) > 10 ==> names_in(m, seq![o], true) == seq![raw_field(m, o, 0)],
        raw_tag(m, o) > 10 ==> names_in(m, seq![o], false).len() == 0,
        raw_tag(m, o) != 4 && raw_tag(m, o) <= 10 ==> names_in(m, seq![o], projs).len() == 0,
{
    law_object_parts(m, o, 0, 0);
    let one = seq![o];
    assert(one.drop_last() =~= seq![]);
    assert(one.last() == o);
    assert(names_in(m, one.drop_last(), projs).len() == 0);
    assert(names_in(m, one.drop_last(), true).len() == 0);
    assert(names_in(m, one.drop_last(), false).len() == 0);
}

} // verus!
