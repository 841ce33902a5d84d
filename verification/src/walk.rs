//! Walking over the objects of an expression, each once.

use crate::lean_sys::{slot, tag_of, LeanObj};
use crate::memory::Bytes;
use crate::term::{expr_of, is_expr, lemma_expr_parts, ExprTree, NameTree};
use vstd::prelude::*;

verus! {

/// The subexpressions that the expression `o` holds, in the order of its
/// fields.
pub open spec fn children(m: Bytes, o: LeanObj) -> Seq<LeanObj> {
    let tag = tag_of(m, o);
    if tag == 5 {
        seq![slot(m, o, 0), slot(m, o, 1)]
    } else if tag == 6 || tag == 7 {
        seq![slot(m, o, 1), slot(m, o, 2)]
    } else if tag == 8 {
        seq![slot(m, o, 1), slot(m, o, 2), slot(m, o, 3)]
    } else if tag == 10 {
        seq![slot(m, o, 1)]
    } else if tag > 10 {
        seq![slot(m, o, 2)]
    } else {
        seq![]
    }
}

/// Whether all of `os` are live expressions.
pub open spec fn are_exprs(m: Bytes, os: Seq<LeanObj>) -> bool {
    forall|i: int| 0 <= i < os.len() ==> is_expr(m, #[trigger] os[i])
}

/// The number of nodes of the expression `t`.
pub open spec fn nodes(t: ExprTree) -> nat
    decreases t,
{
    match t {
        ExprTree::App(f, a) => 1 + nodes(*f) + nodes(*a),
        ExprTree::Lambda(_, _, ty, body) => 1 + nodes(*ty) + nodes(*body),
        ExprTree::Pi(_, _, ty, body) => 1 + nodes(*ty) + nodes(*body),
        ExprTree::Let(_, ty, val, body, _) => 1 + nodes(*ty) + nodes(*val) + nodes(*body),
        ExprTree::MData(e) => 1 + nodes(*e),
        ExprTree::Proj(_, _, e) => 1 + nodes(*e),
        _ => 1,
    }
}

/// The number of nodes of the expression that `o` stands for.
pub open spec fn size(m: Bytes, o: LeanObj) -> nat {
    nodes(expr_of(m, o))
}

/// The number of nodes of the expressions `os` together.
pub open spec fn total(m: Bytes, os: Seq<LeanObj>) -> nat
    decreases os.len(),
{
    if os.len() == 0 {
        0
    } else {
        total(m, os.drop_last()) + size(m, os.last())
    }
}

/// The objects of the expressions `os` and of all their subexpressions, shared
/// ones as often as they are reached: the last expression first, each object
/// before what it holds, and of what it holds the last first.
pub open spec fn walk(m: Bytes, os: Seq<LeanObj>) -> Seq<LeanObj>
    decreases total(m, os),
    when are_exprs(m, os)
{
    if os.len() == 0 {
        seq![]
    } else {
        proof {
            lemma_step(m, os);
        }
        seq![os.last()] + walk(m, os.drop_last() + children(m, os.last()))
    }
}

/// The items of `s`, each where it occurs first.
pub open spec fn firsts(s: Seq<LeanObj>) -> Seq<LeanObj>
    decreases s.len(),
{
    if s.len() == 0 {
        seq![]
    } else if s.drop_last().contains(s.last()) {
        firsts(s.drop_last())
    } else {
        firsts(s.drop_last()).push(s.last())
    }
}

/// Whether the expression `o` names a constant: whether it is one or, where
/// `projs` says so, a projection, which names its structure type.
pub open spec fn naming(m: Bytes, o: LeanObj, projs: bool) -> bool {
    tag_of(m, o) == 4 || (projs && tag_of(m, o) > 10)
}

/// The names in those of the expressions `os` that name a constant, in order.
pub open spec fn names_in(m: Bytes, os: Seq<LeanObj>, projs: bool) -> Seq<LeanObj>
    decreases os.len(),
{
    if os.len() == 0 {
        seq![]
    } else if naming(m, os.last(), projs) {
        names_in(m, os.drop_last(), projs).push(slot(m, os.last(), 0))
    } else {
        names_in(m, os.drop_last(), projs)
    }
}

/// Whether the constant `n` is named in the expression `t`.
pub open spec fn mentions(t: ExprTree, n: NameTree, projs: bool) -> bool
    decreases t,
{
    match t {
        ExprTree::Const(k, _) => k == n,
        ExprTree::App(f, a) => mentions(*f, n, projs) || mentions(*a, n, projs),
        ExprTree::Lambda(_, _, ty, body) => mentions(*ty, n, projs) || mentions(*body, n, projs),
        ExprTree::Pi(_, _, ty, body) => mentions(*ty, n, projs) || mentions(*body, n, projs),
        ExprTree::Let(_, ty, val, body, _) => {
            ||| mentions(*ty, n, projs)
            ||| mentions(*val, n, projs)
            ||| mentions(*body, n, projs)
        },
        ExprTree::MData(e) => mentions(*e, n, projs),
        ExprTree::Proj(k, _, e) => (projs && k == n) || mentions(*e, n, projs),
        _ => false,
    }
}

// ---------------------------------------------------------------------------
// The walk
// ---------------------------------------------------------------------------

proof fn lemma_total_append(m: Bytes, a: Seq<LeanObj>, b: Seq<LeanObj>)
    ensures
        total(m, a + b) == total(m, a) + total(m, b),
    decreases b.len(),
{
    if b.len() == 0 {
        assert(a + b =~= a);
    } else {
        assert((a + b).drop_last() =~= a + b.drop_last());
        lemma_total_append(m, a, b.drop_last());
    }
}

/// What a live expression holds is live, and smaller than it.
pub proof fn lemma_children(m: Bytes, o: LeanObj)
    requires
        is_expr(m, o),
    ensures
        are_exprs(m, children(m, o)),
        total(m, children(m, o)) < size(m, o),
        forall|i: int|
            0 <= i < children(m, o).len() ==> size(m, #[trigger] children(m, o)[i]) < size(m, o),
{
    lemma_expr_parts(m, o);
    let tag = tag_of(m, o);
    let s0 = slot(m, o, 0);
    let s1 = slot(m, o, 1);
    let s2 = slot(m, o, 2);
    let s3 = slot(m, o, 3);
    if tag == 5 {
        lemma_two_children(m, children(m, o));
        assert(size(m, o) == 1 + size(m, s0) + size(m, s1));
    } else if tag == 6 || tag == 7 {
        lemma_two_children(m, children(m, o));
        assert(size(m, o) == 1 + size(m, s1) + size(m, s2));
    } else if tag == 8 {
        lemma_three_children(m, children(m, o));
        assert(size(m, o) == 1 + size(m, s1) + size(m, s2) + size(m, s3));
    } else if tag == 10 {
        lemma_one_child(m, children(m, o));
        assert(size(m, o) == 1 + size(m, s1));
    } else if tag > 10 {
        lemma_one_child(m, children(m, o));
        assert(size(m, o) == 1 + size(m, s2));
    }
}

proof fn lemma_one_child(m: Bytes, s: Seq<LeanObj>)
    requires
        s.len() == 1,
        is_expr(m, s[0]),
    ensures
        are_exprs(m, s),
        total(m, s) == size(m, s[0]),
{
    assert(s.drop_last() =~= seq![]);
    assert(total(m, s.drop_last()) == 0);
}

proof fn lemma_two_children(m: Bytes, s: Seq<LeanObj>)
    requires
        s.len() == 2,
        is_expr(m, s[0]),
        is_expr(m, s[1]),
    ensures
        are_exprs(m, s),
        total(m, s) == size(m, s[0]) + size(m, s[1]),
{
    lemma_one_child(m, s.drop_last());
}

proof fn lemma_three_children(m: Bytes, s: Seq<LeanObj>)
    requires
        s.len() == 3,
        is_expr(m, s[0]),
        is_expr(m, s[1]),
        is_expr(m, s[2]),
    ensures
        are_exprs(m, s),
        total(m, s) == size(m, s[0]) + size(m, s[1]) + size(m, s[2]),
{
    lemma_two_children(m, s.drop_last());
}

/// The walk goes on over smaller expressions.
pub proof fn lemma_step(m: Bytes, os: Seq<LeanObj>)
    requires
        are_exprs(m, os),
        os.len() > 0,
    ensures
        is_expr(m, os.last()),
        are_exprs(m, os.drop_last()),
        are_exprs(m, children(m, os.last())),
        are_exprs(m, os.drop_last() + children(m, os.last())),
        total(m, os.drop_last() + children(m, os.last())) < total(m, os),
        total(m, os.drop_last()) < total(m, os),
{
    assert(os.last() == os[os.len() - 1]);
    lemma_children(m, os.last());
    lemma_total_append(m, os.drop_last(), children(m, os.last()));
}

/// A walk over two sequences is a walk over the second, and one over the first.
pub proof fn lemma_walk_append(m: Bytes, a: Seq<LeanObj>, b: Seq<LeanObj>)
    requires
        are_exprs(m, a),
        are_exprs(m, b),
    ensures
        are_exprs(m, a + b),
        walk(m, a + b) == walk(m, b) + walk(m, a),
    decreases total(m, b),
{
    if b.len() == 0 {
        assert(a + b =~= a);
        assert(walk(m, b) + walk(m, a) =~= walk(m, a));
    } else {
        lemma_step(m, b);
        let next = b.drop_last() + children(m, b.last());
        lemma_walk_append(m, a, next);
        assert((a + b).drop_last() + children(m, b.last()) =~= a + next);
        assert((a + b).last() == b.last());
        assert(walk(m, a + b) =~= walk(m, b) + walk(m, a));
    }
}

/// A new item comes last among the first occurrences.
proof fn lemma_firsts_new(s: Seq<LeanObj>, x: LeanObj)
    requires
        !s.contains(x),
    ensures
        firsts(s.push(x)) == firsts(s).push(x),
{
    assert(s.push(x).drop_last() =~= s);
}

/// Items that occur already leave the first occurrences as they are.
proof fn lemma_firsts_old(s: Seq<LeanObj>, t: Seq<LeanObj>)
    requires
        forall|i: int| 0 <= i < t.len() ==> s.contains(#[trigger] t[i]),
    ensures
        firsts(s + t) == firsts(s),
    decreases t.len(),
{
    if t.len() == 0 {
        assert(s + t =~= s);
    } else {
        lemma_firsts_old(s, t.drop_last());
        assert((s + t).drop_last() =~= s + t.drop_last());
        let k = s.index_of(t[t.len() - 1]);
        assert((s + t.drop_last())[k] == t.last());
    }
}

// ---------------------------------------------------------------------------
// What is left to do for an object that was seen
// ---------------------------------------------------------------------------

/// Whether the walk below `v` is done, but for what the walk over `stack` from
/// `cut` on comes to, and all that lies there is smaller than `v`.
spec fn done_but(
    m: Bytes,
    seen: Seq<LeanObj>,
    stack: Seq<LeanObj>,
    v: LeanObj,
    cut: int,
) -> bool {
    &&& is_expr(m, v)
    &&& 0 <= cut <= stack.len()
    &&& forall|j: int| cut <= j < stack.len() ==> size(m, #[trigger] stack[j]) < size(m, v)
    &&& forall|x: LeanObj| #[trigger]
        walk(m, seq![v]).contains(x) ==> seen.contains(x) || walk(m, stack.skip(cut)).contains(x)
}

/// Whether each object that was seen is done but for the end of the stack.
spec fn in_order(m: Bytes, seen: Seq<LeanObj>, stack: Seq<LeanObj>) -> bool {
    forall|v: LeanObj| #[trigger]
        seen.contains(v) ==> exists|cut: int| done_but(m, seen, stack, v, cut)
}

/// Where the object on top of the stack was seen, all below it was.
proof fn lemma_seen(m: Bytes, seen: Seq<LeanObj>, stack: Seq<LeanObj>)
    requires
        are_exprs(m, stack),
        in_order(m, seen, stack),
        stack.len() > 0,
        seen.contains(stack.last()),
    ensures
        forall|x: LeanObj| #[trigger]
            walk(m, seq![stack.last()]).contains(x) ==> seen.contains(x),
        in_order(m, seen + walk(m, seq![stack.last()]), stack.drop_last()),
{
    let e = stack.last();
    let rest = stack.drop_last();
    let below = walk(m, seq![e]);
    let cut = choose|cut: int| done_but(m, seen, stack, e, cut);
    assert(cut == stack.len()) by {
        if cut < stack.len() {
            assert(size(m, stack[stack.len() - 1]) < size(m, e));
        }
    }
    assert(stack.skip(cut) =~= seq![]);
    assert forall|x: LeanObj| #[trigger] below.contains(x) implies seen.contains(x) by {
        assert(!walk(m, stack.skip(cut)).contains(x));
    }
    let now = seen + below;
    assert forall|x: LeanObj| #[trigger] now.contains(x) implies seen.contains(x) by {
        let k = now.index_of(x);
        if k >= seen.len() {
            assert(below.contains(below[k - seen.len()]));
        }
    }
    assert forall|x: LeanObj| #[trigger] seen.contains(x) implies now.contains(x) by {
        assert(now[seen.index_of(x)] == x);
    }
    assert forall|v: LeanObj| #[trigger] now.contains(v) implies exists|c: int|
        done_but(m, now, rest, v, c) by {
        let c = choose|c: int| done_but(m, seen, stack, v, c);
        if c == stack.len() {
            assert(stack.skip(c) =~= seq![]);
            assert(rest.skip(rest.len() as int) =~= seq![]);
            assert(done_but(m, now, rest, v, rest.len() as int));
        } else {
            lemma_exprs_skip(m, rest, c);
            assert(stack.skip(c) =~= rest.skip(c) + seq![e]);
            lemma_walk_append(m, rest.skip(c), seq![e]);
            assert forall|x: LeanObj| #[trigger] walk(m, seq![v]).contains(x) implies now.contains(
                x,
            ) || walk(m, rest.skip(c)).contains(x) by {
                if !seen.contains(x) {
                    lemma_contains_append(below, walk(m, rest.skip(c)), x);
                }
            }
            assert forall|j: int| c <= j < rest.len() implies size(m, #[trigger] rest[j]) < size(
                m,
                v,
            ) by {
                assert(rest[j] == stack[j]);
            }
            assert(done_but(m, now, rest, v, c));
        }
    }
}

/// An object that was seen before stays done but for the end of the stack
/// where what the top of the stack holds takes its place.
proof fn lemma_unseen_old(
    m: Bytes,
    seen: Seq<LeanObj>,
    stack: Seq<LeanObj>,
    v: LeanObj,
    c: int,
) -> (r: int)
    requires
        are_exprs(m, stack),
        stack.len() > 0,
        done_but(m, seen, stack, v, c),
    ensures
        done_but(
            m,
            seen.push(stack.last()),
            stack.drop_last() + children(m, stack.last()),
            v,
            r,
        ),
{
    let e = stack.last();
    let rest = stack.drop_last();
    let cs = children(m, e);
    let next = rest + cs;
    let now = seen.push(e);
    let below = walk(m, seq![v]);
    assert forall|x: LeanObj| #[trigger] seen.contains(x) implies now.contains(x) by {
        assert(now[seen.index_of(x)] == x);
    }
    if c == stack.len() {
        assert(stack.skip(c) =~= seq![]);
        assert(walk(m, stack.skip(c)) =~= seq![]);
        next.len() as int
    } else {
        let tail = stack.skip(c);
        let end = next.skip(c);
        lemma_exprs_skip(m, stack, c);
        lemma_step(m, tail);
        assert(tail.last() == e);
        assert(tail.drop_last() + cs =~= end);
        assert(walk(m, tail) == seq![e] + walk(m, end));
        assert(size(m, stack[stack.len() - 1]) < size(m, v));
        assert(is_expr(m, stack[stack.len() - 1]));
        lemma_children(m, e);
        assert forall|j: int| c <= j < next.len() implies size(m, #[trigger] next[j]) < size(
            m,
            v,
        ) by {
            if j < rest.len() {
                assert(next[j] == stack[j]);
            } else {
                assert(next[j] == cs[j - rest.len()]);
            }
        }
        assert forall|x: LeanObj| #[trigger] below.contains(x) implies now.contains(x) || walk(
            m,
            end,
        ).contains(x) by {
            if !seen.contains(x) {
                lemma_contains_append(seq![e], walk(m, end), x);
                if seq![e].contains(x) {
                    assert(now[seen.len() as int] == x);
                }
            }
        }
        c
    }
}

/// The top of the stack is done but for what it holds.
proof fn lemma_unseen_new(m: Bytes, seen: Seq<LeanObj>, stack: Seq<LeanObj>)
    requires
        are_exprs(m, stack),
        stack.len() > 0,
    ensures
        done_but(
            m,
            seen.push(stack.last()),
            stack.drop_last() + children(m, stack.last()),
            stack.last(),
            stack.len() - 1,
        ),
{
    let e = stack.last();
    let rest = stack.drop_last();
    let cs = children(m, e);
    let next = rest + cs;
    let now = seen.push(e);
    let cut = rest.len() as int;
    assert(is_expr(m, stack[stack.len() - 1]));
    lemma_children(m, e);
    lemma_walk_one(m, e);
    assert(next.skip(cut) =~= cs);
    assert forall|x: LeanObj| #[trigger] walk(m, seq![e]).contains(x) implies now.contains(x)
        || walk(m, next.skip(cut)).contains(x) by {
        lemma_contains_append(seq![e], walk(m, cs), x);
        if seq![e].contains(x) {
            assert(now[seen.len() as int] == x);
        }
    }
    assert forall|j: int| cut <= j < next.len() implies size(m, #[trigger] next[j]) < size(
        m,
        e,
    ) by {
        assert(next[j] == cs[j - cut]);
    }
}

/// The walk over one expression: the object, and the walk over what it holds.
pub proof fn lemma_walk_one(m: Bytes, o: LeanObj)
    requires
        is_expr(m, o),
    ensures
        are_exprs(m, seq![o]),
        walk(m, seq![o]) == seq![o] + walk(m, children(m, o)),
{
    let one = seq![o];
    lemma_children(m, o);
    assert(one.drop_last() + children(m, o) =~= children(m, o));
    assert(one.last() == o);
}

/// Where the object on top of the stack was not seen, it is now, and what it
/// holds takes its place.
proof fn lemma_unseen(m: Bytes, seen: Seq<LeanObj>, stack: Seq<LeanObj>)
    requires
        are_exprs(m, stack),
        in_order(m, seen, stack),
        stack.len() > 0,
    ensures
        in_order(
            m,
            seen.push(stack.last()),
            stack.drop_last() + children(m, stack.last()),
        ),
{
    let e = stack.last();
    let next = stack.drop_last() + children(m, e);
    let now = seen.push(e);
    assert forall|v: LeanObj| #[trigger] now.contains(v) implies exists|c: int|
        done_but(m, now, next, v, c) by {
        if seen.contains(v) {
            let c = choose|c: int| done_but(m, seen, stack, v, c);
            let r = lemma_unseen_old(m, seen, stack, v, c);
        } else {
            let k = now.index_of(v);
            if k < seen.len() {
                assert(seen[k] == v);
            }
            lemma_unseen_new(m, seen, stack);
        }
    }
}

proof fn lemma_exprs_skip(m: Bytes, os: Seq<LeanObj>, c: int)
    requires
        are_exprs(m, os),
        0 <= c <= os.len(),
    ensures
        are_exprs(m, os.skip(c)),
{
    assert forall|i: int| 0 <= i < os.skip(c).len() implies is_expr(
        m,
        #[trigger] os.skip(c)[i],
    ) by {
        assert(is_expr(m, os[i + c]));
    }
}

/// What two sequences hold together.
pub proof fn lemma_contains_append(a: Seq<LeanObj>, b: Seq<LeanObj>, x: LeanObj)
    ensures
        (a + b).contains(x) <==> a.contains(x) || b.contains(x),
{
    if (a + b).contains(x) {
        let k = (a + b).index_of(x);
        if k < a.len() {
            assert(a[k] == x);
        } else {
            assert(b[k - a.len()] == x);
        }
    }
    if a.contains(x) {
        assert((a + b)[a.index_of(x)] == x);
    }
    if b.contains(x) {
        assert((a + b)[a.len() + b.index_of(x)] == x);
    }
}

// ---------------------------------------------------------------------------
// The walk, step by step
// ---------------------------------------------------------------------------

/// Whether the walk over `roots` has seen `seen`, and has `stack` to go on with.
#[verifier::opaque]
pub closed spec fn progress(
    m: Bytes,
    roots: Seq<LeanObj>,
    seen: Seq<LeanObj>,
    stack: Seq<LeanObj>,
) -> bool {
    &&& are_exprs(m, roots)
    &&& are_exprs(m, stack)
    &&& walk(m, roots) == seen + walk(m, stack)
    &&& in_order(m, seen, stack)
}

/// The walk starts with the roots.
pub proof fn lemma_start(m: Bytes, roots: Seq<LeanObj>)
    requires
        are_exprs(m, roots),
    ensures
        progress(m, roots, seq![], roots),
{
    reveal(progress);
    assert(Seq::<LeanObj>::empty() + walk(m, roots) =~= walk(m, roots));
}

/// What lies on the stack is a live expression.
pub proof fn lemma_top(m: Bytes, roots: Seq<LeanObj>, seen: Seq<LeanObj>, stack: Seq<LeanObj>)
    requires
        progress(m, roots, seen, stack),
        stack.len() > 0,
    ensures
        is_expr(m, stack.last()),
        total(m, stack.drop_last()) < total(m, stack),
        total(m, stack.drop_last() + children(m, stack.last())) < total(m, stack),
{
    reveal(progress);
    lemma_step(m, stack);
}

/// An object that was seen is dropped: so is all below it.
pub proof fn lemma_drop(m: Bytes, roots: Seq<LeanObj>, seen: Seq<LeanObj>, stack: Seq<LeanObj>)
    requires
        progress(m, roots, seen, stack),
        stack.len() > 0,
        seen.contains(stack.last()),
    ensures
        ({
            let now = seen + walk(m, seq![stack.last()]);
            &&& progress(m, roots, now, stack.drop_last())
            &&& now.to_set() == seen.to_set()
            &&& firsts(now) == firsts(seen)
        }),
{
    reveal(progress);
    let e = stack.last();
    let rest = stack.drop_last();
    let below = walk(m, seq![e]);
    lemma_step(m, stack);
    lemma_seen(m, seen, stack);
    lemma_walk_one(m, e);
    lemma_walk_append(m, rest, seq![e]);
    assert(stack =~= rest + seq![e]);
    assert forall|i: int| 0 <= i < below.len() implies seen.contains(#[trigger] below[i]) by {
        assert(below.contains(below[i]));
    }
    lemma_firsts_old(seen, below);
    assert forall|x: LeanObj| (seen + below).contains(x) <==> seen.contains(x) by {
        lemma_contains_append(seen, below, x);
    }
    assert((seen + below).to_set() =~= seen.to_set());
    assert(seen + (below + walk(m, rest)) =~= (seen + below) + walk(m, rest));
}

/// An object that was not seen is seen now, and what it holds comes next.
pub proof fn lemma_enter(m: Bytes, roots: Seq<LeanObj>, seen: Seq<LeanObj>, stack: Seq<LeanObj>)
    requires
        progress(m, roots, seen, stack),
        stack.len() > 0,
        !seen.contains(stack.last()),
    ensures
        ({
            let now = seen.push(stack.last());
            &&& progress(m, roots, now, stack.drop_last() + children(m, stack.last()))
            &&& now.to_set() == seen.to_set().insert(stack.last())
            &&& firsts(now) == firsts(seen).push(stack.last())
        }),
{
    reveal(progress);
    let e = stack.last();
    let next = stack.drop_last() + children(m, e);
    lemma_step(m, stack);
    lemma_unseen(m, seen, stack);
    lemma_firsts_new(seen, e);
    assert forall|x: LeanObj| seen.push(e).contains(x) <==> seen.contains(x) || x == e by {
        assert(seen.push(e) =~= seen + seq![e]);
        lemma_contains_append(seen, seq![e], x);
        assert(seq![e][0] == e);
    }
    assert(seen.push(e).to_set() =~= seen.to_set().insert(e));
    assert(seen + (seq![e] + walk(m, next)) =~= seen.push(e) + walk(m, next));
}

/// The walk ends with the stack.
pub proof fn lemma_end(m: Bytes, roots: Seq<LeanObj>, seen: Seq<LeanObj>, stack: Seq<LeanObj>)
    requires
        progress(m, roots, seen, stack),
        stack.len() == 0,
    ensures
        seen == walk(m, roots),
{
    reveal(progress);
    assert(seen + walk(m, stack) =~= seen);
}

} // verus!
