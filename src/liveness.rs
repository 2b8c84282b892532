use vstd::prelude::*;

use crate::reg_alloc::{
    allocate, bind, initial, ir_wf, lowest_free, operand, reads_lhs, reads_rhs, rewrite, state_wf,
    IROp, RegState, IR, REGISTER_COUNT,
};

verus! {

proof fn lemma_bind(s: RegState, v: usize)
    requires
        bind(s, v) is Ok,
    ensures
        s.map.submap_of(bind(s, v)->Ok_0.0.map),
        bind(s, v)->Ok_0.0.map.contains_key(v),
        bind(s, v)->Ok_0.0.map[v] == bind(s, v)->Ok_0.1,
{
}

proof fn lemma_rewrite_binds(ir: IR, s: RegState)
    requires
        rewrite(ir, s) is Ok,
        ir_wf(ir),
    ensures
        s.map.submap_of(rewrite(ir, s)->Ok_0.1.map),
        rewrite(ir, s)->Ok_0.0.op == ir.op,
        forall|c: int| #[trigger] operand(ir, c) is Some ==> {
            let v = operand(ir, c)->Some_0;
            let s1 = rewrite(ir, s)->Ok_0.1;
            s1.map.contains_key(v) && operand(rewrite(ir, s)->Ok_0.0, c) == Some(s1.map[v])
        },
{
    if reads_lhs(ir.op) {
        let v = ir.lhs->Some_0;
        lemma_bind(s, v);
        let s1 = bind(s, v)->Ok_0.0;
        if reads_rhs(ir.op) {
            lemma_bind(s1, ir.rhs->Some_0);
        }
    }
}

/// What a successful pass from state `s` gives: one instruction out for each
/// in, with the same kind, bindings only added, and each register operand
/// replaced by the final binding of its virtual register.
pub proof fn lemma_allocate_binds(irs: Seq<IR>, s: RegState)
    requires
        allocate(irs, s) is Ok,
        forall|k: int| 0 <= k < irs.len() ==> ir_wf(#[trigger] irs[k]),
    ensures
        ({
            let (out, s2) = allocate(irs, s)->Ok_0;
            &&& out.len() == irs.len()
            &&& s.map.submap_of(s2.map)
            &&& forall|k: int| 0 <= k < irs.len() ==> (#[trigger] out[k]).op == irs[k].op
            &&& forall|k: int, c: int|
                0 <= k < irs.len() && (#[trigger] operand(irs[k], c)) is Some ==> {
                    let v = operand(irs[k], c)->Some_0;
                    s2.map.contains_key(v) && operand(out[k], c) == Some(s2.map[v])
                }
        }),
    decreases irs.len(),
{
    if irs.len() > 0 {
        let (ir, s1) = rewrite(irs[0], s)->Ok_0;
        let rest = irs.drop_first();
        lemma_rewrite_binds(irs[0], s);
        lemma_allocate_binds(rest, s1);
        let (out, s2) = allocate(irs, s)->Ok_0;
        let (rest_out, s2b) = allocate(rest, s1)->Ok_0;
        assert(out == seq![ir] + rest_out && s2 == s2b);
        assert(out.len() == irs.len());
        assert(s1.map.submap_of(s2.map));
        assert(s.map.submap_of(s2.map)) by {
            assert forall|v: usize| #[trigger] s.map.contains_key(v) implies s2.map.contains_key(v)
                && s2.map[v] == s.map[v] by {
                assert(s1.map.contains_key(v));
                assert(s1.map[v] == s.map[v]);
                assert(s2.map.contains_key(v));
                assert(s2.map[v] == s1.map[v]);
            }
        }
        assert forall|k: int, c: int|
            0 <= k < irs.len() && (#[trigger] operand(irs[k], c)) is Some implies {
                let v = operand(irs[k], c)->Some_0;
                s2.map.contains_key(v) && operand(out[k], c) == Some(s2.map[v])
            } by {
            let v = operand(irs[k], c)->Some_0;
            if k == 0 {
                assert(operand(irs[0], c) is Some);
                assert(s1.map.contains_key(v));
                assert(out[0] == ir);
                assert(s2.map.contains_key(v));
                assert(s2.map[v] == s1.map[v]);
            } else {
                assert(rest[k - 1] == irs[k]);
                assert(operand(rest[k - 1], c) is Some);
                assert(out[k] == rest_out[k - 1]);
            }
        }
        assert forall|k: int| 0 <= k < irs.len() implies (#[trigger] out[k]).op == irs[k].op by {
            if k > 0 {
                assert(rest[k - 1] == irs[k]);
            }
        }
    }
}

/// A virtual register resolves to the same physical register at every
/// instruction that names it: a binding, once made, is never changed.
pub proof fn lemma_binding_is_sticky(irs: Seq<IR>, i: int, a: int, j: int, b: int)
    requires
        forall|k: int| 0 <= k < irs.len() ==> ir_wf(#[trigger] irs[k]),
        allocate(irs, initial()) is Ok,
        0 <= i < irs.len(),
        0 <= j < irs.len(),
        operand(irs[i], a) is Some,
        operand(irs[i], a) == operand(irs[j], b),
    ensures
        operand(allocate(irs, initial())->Ok_0.0[i], a) == operand(allocate(irs, initial())->Ok_0.0[j], b),
{
    lemma_allocate_binds(irs, initial());
}

} // verus!

verus! {

/// Whether an instruction before position `n` kills `v`.
pub open spec fn killed_before(irs: Seq<IR>, n: int, v: usize) -> bool {
    exists|k: int| 0 <= k < n && k < irs.len() && (#[trigger] irs[k]).op == IROp::Kill && irs[k].lhs == Some(v)
}

/// Whether an instruction before position `n` names `v` as a register.
pub open spec fn named_before(irs: Seq<IR>, n: int, v: usize) -> bool {
    exists|k: int, c: int| 0 <= k < n && k < irs.len() && #[trigger] operand(irs[k], c) == Some(v)
}

/// No instruction names a virtual register after the kill of it.
pub open spec fn no_use_after_kill(irs: Seq<IR>) -> bool {
    forall|k: int, c: int|
        0 <= k < irs.len() && (#[trigger] operand(irs[k], c)) is Some ==> !killed_before(
            irs,
            k,
            operand(irs[k], c)->Some_0,
        )
}

/// Every binding of a virtual register outside `dead` holds a register that is
/// in use, and no two such bindings share one.
pub open spec fn live_inv(s: RegState, dead: Set<usize>) -> bool {
    &&& state_wf(s)
    &&& forall|v: usize|
        #[trigger] s.map.contains_key(v) && !dead.contains(v) ==> s.used[s.map[v] as int]
    &&& forall|v: usize, w: usize|
        #[trigger] s.map.contains_key(v) && #[trigger] s.map.contains_key(w) && v != w
            && !dead.contains(v) && !dead.contains(w) ==> s.map[v] != s.map[w]
}

/// The killed virtual registers after `ir`.
pub open spec fn dead_after(ir: IR, dead: Set<usize>) -> Set<usize> {
    if ir.op is Kill {
        dead.insert(ir.lhs->Some_0)
    } else {
        dead
    }
}

proof fn lemma_lowest_free(used: Seq<bool>, i: int)
    requires
        0 <= i,
    ensures
        lowest_free(used, i) < used.len() ==> 0 <= lowest_free(used, i) && !used[lowest_free(used, i)],
    decreases used.len() - i,
{
    if i < used.len() && used[i] {
        lemma_lowest_free(used, i + 1);
    }
}

proof fn lemma_bind_live(s: RegState, dead: Set<usize>, v: usize)
    requires
        live_inv(s, dead),
        !dead.contains(v),
        bind(s, v) is Ok,
    ensures
        live_inv(bind(s, v)->Ok_0.0, dead),
{
    if !s.map.contains_key(v) {
        let f = lowest_free(s.used, 0);
        lemma_lowest_free(s.used, 0);
        let s1 = bind(s, v)->Ok_0.0;
        assert forall|w: usize| #[trigger] s1.map.contains_key(w) && !dead.contains(w) implies s1.used[s1.map[w] as int] by {
            if w != v {
                assert(s.map.contains_key(w));
                assert(s.used[s.map[w] as int]);
            }
        }
        assert forall|x: usize, w: usize|
            #[trigger] s1.map.contains_key(x) && #[trigger] s1.map.contains_key(w) && x != w
                && !dead.contains(x) && !dead.contains(w) implies s1.map[x] != s1.map[w] by {
            if x != v {
                assert(s.map.contains_key(x));
                assert(s.used[s.map[x] as int]);
            }
            if w != v {
                assert(s.map.contains_key(w));
                assert(s.used[s.map[w] as int]);
            }
        }
        assert forall|w: usize| #[trigger] s1.map.contains_key(w) implies s1.map[w] < REGISTER_COUNT by {
            if w != v {
                assert(s.map.contains_key(w));
            }
        }
    }
}

proof fn lemma_rewrite_live(ir: IR, s: RegState, dead: Set<usize>)
    requires
        ir_wf(ir),
        live_inv(s, dead),
        forall|c: int| #[trigger] operand(ir, c) is Some ==> !dead.contains(operand(ir, c)->Some_0),
        rewrite(ir, s) is Ok,
    ensures
        live_inv(rewrite(ir, s)->Ok_0.1, dead_after(ir, dead)),
{
    if reads_lhs(ir.op) {
        let v = ir.lhs->Some_0;
        assert(operand(ir, 0) is Some);
        lemma_bind_live(s, dead, v);
        let s1 = bind(s, v)->Ok_0.0;
        if reads_rhs(ir.op) {
            assert(operand(ir, 1) is Some);
            lemma_bind_live(s1, dead, ir.rhs->Some_0);
        } else if ir.op is Kill {
            lemma_bind(s, v);
            let a = bind(s, v)->Ok_0.1;
            let s2 = rewrite(ir, s)->Ok_0.1;
            let dead2 = dead_after(ir, dead);
            assert forall|w: usize| #[trigger] s2.map.contains_key(w) && !dead2.contains(w) implies s2.used[s2.map[w] as int] by {
                assert(s1.map.contains_key(v));
                assert(s1.map[w] != s1.map[v]);
            }
        }
    }
}

/// What holds of a stream and a set of killed registers holds of the stream
/// after its first instruction and the set after that instruction.
proof fn lemma_shift_stream(irs: Seq<IR>, dead: Set<usize>)
    requires
        irs.len() > 0,
        forall|k: int| 0 <= k < irs.len() ==> ir_wf(#[trigger] irs[k]),
        forall|k: int, c: int|
            0 <= k < irs.len() && (#[trigger] operand(irs[k], c)) is Some ==> !dead.contains(
                operand(irs[k], c)->Some_0,
            ) && !killed_before(irs, k, operand(irs[k], c)->Some_0),
    ensures
        forall|c: int| #[trigger] operand(irs[0], c) is Some ==> !dead.contains(operand(irs[0], c)->Some_0),
        forall|k: int| 0 <= k < irs.drop_first().len() ==> ir_wf(#[trigger] irs.drop_first()[k]),
        forall|k: int, c: int|
            0 <= k < irs.drop_first().len() && (#[trigger] operand(irs.drop_first()[k], c)) is Some
                ==> !dead_after(irs[0], dead).contains(operand(irs.drop_first()[k], c)->Some_0)
                && !killed_before(irs.drop_first(), k, operand(irs.drop_first()[k], c)->Some_0),
{
    let rest = irs.drop_first();
    let dead1 = dead_after(irs[0], dead);
    assert forall|c: int| #[trigger] operand(irs[0], c) is Some implies !dead.contains(operand(irs[0], c)->Some_0) by {
        assert(0 <= 0 < irs.len());
    }
    assert forall|k: int| 0 <= k < rest.len() implies ir_wf(#[trigger] rest[k]) by {
        assert(rest[k] == irs[k + 1]);
    }
    assert forall|k: int, c: int|
        0 <= k < rest.len() && (#[trigger] operand(rest[k], c)) is Some implies !dead1.contains(
            operand(rest[k], c)->Some_0,
        ) && !killed_before(rest, k, operand(rest[k], c)->Some_0) by {
        let x = operand(rest[k], c)->Some_0;
        assert(rest[k] == irs[k + 1]);
        assert(operand(irs[k + 1], c) is Some);
        if irs[0].op == IROp::Kill && irs[0].lhs == Some(x) {
            assert(killed_before(irs, k + 1, x));
        }
        if killed_before(rest, k, x) {
            let q = choose|q: int| 0 <= q < k && q < rest.len() && (#[trigger] rest[q]).op == IROp::Kill && rest[q].lhs == Some(x);
            assert(irs[q + 1] == rest[q]);
            assert(killed_before(irs, k + 1, x));
        }
    }
}

/// A register that is bound or named before `named`, and not killed before
/// `killed`, is so after the first instruction, one position earlier.
proof fn lemma_shift_register(irs: Seq<IR>, s: RegState, dead: Set<usize>, named: int, killed: int, v: usize)
    requires
        irs.len() > 0,
        ir_wf(irs[0]),
        rewrite(irs[0], s) is Ok,
        1 <= killed,
        s.map.contains_key(v) || named_before(irs, named, v),
        !dead.contains(v),
        !killed_before(irs, killed, v),
    ensures
        !dead_after(irs[0], dead).contains(v),
        rewrite(irs[0], s)->Ok_0.1.map.contains_key(v) || named_before(irs.drop_first(), named - 1, v),
        !killed_before(irs.drop_first(), killed - 1, v),
{
    let rest = irs.drop_first();
    lemma_rewrite_binds(irs[0], s);
    if irs[0].op == IROp::Kill && irs[0].lhs == Some(v) {
        assert(killed_before(irs, killed, v));
    }
    if !s.map.contains_key(v) {
        let (k, c) = choose|k: int, c: int| 0 <= k < named && k < irs.len() && #[trigger] operand(irs[k], c) == Some(v);
        if k == 0 {
            assert(operand(irs[0], c) is Some);
        } else {
            assert(rest[k - 1] == irs[k]);
            assert(operand(rest[k - 1], c) == Some(v));
        }
    }
    if killed_before(rest, killed - 1, v) {
        let q = choose|q: int| 0 <= q < killed - 1 && q < rest.len() && (#[trigger] rest[q]).op == IROp::Kill && rest[q].lhs == Some(v);
        assert(irs[q + 1] == rest[q]);
        assert(killed_before(irs, killed, v));
    }
}

proof fn lemma_live_distinct(irs: Seq<IR>, s: RegState, dead: Set<usize>, n: int, v1: usize, v2: usize)
    requires
        forall|k: int| 0 <= k < irs.len() ==> ir_wf(#[trigger] irs[k]),
        allocate(irs, s) is Ok,
        live_inv(s, dead),
        forall|k: int, c: int|
            0 <= k < irs.len() && (#[trigger] operand(irs[k], c)) is Some ==> !dead.contains(
                operand(irs[k], c)->Some_0,
            ) && !killed_before(irs, k, operand(irs[k], c)->Some_0),
        0 <= n <= irs.len(),
        v1 != v2,
        s.map.contains_key(v1) || named_before(irs, n, v1),
        s.map.contains_key(v2) || named_before(irs, n, v2),
        !dead.contains(v1),
        !dead.contains(v2),
        !killed_before(irs, n, v1),
        !killed_before(irs, n, v2),
    ensures
        ({
            let m = allocate(irs, s)->Ok_0.1.map;
            m.contains_key(v1) && m.contains_key(v2) && m[v1] != m[v2]
        }),
    decreases irs.len(),
{
    lemma_allocate_binds(irs, s);
    if n == 0 {
    } else {
        let (ir0, s1) = rewrite(irs[0], s)->Ok_0;
        let dead1 = dead_after(irs[0], dead);
        let rest = irs.drop_first();
        lemma_shift_stream(irs, dead);
        lemma_rewrite_live(irs[0], s, dead);
        lemma_shift_register(irs, s, dead, n, n, v1);
        lemma_shift_register(irs, s, dead, n, n, v2);
        assert(!dead1.contains(v1));
        assert(!dead1.contains(v2));
        lemma_live_distinct(rest, s1, dead1, n - 1, v1, v2);
    }
}

/// As `lemma_live_distinct`, where the instruction at `n` may be the kill of
/// one of the two registers, even one that it names for the first time.
proof fn lemma_live_distinct_at(irs: Seq<IR>, s: RegState, dead: Set<usize>, n: int, v1: usize, v2: usize)
    requires
        forall|k: int| 0 <= k < irs.len() ==> ir_wf(#[trigger] irs[k]),
        allocate(irs, s) is Ok,
        live_inv(s, dead),
        forall|k: int, c: int|
            0 <= k < irs.len() && (#[trigger] operand(irs[k], c)) is Some ==> !dead.contains(
                operand(irs[k], c)->Some_0,
            ) && !killed_before(irs, k, operand(irs[k], c)->Some_0),
        0 <= n < irs.len(),
        v1 != v2,
        s.map.contains_key(v1) || named_before(irs, n + 1, v1),
        s.map.contains_key(v2) || named_before(irs, n + 1, v2),
        !dead.contains(v1),
        !dead.contains(v2),
        !killed_before(irs, n, v1),
        !killed_before(irs, n, v2),
    ensures
        ({
            let m = allocate(irs, s)->Ok_0.1.map;
            m.contains_key(v1) && m.contains_key(v2) && m[v1] != m[v2]
        }),
    decreases irs.len(),
{
    lemma_allocate_binds(irs, s);
    let (ir0, s1) = rewrite(irs[0], s)->Ok_0;
    let dead1 = dead_after(irs[0], dead);
    let rest = irs.drop_first();
    lemma_shift_stream(irs, dead);
    lemma_rewrite_live(irs[0], s, dead);
    lemma_rewrite_binds(irs[0], s);
    if n == 0 {
        lemma_allocate_binds(rest, s1);
        assert forall|v: usize| v == v1 || v == v2 implies s1.map.contains_key(v) by {
            if !s.map.contains_key(v) {
                let (k, c) = choose|k: int, c: int| 0 <= k < 1 && k < irs.len() && #[trigger] operand(irs[k], c) == Some(v);
                assert(operand(irs[0], c) is Some);
            }
        }
        let m = allocate(irs, s)->Ok_0.1.map;
        assert(s1.map.contains_key(v1) && s1.map.contains_key(v2));
        assert(m.contains_key(v1) && m.contains_key(v2));
        if irs[0].op == IROp::Kill && (irs[0].lhs == Some(v1) || irs[0].lhs == Some(v2)) {
            let x = irs[0].lhs->Some_0;
            let y = if x == v1 { v2 } else { v1 };
            assert(operand(irs[0], 0) == Some(x));
            if !s.map.contains_key(y) {
                let (k, c) = choose|k: int, c: int| 0 <= k < 1 && k < irs.len() && #[trigger] operand(irs[k], c) == Some(y);
                assert(operand(irs[0], c) is Some);
            }
            lemma_bind(s, x);
            lemma_bind_live(s, dead, x);
            let sb = bind(s, x)->Ok_0.0;
            assert(sb.map.contains_key(y));
            assert(sb.map[x] != sb.map[y]);
            assert(s1.map == sb.map);
        } else {
            assert(!dead1.contains(v1));
            assert(!dead1.contains(v2));
        }
    } else {
        lemma_shift_register(irs, s, dead, n + 1, n, v1);
        lemma_shift_register(irs, s, dead, n + 1, n, v2);
        assert(!dead1.contains(v1));
        assert(!dead1.contains(v2));
        lemma_live_distinct_at(rest, s1, dead1, n - 1, v1, v2);
    }
}

/// Two virtual registers whose live ranges meet resolve to different physical
/// registers, wherever they are named, provided no register is named after its
/// kill. The ranges meet at position `n`: each register is named at or before
/// `n` and killed at or after it (or never).
pub proof fn lemma_live_registers_distinct(irs: Seq<IR>, n: int, i: int, a: int, j: int, b: int)
    requires
        forall|k: int| 0 <= k < irs.len() ==> ir_wf(#[trigger] irs[k]),
        no_use_after_kill(irs),
        allocate(irs, initial()) is Ok,
        n < irs.len(),
        0 <= i <= n,
        0 <= j <= n,
        operand(irs[i], a) is Some,
        operand(irs[j], b) is Some,
        operand(irs[i], a) != operand(irs[j], b),
        !killed_before(irs, n, operand(irs[i], a)->Some_0),
        !killed_before(irs, n, operand(irs[j], b)->Some_0),
    ensures
        operand(allocate(irs, initial())->Ok_0.0[i], a) != operand(allocate(irs, initial())->Ok_0.0[j], b),
{
    let v1 = operand(irs[i], a)->Some_0;
    let v2 = operand(irs[j], b)->Some_0;
    lemma_allocate_binds(irs, initial());
    assert(named_before(irs, n + 1, v1));
    assert(named_before(irs, n + 1, v2));
    lemma_live_distinct_at(irs, initial(), Set::empty(), n, v1, v2);
}

} // verus!

verus! {

proof fn lemma_bind_wf(s: RegState, v: usize)
    requires
        state_wf(s),
        bind(s, v) is Ok,
    ensures
        state_wf(bind(s, v)->Ok_0.0),
{
    if !s.map.contains_key(v) {
        lemma_lowest_free(s.used, 0);
        let s1 = bind(s, v)->Ok_0.0;
        assert forall|w: usize| #[trigger] s1.map.contains_key(w) implies s1.map[w] < REGISTER_COUNT by {
            if w != v {
                assert(s.map.contains_key(w));
            }
        }
    }
}

/// A successful pass from a well-formed state ends in a well-formed state.
proof fn lemma_allocate_wf(irs: Seq<IR>, s: RegState)
    requires
        state_wf(s),
        allocate(irs, s) is Ok,
    ensures
        state_wf(allocate(irs, s)->Ok_0.1),
    decreases irs.len(),
{
    if irs.len() > 0 {
        let ir = irs[0];
        if reads_lhs(ir.op) {
            lemma_bind_wf(s, ir.lhs->Some_0);
            let s1 = bind(s, ir.lhs->Some_0)->Ok_0.0;
            if reads_rhs(ir.op) {
                lemma_bind_wf(s1, ir.rhs->Some_0);
            } else if ir.op is Kill {
                lemma_bind(s, ir.lhs->Some_0);
                let s2 = rewrite(ir, s)->Ok_0.1;
                assert(s2.map == s1.map);
                assert(s2.used.len() == s1.used.len());
            }
        }
        assert(state_wf(rewrite(ir, s)->Ok_0.1));
        lemma_allocate_wf(irs.drop_first(), rewrite(ir, s)->Ok_0.1);
    }
}

/// A stream that kills nothing and names more distinct virtual registers than
/// there are physical registers cannot be allocated.
pub proof fn lemma_too_many_live_registers(irs: Seq<IR>, vs: Seq<usize>)
    requires
        forall|k: int| 0 <= k < irs.len() ==> ir_wf(#[trigger] irs[k]),
        forall|k: int| 0 <= k < irs.len() ==> (#[trigger] irs[k]).op != IROp::Kill,
        vs.no_duplicates(),
        vs.len() > REGISTER_COUNT,
        forall|i: int| 0 <= i < vs.len() ==> named_before(irs, irs.len() as int, #[trigger] vs[i]),
    ensures
        allocate(irs, initial()) is Err,
{
    if allocate(irs, initial()) is Ok {
        let m = allocate(irs, initial())->Ok_0.1.map;
        lemma_allocate_wf(irs, initial());
        assert forall|k: int, c: int|
            0 <= k < irs.len() && (#[trigger] operand(irs[k], c)) is Some implies !Set::<usize>::empty().contains(
                operand(irs[k], c)->Some_0,
            ) && !killed_before(irs, k, operand(irs[k], c)->Some_0) by {
        }
        assert forall|i: int| 0 <= i < vs.len() implies m.contains_key(#[trigger] vs[i]) && m[vs[i]] < REGISTER_COUNT by {
            lemma_allocate_binds(irs, initial());
            let (k, c) = choose|k: int, c: int| 0 <= k < irs.len() && #[trigger] operand(irs[k], c) == Some(vs[i]);
            assert(operand(irs[k], c) is Some);
        }
        let phys = vs.map_values(|v: usize| m[v] as int);
        assert forall|i: int, j: int| 0 <= i < phys.len() && 0 <= j < phys.len() && i != j implies phys[i] != phys[j] by {
            lemma_live_distinct(irs, initial(), Set::empty(), irs.len() as int, vs[i], vs[j]);
        }
        assert(phys.no_duplicates());
        phys.unique_seq_to_set();
        vstd::set_lib::lemma_int_range(0, REGISTER_COUNT as int);
        assert(phys.to_set().subset_of(vstd::set_lib::set_int_range(0, REGISTER_COUNT as int)));
        vstd::set_lib::lemma_len_subset(phys.to_set(), vstd::set_lib::set_int_range(0, REGISTER_COUNT as int));
    }
}

} // verus!
