//! Properties of generated code: where its labels are, where its jumps go,
//! and which temporary slots it touches.
use vstd::prelude::*;
use crate::assembly::{Code, Instr, Jump, Label, LabelKind, Line};
use crate::ast::{ExprV, Op2};
use crate::compiler::{
    fits, larger, lemma_max_locals_nonneg, max_locals_args, max_locals_binds,
    max_locals_block, push_args, select_code, spec_binop_code, spec_compile, spec_compile_args,
    spec_compile_binds, spec_compile_items, spec_max_locals, unop_code,
};

verus! {

/// The label that a line places, if any.
pub open spec fn placed_label(i: Instr<Seq<char>>) -> Option<Label> {
    match i {
        Instr::Place(t) => Some(t),
        _ => None,
    }
}

/// The label that a line jumps to, if any.
pub open spec fn jump_target(i: Instr<Seq<char>>) -> Option<Label> {
    match i {
        Instr::JumpTo(_, t) => Some(t),
        _ => None,
    }
}

/// The temporary slot (as a byte offset below `rbp`) that a line touches, if
/// any.
pub open spec fn temp_offset(i: Instr<Seq<char>>) -> Option<i32> {
    match i {
        Instr::SaveTemp(o) => Some(o),
        Instr::LoadTemp(o) => Some(o),
        Instr::OrTemp(o) => Some(o),
        Instr::AddTemp(o) => Some(o),
        Instr::LoadR9Temp(o) => Some(o),
        _ => None,
    }
}

/// The code places the label `t`.
pub open spec fn places(code: Code, t: Label) -> bool {
    exists|k: int| 0 <= k < code.len() && #[trigger] placed_label(code[k]) == Some(t)
}

/// The code jumps to the label `t`.
pub open spec fn targets(code: Code, t: Label) -> bool {
    exists|k: int| 0 <= k < code.len() && #[trigger] jump_target(code[k]) == Some(t)
}

/// The code touches the temporary at byte offset `o`.
pub open spec fn touches(code: Code, o: i32) -> bool {
    exists|k: int| 0 <= k < code.len() && #[trigger] temp_offset(code[k]) == Some(o)
}

/// The code places a label with the number `id`.
pub open spec fn numbered(code: Code, id: int) -> bool {
    exists|k: int| 0 <= k < code.len() && #[trigger] placed_label(code[k]) is Some && placed_label(code[k])->0.id == id
}

/// No two lines place labels with the same number (so no label is placed
/// twice).
pub open spec fn unique_labels(code: Code) -> bool {
    forall|a: int, b: int|
        0 <= a < code.len() && 0 <= b < code.len() && a != b && #[trigger] placed_label(code[a])
            is Some && #[trigger] placed_label(code[b]) is Some ==> placed_label(code[a])->0.id
            != placed_label(code[b])->0.id
}

/// A sound piece of generated code: the labels it places are numbered in
/// `[lo, hi)`, each number of that range placed by exactly one line; each
/// jump goes to a label that it places, or to `brk`; each temporary it
/// touches is a slot `s` with `tlo <= s <= thi`, at byte offset `8 * s` below
/// `rbp`.
pub open spec fn sound_code(code: Code, lo: int, hi: int, brk: Option<Label>, tlo: int, thi: int) -> bool {
    &&& forall|t: Label| #[trigger] places(code, t) ==> lo <= t.id < hi
    &&& forall|id: int| lo <= id < hi ==> #[trigger] numbered(code, id)
    &&& unique_labels(code)
    &&& forall|t: Label| #[trigger] targets(code, t) ==> places(code, t) || brk == Some(t)
    &&& forall|o: i32| #[trigger] touches(code, o) ==> 8 * tlo <= o <= 8 * thi && o % 8 == 0
}

/// What a concatenation places, jumps to and touches is what its parts do.
pub proof fn lemma_concat(x: Code, y: Code)
    ensures
        forall|t: Label| #[trigger] places(x + y, t) <==> places(x, t) || places(y, t),
        forall|t: Label| #[trigger] targets(x + y, t) <==> targets(x, t) || targets(y, t),
        forall|o: i32| #[trigger] touches(x + y, o) <==> touches(x, o) || touches(y, o),
        forall|id: int| #[trigger] numbered(x + y, id) <==> numbered(x, id) || numbered(y, id),
{
    let z = x + y;
    assert forall|id: int| #[trigger] numbered(z, id) <==> numbered(x, id) || numbered(y, id) by {
        if numbered(z, id) {
            let k = choose|k: int| 0 <= k < z.len() && #[trigger] placed_label(z[k]) is Some && placed_label(z[k])->0.id == id;
            if k < x.len() {
                assert(placed_label(x[k]) == placed_label(z[k]));
            } else {
                assert(placed_label(y[k - x.len()]) == placed_label(z[k]));
            }
        }
        if numbered(x, id) {
            let k = choose|k: int| 0 <= k < x.len() && #[trigger] placed_label(x[k]) is Some && placed_label(x[k])->0.id == id;
            assert(placed_label(z[k]) == placed_label(x[k]));
        }
        if numbered(y, id) {
            let k = choose|k: int| 0 <= k < y.len() && #[trigger] placed_label(y[k]) is Some && placed_label(y[k])->0.id == id;
            assert(placed_label(z[k + x.len()]) == placed_label(y[k]));
        }
    }
    assert forall|t: Label| #[trigger] places(z, t) <==> places(x, t) || places(y, t) by {
        if places(z, t) {
            let k = choose|k: int| 0 <= k < z.len() && #[trigger] placed_label(z[k]) == Some(t);
            if k < x.len() {
                assert(placed_label(x[k]) == Some(t));
            } else {
                assert(placed_label(y[k - x.len()]) == Some(t));
            }
        }
        if places(x, t) {
            let k = choose|k: int| 0 <= k < x.len() && #[trigger] placed_label(x[k]) == Some(t);
            assert(placed_label(z[k]) == Some(t));
        }
        if places(y, t) {
            let k = choose|k: int| 0 <= k < y.len() && #[trigger] placed_label(y[k]) == Some(t);
            assert(placed_label(z[k + x.len()]) == Some(t));
        }
    }
    assert forall|t: Label| #[trigger] targets(z, t) <==> targets(x, t) || targets(y, t) by {
        if targets(z, t) {
            let k = choose|k: int| 0 <= k < z.len() && #[trigger] jump_target(z[k]) == Some(t);
            if k < x.len() {
                assert(jump_target(x[k]) == Some(t));
            } else {
                assert(jump_target(y[k - x.len()]) == Some(t));
            }
        }
        if targets(x, t) {
            let k = choose|k: int| 0 <= k < x.len() && #[trigger] jump_target(x[k]) == Some(t);
            assert(jump_target(z[k]) == Some(t));
        }
        if targets(y, t) {
            let k = choose|k: int| 0 <= k < y.len() && #[trigger] jump_target(y[k]) == Some(t);
            assert(jump_target(z[k + x.len()]) == Some(t));
        }
    }
    assert forall|o: i32| #[trigger] touches(z, o) <==> touches(x, o) || touches(y, o) by {
        if touches(z, o) {
            let k = choose|k: int| 0 <= k < z.len() && #[trigger] temp_offset(z[k]) == Some(o);
            if k < x.len() {
                assert(temp_offset(x[k]) == Some(o));
            } else {
                assert(temp_offset(y[k - x.len()]) == Some(o));
            }
        }
        if touches(x, o) {
            let k = choose|k: int| 0 <= k < x.len() && #[trigger] temp_offset(x[k]) == Some(o);
            assert(temp_offset(z[k]) == Some(o));
        }
        if touches(y, o) {
            let k = choose|k: int| 0 <= k < y.len() && #[trigger] temp_offset(y[k]) == Some(o);
            assert(temp_offset(z[k + x.len()]) == Some(o));
        }
    }
}

/// Two pieces that place no label number in common, each placing every
/// number once, together place every number once.
pub proof fn lemma_concat_unique(x: Code, y: Code)
    requires
        unique_labels(x),
        unique_labels(y),
        forall|t: Label, u: Label| #[trigger] places(x, t) && #[trigger] places(y, u) ==> t.id != u.id,
    ensures
        unique_labels(x + y),
{
    let z = x + y;
    assert forall|a: int, b: int|
        0 <= a < z.len() && 0 <= b < z.len() && a != b && #[trigger] placed_label(z[a])
            is Some && #[trigger] placed_label(z[b]) is Some implies placed_label(z[a])->0.id
            != placed_label(z[b])->0.id by {
        let t = placed_label(z[a])->0;
        let u = placed_label(z[b])->0;
        if a < x.len() && b < x.len() {
            assert(placed_label(x[a]) == placed_label(z[a]));
            assert(placed_label(x[b]) == placed_label(z[b]));
        } else if a >= x.len() && b >= x.len() {
            assert(placed_label(y[a - x.len()]) == placed_label(z[a]));
            assert(placed_label(y[b - x.len()]) == placed_label(z[b]));
        } else if a < x.len() {
            assert(placed_label(x[a]) == Some(t));
            assert(places(x, t));
            assert(placed_label(y[b - x.len()]) == Some(u));
            assert(places(y, u));
        } else {
            assert(placed_label(y[a - x.len()]) == Some(t));
            assert(places(y, t));
            assert(placed_label(x[b]) == Some(u));
            assert(places(x, u));
        }
    }
}

/// Two sound pieces whose label ranges lie side by side make a sound piece,
/// over both ranges.
pub proof fn lemma_join(
    x: Code,
    y: Code,
    brk: Option<Label>,
    xlo: int,
    xhi: int,
    ylo: int,
    yhi: int,
    tlo: int,
    thi: int,
)
    requires
        sound_code(x, xlo, xhi, brk, tlo, thi),
        sound_code(y, ylo, yhi, brk, tlo, thi),
        xlo <= xhi,
        ylo <= yhi,
        xhi == ylo || yhi == xlo,
    ensures
        sound_code(
            x + y,
            if xlo <= ylo { xlo } else { ylo },
            if xhi >= yhi { xhi } else { yhi },
            brk,
            tlo,
            thi,
        ),
{
    lemma_concat(x, y);
    lemma_concat_unique(x, y);
}

/// A sound piece is sound for any wider range of temporaries.
pub proof fn lemma_widen(
    x: Code,
    brk: Option<Label>,
    lo: int,
    hi: int,
    tlo: int,
    thi: int,
    tlo2: int,
    thi2: int,
)
    requires
        sound_code(x, lo, hi, brk, tlo, thi),
        tlo2 <= tlo,
        thi <= thi2,
    ensures
        sound_code(x, lo, hi, brk, tlo2, thi2),
{
}

/// A piece with no labels and no jumps, whose temporaries are in range, is
/// sound.
pub proof fn lemma_plain(x: Code, lo: int, brk: Option<Label>, tlo: int, thi: int)
    requires
        forall|k: int| 0 <= k < x.len() ==> placed_label(#[trigger] x[k]) is None && jump_target(
            x[k],
        ) is None,
        forall|k: int|
            0 <= k < x.len() && #[trigger] temp_offset(x[k]) is Some ==> 8 * tlo <= temp_offset(
                x[k],
            ).unwrap() <= 8 * thi && temp_offset(x[k]).unwrap() % 8 == 0,
    ensures
        sound_code(x, lo, lo, brk, tlo, thi),
{
    assert forall|t: Label| !#[trigger] places(x, t) by {
        if places(x, t) {
            let k = choose|k: int| 0 <= k < x.len() && #[trigger] placed_label(x[k]) == Some(t);
            assert(placed_label(x[k]) is None);
        }
    }
    assert forall|t: Label| !#[trigger] targets(x, t) by {
        if targets(x, t) {
            let k = choose|k: int| 0 <= k < x.len() && #[trigger] jump_target(x[k]) == Some(t);
            assert(jump_target(x[k]) is None);
        }
    }
    assert forall|o: i32| #[trigger] touches(x, o) implies 8 * tlo <= o <= 8 * thi && o % 8 == 0 by {
        let k = choose|k: int| 0 <= k < x.len() && #[trigger] temp_offset(x[k]) == Some(o);
    }
}

/// The code of a binary operator, for a left operand at slot `s`, is sound:
/// its labels are the next two numbers.
pub proof fn lemma_binop_sound(op: Op2, o: i32, l: i32, brk: Option<Label>, s: int)
    requires
        o == 8 * s,
    ensures
        spec_binop_code(op, o, l) matches Ok((c, l2)) ==> l <= l2 && sound_code(
            c,
            l as int,
            l2 as int,
            brk,
            s,
            s,
        ),
{
    match spec_binop_code(op, o, l) {
        Ok((c, l2)) => {
            match op {
                Op2::Plus => lemma_plain(c, l as int, brk, s, s),
                Op2::Minus => lemma_plain(c, l as int, brk, s, s),
                Op2::Times => lemma_plain(c, l as int, brk, s, s),
                _ => {
                    let t = Label { kind: LabelKind::CmpTrue, id: l };
                    let end = Label { kind: LabelKind::CmpEnd, id: (l + 1) as i32 };
                    let front = c.subrange(0, c.len() - 5);
                    let back = select_code(t, end);
                    assert(c =~= front + back);
                    lemma_concat(front, back);
                    assert forall|k: int| 0 <= k < front.len() implies placed_label(#[trigger] front[k])
                        is None by {}
                    assert(unique_labels(front));
                    assert(unique_labels(back));
                    lemma_concat_unique(front, back);
                    assert(placed_label(back[2]) == Some(t));
                    assert(placed_label(back[4]) == Some(end));
                    assert(places(back, t));
                    assert(places(back, end));
                    assert forall|x: Label| #[trigger] places(front, x) implies false by {
                        let k = choose|k: int| 0 <= k < front.len() && #[trigger] placed_label(front[k]) == Some(x);
                    }
                    assert forall|x: Label| #[trigger] places(back, x) implies x == t || x == end by {}
                    assert forall|x: Label| #[trigger] targets(front, x) implies x == t by {
                        let k = choose|k: int| 0 <= k < front.len() && #[trigger] jump_target(front[k]) == Some(x);
                    }
                    assert forall|x: Label| #[trigger] targets(back, x) implies x == end by {}
                    assert forall|x: i32| #[trigger] touches(front, x) implies x == o by {
                        let k = choose|k: int| 0 <= k < front.len() && #[trigger] temp_offset(front[k]) == Some(x);
                    }
                    assert forall|x: i32| !#[trigger] touches(back, x) by {
                        if touches(back, x) {
                            let k = choose|k: int| 0 <= k < back.len() && #[trigger] temp_offset(back[k]) == Some(x);
                        }
                    }
                },
            }
        },
        Err(_) => {},
    }
}

/// The pushes of call arguments touch only the argument slots.
pub proof fn lemma_push_args(si: i32, n: nat, brk: Option<Label>, l: int)
    requires
        n > 0 ==> fits(si * 8) && fits((si + n - 1) * 8),
    ensures
        sound_code(push_args(si, n), l, l, brk, si as int, si + n - 1),
    decreases n,
{
    if n > 0 {
        let head = seq![Instr::LoadTemp(((si + n - 1) * 8) as i32), Instr::Fixed(Line::PushRax)];
        lemma_plain(head, l, brk, si as int, si + n - 1);
        if n > 1 {
            assert(fits((si + (n - 1) - 1) * 8));
        }
        lemma_push_args(si, (n - 1) as nat, brk, l);
        lemma_widen(push_args(si, (n - 1) as nat), brk, l, l, si as int, si + n - 2, si as int, si + n - 1);
        lemma_join(head, push_args(si, (n - 1) as nat), brk, l, l, l, l, si as int, si + n - 1);
    } else {
        lemma_plain(push_args(si, n), l, brk, si as int, si as int);
    }
}

/// The code of an expression is sound: its labels are numbered from the
/// counter it starts with up to the one it returns, each placed once; every
/// jump lands on a label that it places or on the `break` target; and it
/// touches only the temporaries from `si` to `si + spec_max_locals(e)`.
pub proof fn lemma_compile_sound(
    e: ExprV,
    env: Map<Seq<char>, i32>,
    funs: Map<Seq<char>, usize>,
    si: i32,
    l: i32,
    brk: Option<Label>,
)
    ensures
        spec_compile(e, env, funs, si, l, brk) matches Ok((code, l2)) ==> l <= l2 && sound_code(
            code,
            l as int,
            l2 as int,
            brk,
            si as int,
            si + spec_max_locals(e),
        ),
    decreases e, 1nat,
{
    lemma_max_locals_nonneg(e);
    match spec_compile(e, env, funs, si, l, brk) {
        Err(_) => {},
        Ok((code, l2)) => {
            match e {
                ExprV::UnOp(op, x) => lemma_unop_sound(e, env, funs, si, l, brk),
                ExprV::BinOp(op, x, y) => lemma_binop_expr_sound(e, env, funs, si, l, brk),
                ExprV::Let(bs, body) => lemma_let_sound(e, env, funs, si, l, brk),
                ExprV::If(c, t, f) => lemma_if_sound(e, env, funs, si, l, brk),
                ExprV::Block(es) => lemma_block_sound(e, env, funs, si, l, brk),
                ExprV::Loop(body) => lemma_loop_sound(e, env, funs, si, l, brk),
                ExprV::Break(x) => lemma_break_sound(e, env, funs, si, l, brk),
                ExprV::Assign(name, x) => lemma_assign_sound(e, env, funs, si, l, brk),
                ExprV::Call(name, args) => lemma_call_sound(e, env, funs, si, l, brk),
                _ => {
                    lemma_plain(code, l as int, brk, si as int, si as int);
                },
            }
        },
    }
}

/// [`lemma_compile_sound`] for a unary operation.
proof fn lemma_unop_sound(
    e: ExprV,
    env: Map<Seq<char>, i32>,
    funs: Map<Seq<char>, usize>,
    si: i32,
    l: i32,
    brk: Option<Label>,
)
    requires
        e is UnOp,
        spec_compile(e, env, funs, si, l, brk) is Ok,
    ensures
        ({
            let (code, l2) = spec_compile(e, env, funs, si, l, brk)->Ok_0;
            l <= l2 && sound_code(code, l as int, l2 as int, brk, si as int, si + spec_max_locals(e))
        }),
    decreases e, 0nat,
{
    lemma_max_locals_nonneg(e);
    let (code, l2) = spec_compile(e, env, funs, si, l, brk)->Ok_0;
    match e {
        ExprV::UnOp(op, x) => {
            lemma_compile_sound(*x, env, funs, si, l, brk);
            let (c, l1) = spec_compile(*x, env, funs, si, l, brk)->Ok_0;
            lemma_plain(unop_code(op), l1 as int, brk, si as int, si + spec_max_locals(*x));
            lemma_join(c, unop_code(op), brk, l as int, l1 as int, l1 as int, l1 as int, si as int, si + spec_max_locals(*x));
        },
        _ => {},
    }
}

/// [`lemma_compile_sound`] for a binary operation.
proof fn lemma_binop_expr_sound(
    e: ExprV,
    env: Map<Seq<char>, i32>,
    funs: Map<Seq<char>, usize>,
    si: i32,
    l: i32,
    brk: Option<Label>,
)
    requires
        e is BinOp,
        spec_compile(e, env, funs, si, l, brk) is Ok,
    ensures
        ({
            let (code, l2) = spec_compile(e, env, funs, si, l, brk)->Ok_0;
            l <= l2 && sound_code(code, l as int, l2 as int, brk, si as int, si + spec_max_locals(e))
        }),
    decreases e, 0nat,
{
    lemma_max_locals_nonneg(e);
    let (code, l2) = spec_compile(e, env, funs, si, l, brk)->Ok_0;
    match e {
        ExprV::BinOp(op, x, y) => {
            let m = spec_max_locals(e);
            lemma_max_locals_nonneg(*x);
            lemma_max_locals_nonneg(*y);
            lemma_compile_sound(*x, env, funs, si, l, brk);
            let (c1, l1) = spec_compile(*x, env, funs, si, l, brk)->Ok_0;
            let o = (si * 8) as i32;
            lemma_compile_sound(*y, env, funs, (si + 1) as i32, l1, brk);
            let (c2, l2b) = spec_compile(*y, env, funs, (si + 1) as i32, l1, brk)->Ok_0;
            lemma_binop_sound(op, o, l2b, brk, si as int);
            let (c3, l3) = spec_binop_code(op, o, l2b)->Ok_0;
            let save = seq![Instr::SaveTemp(o)];
            lemma_plain(save, l1 as int, brk, si as int, si + m);
            lemma_widen(c1, brk, l as int, l1 as int, si as int, si + spec_max_locals(*x), si as int, si + m);
            lemma_widen(c2, brk, l1 as int, l2b as int, si + 1, si + 1 + spec_max_locals(*y), si as int, si + m);
            lemma_widen(c3, brk, l2b as int, l3 as int, si as int, si as int, si as int, si + m);
            lemma_join(c1, save, brk, l as int, l1 as int, l1 as int, l1 as int, si as int, si + m);
            lemma_join(c1 + save, c2, brk, l as int, l1 as int, l1 as int, l2b as int, si as int, si + m);
            lemma_join(c1 + save + c2, c3, brk, l as int, l2b as int, l2b as int, l3 as int, si as int, si + m);
        },
        _ => {},
    }
}

/// [`lemma_compile_sound`] for a `let`.
proof fn lemma_let_sound(
    e: ExprV,
    env: Map<Seq<char>, i32>,
    funs: Map<Seq<char>, usize>,
    si: i32,
    l: i32,
    brk: Option<Label>,
)
    requires
        e is Let,
        spec_compile(e, env, funs, si, l, brk) is Ok,
    ensures
        ({
            let (code, l2) = spec_compile(e, env, funs, si, l, brk)->Ok_0;
            l <= l2 && sound_code(code, l as int, l2 as int, brk, si as int, si + spec_max_locals(e))
        }),
    decreases e, 0nat,
{
    lemma_max_locals_nonneg(e);
    let (code, l2) = spec_compile(e, env, funs, si, l, brk)->Ok_0;
    match e {
        ExprV::Let(bs, body) => {
            let m = spec_max_locals(e);
            lemma_max_locals_nonneg(*body);
            lemma_binds_sound(bs, env, funs, si, l, brk, Seq::empty(), 0);
            let (c1, env1, si1, l1) = spec_compile_binds(bs, env, funs, si, l, brk, Seq::empty())->Ok_0;
            lemma_compile_sound(*body, env1, funs, si1, l1, brk);
            let (c2, l2b) = spec_compile(*body, env1, funs, si1, l1, brk)->Ok_0;
            lemma_widen(c1, brk, l as int, l1 as int, si as int, si + larger(max_locals_binds(bs, 0), bs.len() - 1), si as int, si + m);
            lemma_widen(c2, brk, l1 as int, l2b as int, si1 as int, si1 + spec_max_locals(*body), si as int, si + m);
            lemma_join(c1, c2, brk, l as int, l1 as int, l1 as int, l2b as int, si as int, si + m);
        },
        _ => {},
    }
}

/// [`lemma_compile_sound`] for an `if`.
proof fn lemma_if_sound(
    e: ExprV,
    env: Map<Seq<char>, i32>,
    funs: Map<Seq<char>, usize>,
    si: i32,
    l: i32,
    brk: Option<Label>,
)
    requires
        e is If,
        spec_compile(e, env, funs, si, l, brk) is Ok,
    ensures
        ({
            let (code, l2) = spec_compile(e, env, funs, si, l, brk)->Ok_0;
            l <= l2 && sound_code(code, l as int, l2 as int, brk, si as int, si + spec_max_locals(e))
        }),
    decreases e, 0nat,
{
    lemma_max_locals_nonneg(e);
    let (code, l2) = spec_compile(e, env, funs, si, l, brk)->Ok_0;
    match e {
        ExprV::If(c, t, f) => {
            let m = spec_max_locals(e);
            lemma_max_locals_nonneg(*c);
            lemma_max_locals_nonneg(*t);
            lemma_max_locals_nonneg(*f);
            let els = Label { kind: LabelKind::IfElse, id: l };
            let end = Label { kind: LabelKind::IfEnd, id: (l + 1) as i32 };
            lemma_compile_sound(*c, env, funs, si, (l + 2) as i32, brk);
            let (cc, l1) = spec_compile(*c, env, funs, si, (l + 2) as i32, brk)->Ok_0;
            lemma_compile_sound(*t, env, funs, si, l1, brk);
            let (ct, l2b) = spec_compile(*t, env, funs, si, l1, brk)->Ok_0;
            lemma_compile_sound(*f, env, funs, si, l2b, brk);
            let (cf, l3) = spec_compile(*f, env, funs, si, l2b, brk)->Ok_0;
            let a = seq![Instr::Fixed(Line::CmpRax1), Instr::JumpTo(Jump::Je, els)];
            let b = seq![Instr::JumpTo(Jump::Jmp, end), Instr::Place(els)];
            let z = seq![Instr::Place(end)];
            let w1 = cc + a;
            let w2 = w1 + ct;
            let w3 = w2 + b;
            let w4 = w3 + cf;
            let w5 = w4 + z;
            assert(code == w5);
            lemma_concat(cc, a);
            lemma_concat(w1, ct);
            lemma_concat(w2, b);
            lemma_concat(w3, cf);
            lemma_concat(w4, z);
            assert(unique_labels(a));
            assert(unique_labels(b));
            assert(unique_labels(z));
            lemma_concat_unique(cc, a);
            lemma_concat_unique(w1, ct);
            lemma_concat_unique(w2, b);
            lemma_concat_unique(w3, cf);
            lemma_concat_unique(w4, z);
            assert(placed_label(b[1]) == Some(els));
            assert(placed_label(z[0]) == Some(end));
            assert(places(b, els));
            assert(places(z, end));
            assert(sound_code(code, l as int, l3 as int, brk, si as int, si + m));
        },
        _ => {},
    }
}

/// [`lemma_compile_sound`] for a block.
proof fn lemma_block_sound(
    e: ExprV,
    env: Map<Seq<char>, i32>,
    funs: Map<Seq<char>, usize>,
    si: i32,
    l: i32,
    brk: Option<Label>,
)
    requires
        e is Block,
        spec_compile(e, env, funs, si, l, brk) is Ok,
    ensures
        ({
            let (code, l2) = spec_compile(e, env, funs, si, l, brk)->Ok_0;
            l <= l2 && sound_code(code, l as int, l2 as int, brk, si as int, si + spec_max_locals(e))
        }),
    decreases e, 0nat,
{
    lemma_max_locals_nonneg(e);
    let (code, l2) = spec_compile(e, env, funs, si, l, brk)->Ok_0;
    match e {
        ExprV::Block(es) => {
            if es.len() == 0 {
                lemma_plain(code, l as int, brk, si as int, si as int);
            } else {
                lemma_items_sound(es, env, funs, si, l, brk);
            }
        },
        _ => {},
    }
}

/// [`lemma_compile_sound`] for a loop.
proof fn lemma_loop_sound(
    e: ExprV,
    env: Map<Seq<char>, i32>,
    funs: Map<Seq<char>, usize>,
    si: i32,
    l: i32,
    brk: Option<Label>,
)
    requires
        e is Loop,
        spec_compile(e, env, funs, si, l, brk) is Ok,
    ensures
        ({
            let (code, l2) = spec_compile(e, env, funs, si, l, brk)->Ok_0;
            l <= l2 && sound_code(code, l as int, l2 as int, brk, si as int, si + spec_max_locals(e))
        }),
    decreases e, 0nat,
{
    lemma_max_locals_nonneg(e);
    let (code, l2) = spec_compile(e, env, funs, si, l, brk)->Ok_0;
    match e {
        ExprV::Loop(body) => {
            let m = spec_max_locals(e);
            let start = Label { kind: LabelKind::LoopStart, id: l };
            let end = Label { kind: LabelKind::LoopEnd, id: (l + 1) as i32 };
            lemma_compile_sound(*body, env, funs, si, (l + 2) as i32, Some(end));
            let (cb, l1) = spec_compile(*body, env, funs, si, (l + 2) as i32, Some(end))->Ok_0;
            let a = seq![Instr::Place(start)];
            let b = seq![Instr::JumpTo(Jump::Jmp, start), Instr::Place(end)];
            assert(code == a + cb + b);
            lemma_concat(a, cb);
            lemma_concat(a + cb, b);
            assert(unique_labels(a));
            assert(unique_labels(b));
            lemma_concat_unique(a, cb);
            lemma_concat_unique(a + cb, b);
            assert(placed_label(a[0]) == Some(start));
            assert(placed_label(b[1]) == Some(end));
            assert(places(a, start));
            assert(places(b, end));
            assert(sound_code(code, l as int, l1 as int, brk, si as int, si + m));
        },
        _ => {},
    }
}

/// [`lemma_compile_sound`] for a `break`.
proof fn lemma_break_sound(
    e: ExprV,
    env: Map<Seq<char>, i32>,
    funs: Map<Seq<char>, usize>,
    si: i32,
    l: i32,
    brk: Option<Label>,
)
    requires
        e is Break,
        spec_compile(e, env, funs, si, l, brk) is Ok,
    ensures
        ({
            let (code, l2) = spec_compile(e, env, funs, si, l, brk)->Ok_0;
            l <= l2 && sound_code(code, l as int, l2 as int, brk, si as int, si + spec_max_locals(e))
        }),
    decreases e, 0nat,
{
    lemma_max_locals_nonneg(e);
    let (code, l2) = spec_compile(e, env, funs, si, l, brk)->Ok_0;
    match e {
        ExprV::Break(x) => {
            let target = brk.unwrap();
            lemma_compile_sound(*x, env, funs, si, l, brk);
            let (c, l1) = spec_compile(*x, env, funs, si, l, brk)->Ok_0;
            let b = seq![Instr::JumpTo(Jump::Jmp, target)];
            lemma_concat(c, b);
            assert(unique_labels(b));
            lemma_concat_unique(c, b);
            assert(sound_code(code, l as int, l1 as int, brk, si as int, si + spec_max_locals(e)));
        },
        _ => {},
    }
}

/// [`lemma_compile_sound`] for an assignment.
proof fn lemma_assign_sound(
    e: ExprV,
    env: Map<Seq<char>, i32>,
    funs: Map<Seq<char>, usize>,
    si: i32,
    l: i32,
    brk: Option<Label>,
)
    requires
        e is Assign,
        spec_compile(e, env, funs, si, l, brk) is Ok,
    ensures
        ({
            let (code, l2) = spec_compile(e, env, funs, si, l, brk)->Ok_0;
            l <= l2 && sound_code(code, l as int, l2 as int, brk, si as int, si + spec_max_locals(e))
        }),
    decreases e, 0nat,
{
    lemma_max_locals_nonneg(e);
    let (code, l2) = spec_compile(e, env, funs, si, l, brk)->Ok_0;
    match e {
        ExprV::Assign(name, x) => {
            lemma_compile_sound(*x, env, funs, si, l, brk);
            let (c, l1) = spec_compile(*x, env, funs, si, l, brk)->Ok_0;
            let b = seq![Instr::StoreVar(env[name])];
            lemma_plain(b, l1 as int, brk, si as int, si + spec_max_locals(*x));
            lemma_join(c, b, brk, l as int, l1 as int, l1 as int, l1 as int, si as int, si + spec_max_locals(*x));
        },
        _ => {},
    }
}

/// [`lemma_compile_sound`] for a call.
proof fn lemma_call_sound(
    e: ExprV,
    env: Map<Seq<char>, i32>,
    funs: Map<Seq<char>, usize>,
    si: i32,
    l: i32,
    brk: Option<Label>,
)
    requires
        e is Call,
        spec_compile(e, env, funs, si, l, brk) is Ok,
    ensures
        ({
            let (code, l2) = spec_compile(e, env, funs, si, l, brk)->Ok_0;
            l <= l2 && sound_code(code, l as int, l2 as int, brk, si as int, si + spec_max_locals(e))
        }),
    decreases e, 0nat,
{
    lemma_max_locals_nonneg(e);
    let (code, l2) = spec_compile(e, env, funs, si, l, brk)->Ok_0;
    match e {
        ExprV::Call(name, args) => {
            let m = spec_max_locals(e);
            let n = args.len();
            lemma_args_sound(args, env, funs, si, l, brk, 0);
            lemma_args_at_least(args, 0);
            let (c, l1) = spec_compile_args(args, env, funs, si, l, brk)->Ok_0;
            let align: int = if n % 2 != 0 { 8 } else { 0 };
            let cleanup = n * 8 + align;
            let pa = (if align != 0 {
                seq![Instr::SubRsp(8)]
            } else {
                Seq::empty()
            });
            let pc = seq![Instr::CallFun(name)] + (if cleanup != 0 {
                seq![Instr::AddRsp(cleanup as u64)]
            } else {
                Seq::empty()
            });
            lemma_plain(pa, l1 as int, brk, si as int, si + m);
            lemma_plain(pc, l1 as int, brk, si as int, si + m);
            lemma_push_args(si, n, brk, l1 as int);
            lemma_widen(push_args(si, n), brk, l1 as int, l1 as int, si as int, si + n - 1, si as int, si + m);
            lemma_widen(c, brk, l as int, l1 as int, si as int, si + larger(max_locals_args(args, 0), n - 1), si as int, si + m);
            lemma_join(c, pa, brk, l as int, l1 as int, l1 as int, l1 as int, si as int, si + m);
            lemma_join(c + pa, push_args(si, n), brk, l as int, l1 as int, l1 as int, l1 as int, si as int, si + m);
            lemma_join(c + pa + push_args(si, n), pc, brk, l as int, l1 as int, l1 as int, l1 as int, si as int, si + m);
            assert(code =~= c + pa + push_args(si, n) + pc);
        },
        _ => {},
    }
}

/// `max_locals_args(args, k)` is at least `k + args.len() - 1`.
pub proof fn lemma_args_at_least(args: Seq<ExprV>, k: int)
    ensures
        args.len() > 0 ==> max_locals_args(args, k) >= k + args.len() - 1,
    decreases args.len(),
{
    if args.len() > 0 {
        lemma_max_locals_nonneg(args[0]);
        lemma_args_at_least(args.drop_first(), k + 1);
    }
}

/// The code of the bindings of a `let` is sound (see
/// [`lemma_compile_sound`]); the bindings take one slot each from `si`.
/// `k` is the number of bindings before `bs` in the same `let`.
pub proof fn lemma_binds_sound(
    bs: Seq<(Seq<char>, ExprV)>,
    env: Map<Seq<char>, i32>,
    funs: Map<Seq<char>, usize>,
    si: i32,
    l: i32,
    brk: Option<Label>,
    seen: Seq<Seq<char>>,
    k: int,
)
    ensures
        spec_compile_binds(bs, env, funs, si, l, brk, seen) matches Ok((c, env2, si2, l2)) ==> l
            <= l2 && si2 == si + bs.len() && sound_code(
            c,
            l as int,
            l2 as int,
            brk,
            si as int,
            si - k + larger(max_locals_binds(bs, k), k + bs.len() - 1),
        ),
    decreases bs, 2nat,
{
    match spec_compile_binds(bs, env, funs, si, l, brk, seen) {
        Err(_) => {},
        Ok((code, env2, si2, l2)) => {
            if bs.len() == 0 {
                lemma_plain(code, l as int, brk, si as int, si as int);
            } else {
                let name = bs[0].0;
                let hi = si - k + larger(max_locals_binds(bs, k), k + bs.len() - 1);
                lemma_compile_sound(bs[0].1, env, funs, si, l, brk);
                let (c, l1) = spec_compile(bs[0].1, env, funs, si, l, brk)->Ok_0;
                let o = (si * 8) as i32;
                lemma_binds_sound(
                    bs.drop_first(),
                    env.insert(name, (-o) as i32),
                    funs,
                    (si + 1) as i32,
                    l1,
                    brk,
                    seen.push(name),
                    k + 1,
                );
                let (rest, e3, s3, l3) = spec_compile_binds(
                    bs.drop_first(),
                    env.insert(name, (-o) as i32),
                    funs,
                    (si + 1) as i32,
                    l1,
                    brk,
                    seen.push(name),
                )->Ok_0;
                let save = seq![Instr::SaveTemp(o)];
                lemma_plain(save, l1 as int, brk, si as int, hi);
                lemma_widen(c, brk, l as int, l1 as int, si as int, si + spec_max_locals(bs[0].1), si as int, hi);
                lemma_widen(rest, brk, l1 as int, l3 as int, si + 1, si + 1 - (k + 1) + larger(max_locals_binds(bs.drop_first(), k + 1), k + 1 + bs.len() - 1 - 1), si as int, hi);
                lemma_join(c, save, brk, l as int, l1 as int, l1 as int, l1 as int, si as int, hi);
                lemma_join(c + save, rest, brk, l as int, l1 as int, l1 as int, l3 as int, si as int, hi);
            }
        },
    }
}

/// The code of the expressions of a block is sound (see
/// [`lemma_compile_sound`]).
pub proof fn lemma_items_sound(
    es: Seq<ExprV>,
    env: Map<Seq<char>, i32>,
    funs: Map<Seq<char>, usize>,
    si: i32,
    l: i32,
    brk: Option<Label>,
)
    ensures
        spec_compile_items(es, env, funs, si, l, brk) matches Ok((c, l2)) ==> l <= l2 && sound_code(
            c,
            l as int,
            l2 as int,
            brk,
            si as int,
            si + max_locals_block(es),
        ),
    decreases es, 2nat,
{
    match spec_compile_items(es, env, funs, si, l, brk) {
        Err(_) => {},
        Ok((code, l2)) => {
            if es.len() == 0 {
                lemma_plain(code, l as int, brk, si as int, si as int);
            } else {
                let hi = si + max_locals_block(es);
                lemma_compile_sound(es[0], env, funs, si, l, brk);
                let (c, l1) = spec_compile(es[0], env, funs, si, l, brk)->Ok_0;
                lemma_items_sound(es.drop_first(), env, funs, si, l1, brk);
                let (rest, l3) = spec_compile_items(es.drop_first(), env, funs, si, l1, brk)->Ok_0;
                lemma_widen(c, brk, l as int, l1 as int, si as int, si + spec_max_locals(es[0]), si as int, hi);
                lemma_widen(rest, brk, l1 as int, l3 as int, si as int, si + max_locals_block(es.drop_first()), si as int, hi);
                lemma_join(c, rest, brk, l as int, l1 as int, l1 as int, l3 as int, si as int, hi);
            }
        },
    }
}

/// The code of the arguments of a call is sound (see
/// [`lemma_compile_sound`]); the arguments take one slot each from `si`.
/// `k` is the number of arguments before `args` in the same call.
pub proof fn lemma_args_sound(
    args: Seq<ExprV>,
    env: Map<Seq<char>, i32>,
    funs: Map<Seq<char>, usize>,
    si: i32,
    l: i32,
    brk: Option<Label>,
    k: int,
)
    ensures
        spec_compile_args(args, env, funs, si, l, brk) matches Ok((c, l2)) ==> l <= l2 && (args.len()
            > 0 ==> fits(si * 8) && fits((si + args.len() - 1) * 8)) && sound_code(
            c,
            l as int,
            l2 as int,
            brk,
            si as int,
            si - k + larger(max_locals_args(args, k), k + args.len() - 1),
        ),
    decreases args, 2nat,
{
    match spec_compile_args(args, env, funs, si, l, brk) {
        Err(_) => {},
        Ok((code, l2)) => {
            if args.len() == 0 {
                lemma_plain(code, l as int, brk, si as int, si as int);
            } else {
                let hi = si - k + larger(max_locals_args(args, k), k + args.len() - 1);
                lemma_compile_sound(args[0], env, funs, si, l, brk);
                let (c, l1) = spec_compile(args[0], env, funs, si, l, brk)->Ok_0;
                let o = (si * 8) as i32;
                lemma_args_sound(args.drop_first(), env, funs, (si + 1) as i32, l1, brk, k + 1);
                let (rest, l3) = spec_compile_args(args.drop_first(), env, funs, (si + 1) as i32, l1, brk)->Ok_0;
                let save = seq![Instr::SaveTemp(o)];
                lemma_plain(save, l1 as int, brk, si as int, hi);
                lemma_widen(c, brk, l as int, l1 as int, si as int, si + spec_max_locals(args[0]), si as int, hi);
                lemma_widen(rest, brk, l1 as int, l3 as int, si + 1, si + 1 - (k + 1) + larger(max_locals_args(args.drop_first(), k + 1), k + 1 + args.len() - 1 - 1), si as int, hi);
                lemma_join(c, save, brk, l as int, l1 as int, l1 as int, l1 as int, si as int, hi);
                lemma_join(c + save, rest, brk, l as int, l1 as int, l1 as int, l3 as int, si as int, hi);
            }
        },
    }
}

} // verus!
