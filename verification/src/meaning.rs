//! What the emitted code does, on a small model of the machine: the
//! registers and temporary slots that the arithmetic, type tests,
//! comparisons and conditionals of the compiled code use. The model follows each line's x86-64 meaning; the
//! checks that jump to `invalid_argument_error` or `overflow_error` are
//! taken not to jump (the operands are numbers and nothing overflows), and a
//! comparison's jump is read off the operands of the last `cmp`.
use vstd::prelude::*;
use vstd::string::*;
use crate::assembly::{instr_text, label_text, line_text, Code, Instr, Jump, Label, Line};
use crate::text::decimal;
use crate::ast::{ExprV, Op1, Op2};
use crate::compiler::{push_args, spec_compile, spec_compile_binds, spec_param_slots};
use crate::error::Fault;
use crate::laws::law_boolean_round_trip;
use crate::runtime::spec_value_text;
use crate::props::{lemma_compile_sound, touches};

verus! {

/// The part of the machine that the code of an operator reads and writes:
/// `rax`, `r8`, `r9`, the two operands of the last `cmp`, and the temporary
/// slots by their byte offset below `rbp`.
pub struct Machine {
    pub rax: int,
    pub r8: int,
    pub r9: int,
    pub last_left: int,
    pub last_right: int,
    pub temps: Map<int, int>,
}

/// A byte offset as an integer.
pub open spec fn slot(o: i32) -> int {
    o as int
}

/// A 64-bit immediate as an integer.
pub open spec fn wide(n: i64) -> int {
    n as int
}

/// The machine after one line.
pub open spec fn step(i: Instr<Seq<char>>, m: Machine) -> Machine {
    match i {
        Instr::MovRaxImm(n) => Machine { rax: wide(n), ..m },
        Instr::SaveTemp(o) => Machine { temps: m.temps.insert(slot(o), m.rax), ..m },
        Instr::LoadTemp(o) => Machine { rax: m.temps[slot(o)], ..m },
        Instr::AddTemp(o) => Machine { rax: m.rax + m.temps[slot(o)], ..m },
        Instr::LoadR9Temp(o) => Machine { r9: m.temps[slot(o)], ..m },
        Instr::Fixed(Line::MovR8Rax) => Machine { r8: m.rax, ..m },
        Instr::Fixed(Line::AddRax2) => Machine { rax: m.rax + 2, ..m },
        Instr::Fixed(Line::SubRax2) => Machine { rax: m.rax - 2, ..m },
        Instr::Fixed(Line::ImulRaxMinus1) => Machine { rax: m.rax * -1, ..m },
        Instr::Fixed(Line::SubRaxR8) => Machine { rax: m.rax - m.r8, ..m },
        Instr::Fixed(Line::SarRax1) => Machine { rax: m.rax / 2, ..m },
        Instr::Fixed(Line::ImulRaxR8) => Machine { rax: m.rax * m.r8, ..m },
        Instr::Fixed(Line::CmpRaxR8) => Machine { last_left: m.rax, last_right: m.r8, ..m },
        Instr::Fixed(Line::CmpR9R8) => Machine { last_left: m.r9, last_right: m.r8, ..m },
        Instr::Fixed(Line::CmpRax1) => Machine { last_left: m.rax, last_right: 1, ..m },
        Instr::Fixed(Line::AndRax1) => Machine { rax: m.rax % 2, ..m },
        Instr::Fixed(Line::ShlRax1) => Machine { rax: m.rax * 2, ..m },
        Instr::Fixed(Line::XorRax3) => Machine { rax: m.rax - m.rax % 4 + (3 - m.rax % 4), ..m },
        Instr::Fixed(Line::AddRax1) => Machine { rax: m.rax + 1, ..m },
        _ => m,
    }
}

/// The machine after straight-line code, one line after the other.
pub open spec fn run(code: Code, m: Machine) -> Machine
    decreases code.len(),
{
    if code.len() == 0 {
        m
    } else {
        run(code.drop_first(), step(code[0], m))
    }
}

/// Whether a conditional jump is taken after `cmp left, right`.
pub open spec fn jump_taken(j: Jump, left: int, right: int) -> bool {
    match j {
        Jump::Je => left == right,
        Jump::Jl => left < right,
        Jump::Jg => left > right,
        Jump::Jle => left <= right,
        Jump::Jge => left >= right,
        Jump::Jmp => true,
    }
}

/// The machine with `rax` holding `right` and the temporary at `o` holding
/// `left`, other values as in `m`.
pub open spec fn operands(m: Machine, o: i32, left: int, right: int) -> Machine {
    Machine { rax: right, temps: m.temps.insert(slot(o), left), ..m }
}

proof fn lemma_run_concat(x: Code, y: Code, m: Machine)
    ensures
        run(x + y, m) == run(y, run(x, m)),
    decreases x.len(),
{
    if x.len() > 0 {
        assert((x + y).drop_first() =~= x.drop_first() + y);
        lemma_run_concat(x.drop_first(), y, step(x[0], m));
    } else {
        assert(x + y =~= y);
    }
}

/// Whether the relation of a comparison operator holds between its left and
/// right operand.
pub open spec fn relation_holds(op: Op2, left: int, right: int) -> bool {
    match op {
        Op2::Less => left < right,
        Op2::Greater => left > right,
        Op2::LessEq => left <= right,
        Op2::GreaterEq => left >= right,
        Op2::Equal => left == right,
        _ => false,
    }
}

/// Whether a binary operator is arithmetic (`+`, `-`, `*`).
pub open spec fn arithmetic(op: Op2) -> bool {
    op == Op2::Plus || op == Op2::Minus || op == Op2::Times
}

/// Law: `add1`, `sub1` and `negate` compile to the operand's code followed by
/// code that, with a number `n` (tagged `2 * n`) in `rax`, leaves `n + 1`,
/// `n - 1` and `-n` (tagged) in `rax`.
pub proof fn law_unary_arithmetic(
    op: Op1,
    x: ExprV,
    env: Map<Seq<char>, i32>,
    funs: Map<Seq<char>, usize>,
    si: i32,
    l: i32,
    brk: Option<Label>,
    m: Machine,
    n: int,
)
    ensures
        spec_compile(ExprV::UnOp(op, Box::new(x)), env, funs, si, l, brk) matches Ok((code, l2)) ==> {
            let cx = spec_compile(x, env, funs, si, l, brk)->Ok_0.0;
            let out = run(code.skip(cx.len() as int), Machine { rax: 2 * n, ..m }).rax;
            &&& code.take(cx.len() as int) == cx
            &&& op == Op1::Add1 ==> out == 2 * (n + 1)
            &&& op == Op1::Sub1 ==> out == 2 * (n - 1)
            &&& op == Op1::Negate ==> out == 2 * -n
        },
{
    match spec_compile(ExprV::UnOp(op, Box::new(x)), env, funs, si, l, brk) {
        Ok((code, l2)) => {
            let cx = spec_compile(x, env, funs, si, l, brk)->Ok_0.0;
            let tail = code.skip(cx.len() as int);
            assert(code.take(cx.len() as int) =~= cx);
            reveal_with_fuel(run, 7);
            if op == Op1::Add1 || op == Op1::Sub1 || op == Op1::Negate {
                assert(tail.len() == 6);
                assert(tail.drop_first().drop_first().drop_first().drop_first().drop_first().drop_first()
                    =~= Seq::<Instr<Seq<char>>>::empty());
            }
        },
        Err(_) => {},
    }
}

/// The code of a binary operation `(op x y)`, split at the operands: the
/// left operand's code, the line that saves it, the right operand's code,
/// and the operator's own code after them.
pub open spec fn operator_tail(
    op: Op2,
    x: ExprV,
    y: ExprV,
    env: Map<Seq<char>, i32>,
    funs: Map<Seq<char>, usize>,
    si: i32,
    l: i32,
    brk: Option<Label>,
) -> Code {
    let code = spec_compile(ExprV::BinOp(op, Box::new(x), Box::new(y)), env, funs, si, l, brk)->Ok_0.0;
    let cx = spec_compile(x, env, funs, si, l, brk)->Ok_0;
    let cy = spec_compile(y, env, funs, (si + 1) as i32, cx.1, brk)->Ok_0.0;
    code.skip(cx.0.len() + 1 + cy.len() as int)
}

/// The left operand of `(op x y)` is saved at slot `si` before the right
/// operand's code, which never touches that slot, runs; the rest of the code
/// is the operator's own.
proof fn lemma_operands_kept(
    op: Op2,
    x: ExprV,
    y: ExprV,
    env: Map<Seq<char>, i32>,
    funs: Map<Seq<char>, usize>,
    si: i32,
    l: i32,
    brk: Option<Label>,
)
    requires
        spec_compile(ExprV::BinOp(op, Box::new(x), Box::new(y)), env, funs, si, l, brk) is Ok,
    ensures
        ({
            let code = spec_compile(ExprV::BinOp(op, Box::new(x), Box::new(y)), env, funs, si, l, brk)->Ok_0.0;
            let cx = spec_compile(x, env, funs, si, l, brk)->Ok_0;
            let cy = spec_compile(y, env, funs, (si + 1) as i32, cx.1, brk)->Ok_0.0;
            &&& code.take(cx.0.len() as int) == cx.0
            &&& code[cx.0.len() as int] == Instr::<Seq<char>>::SaveTemp((8 * si) as i32)
            &&& code.subrange(cx.0.len() + 1int, cx.0.len() + 1 + cy.len() as int) == cy
            &&& forall|p: i32| #[trigger] touches(cy, p) ==> p != (8 * si) as i32
            &&& code == cx.0 + seq![Instr::SaveTemp((8 * si) as i32)] + cy + operator_tail(op, x, y, env, funs, si, l, brk)
        }),
{
    let code = spec_compile(ExprV::BinOp(op, Box::new(x), Box::new(y)), env, funs, si, l, brk)->Ok_0.0;
    let cx = spec_compile(x, env, funs, si, l, brk)->Ok_0;
    let cy = spec_compile(y, env, funs, (si + 1) as i32, cx.1, brk)->Ok_0;
    let c3 = crate::compiler::spec_binop_code(op, (8 * si) as i32, cy.1)->Ok_0.0;
    assert(code == cx.0 + seq![Instr::SaveTemp((8 * si) as i32)] + cy.0 + c3);
    assert(code.take(cx.0.len() as int) =~= cx.0);
    assert(code.subrange(cx.0.len() + 1int, cx.0.len() + 1 + cy.0.len() as int) =~= cy.0);
    assert(code.skip(cx.0.len() + 1 + cy.0.len() as int) =~= c3);
    lemma_compile_sound(y, env, funs, (si + 1) as i32, cx.1, brk);
}

/// Law: `+`, `-` and `*` compile so that, once the left operand `a` (tagged
/// `2 * a`) is saved and the right operand `b` (tagged `2 * b`) is in `rax`,
/// the operator's code leaves `a + b`, `a - b` and `a * b` (tagged) in `rax`;
/// the left operand is saved at slot `si`, which the right operand's code
/// never touches.
pub proof fn law_binary_arithmetic(
    op: Op2,
    x: ExprV,
    y: ExprV,
    env: Map<Seq<char>, i32>,
    funs: Map<Seq<char>, usize>,
    si: i32,
    l: i32,
    brk: Option<Label>,
    m: Machine,
    a: int,
    b: int,
)
    ensures
        spec_compile(ExprV::BinOp(op, Box::new(x), Box::new(y)), env, funs, si, l, brk) matches Ok((code, l2))
            ==> {
            let cx = spec_compile(x, env, funs, si, l, brk)->Ok_0;
            let cy = spec_compile(y, env, funs, (si + 1) as i32, cx.1, brk)->Ok_0.0;
            let tail = operator_tail(op, x, y, env, funs, si, l, brk);
            let out = run(tail, operands(m, (8 * si) as i32, 2 * a, 2 * b)).rax;
            &&& code == cx.0 + seq![Instr::SaveTemp((8 * si) as i32)] + cy + tail
            &&& forall|p: i32| #[trigger] touches(cy, p) ==> p != (8 * si) as i32
            &&& op == Op2::Plus ==> out == 2 * (a + b)
            &&& op == Op2::Minus ==> out == 2 * (a - b)
            &&& op == Op2::Times ==> out == 2 * (a * b)
        },
{
    if spec_compile(ExprV::BinOp(op, Box::new(x), Box::new(y)), env, funs, si, l, brk) is Ok {
        lemma_operands_kept(op, x, y, env, funs, si, l, brk);
        let tail = operator_tail(op, x, y, env, funs, si, l, brk);
        let o = (8 * si) as i32;
        let start = operands(m, o, 2 * a, 2 * b);
        reveal_with_fuel(run, 8);
        let f = |l: Line| Instr::<Seq<char>>::Fixed(l);
        assert(start.temps[slot(o)] == 2 * a);
        if op == Op2::Plus {
            assert(tail =~= seq![f(Line::MovRbxRax), Instr::OrTemp(o), f(Line::TestRbx1), f(Line::JnzInvalid),
                Instr::AddTemp(o), f(Line::JoOverflow)]);
            let m4 = run(tail.take(4), start);
            lemma_run_concat(tail.take(4), tail.skip(4), start);
            assert(tail =~= tail.take(4) + tail.skip(4));
        } else if op == Op2::Minus {
            assert(tail =~= seq![f(Line::MovRbxRax), Instr::OrTemp(o), f(Line::TestRbx1), f(Line::JnzInvalid),
                f(Line::MovR8Rax), Instr::LoadTemp(o), f(Line::SubRaxR8), f(Line::JoOverflow)]);
            lemma_run_concat(tail.take(4), tail.skip(4), start);
            assert(tail =~= tail.take(4) + tail.skip(4));
        } else if op == Op2::Times {
            assert(tail =~= seq![f(Line::MovRbxRax), Instr::OrTemp(o), f(Line::TestRbx1), f(Line::JnzInvalid),
                f(Line::MovR8Rax), Instr::LoadTemp(o), f(Line::SarRax1), f(Line::ImulRaxR8),
                f(Line::JoOverflow)]);
            lemma_run_concat(tail.take(4), tail.skip(4), start);
            assert(tail =~= tail.take(4) + tail.skip(4));
            assert((2 * a) / 2 == a);
            assert(a * (2 * b) == 2 * (a * b)) by (nonlinear_arith);
        }
    }
}

/// Law: a comparison `(op x y)` compiles so that, once the left operand `a`
/// is saved and the right operand `b` is in `rax`, the operator's code
/// compares `a` with `b` and then makes one conditional jump, which is taken
/// exactly when the operator's relation holds between `a` and `b`: to a label
/// whose line is followed by loading `true` (3), while the line after the
/// jump loads `false` (1).
pub proof fn law_comparison(
    op: Op2,
    x: ExprV,
    y: ExprV,
    env: Map<Seq<char>, i32>,
    funs: Map<Seq<char>, usize>,
    si: i32,
    l: i32,
    brk: Option<Label>,
    m: Machine,
    a: int,
    b: int,
)
    ensures
        spec_compile(ExprV::BinOp(op, Box::new(x), Box::new(y)), env, funs, si, l, brk) is Ok && !arithmetic(op)
            ==> {
            let tail = operator_tail(op, x, y, env, funs, si, l, brk);
            let start = operands(m, (8 * si) as i32, a, b);
            exists|k: int, p: int|
                0 <= k && k + 1 < tail.len() && 0 <= p && p + 1 < tail.len() && (#[trigger] tail[k] matches Instr::JumpTo(j, t) && {
                    let before = run(tail.take(k), start);
                    &&& jump_taken(j, before.last_left, before.last_right) == relation_holds(op, a, b)
                    &&& tail[k + 1] == Instr::<Seq<char>>::MovRaxImm(1)
                    &&& #[trigger] tail[p] == Instr::<Seq<char>>::Place(t)
                    &&& tail[p + 1] == Instr::<Seq<char>>::MovRaxImm(3)
                })
        },
{
    if spec_compile(ExprV::BinOp(op, Box::new(x), Box::new(y)), env, funs, si, l, brk) is Ok && !arithmetic(op) {
        lemma_operands_kept(op, x, y, env, funs, si, l, brk);
        let tail = operator_tail(op, x, y, env, funs, si, l, brk);
        let o = (8 * si) as i32;
        let start = operands(m, o, a, b);
        assert(start.temps[slot(o)] == a);
        reveal_with_fuel(run, 8);
        let f = |l: Line| Instr::<Seq<char>>::Fixed(l);
        let before = run(tail.take(7), start);
        match tail[7] {
            Instr::JumpTo(j, t) => {
                if op == Op2::Equal {
                    assert(tail.take(7) =~= seq![f(Line::MovR8Rax), Instr::LoadR9Temp(o), f(Line::MovR10R8),
                        f(Line::XorR10R9), f(Line::TestR10One), f(Line::JnzInvalid), f(Line::CmpR9R8)]);
                } else {
                    assert(tail.take(7) =~= seq![f(Line::MovRbxRax), Instr::OrTemp(o), f(Line::TestRbx1),
                        f(Line::JnzInvalid), f(Line::MovR8Rax), Instr::LoadTemp(o), f(Line::CmpRaxR8)]);
                }
                assert(before.last_left == a && before.last_right == b);
                assert(tail[10] == Instr::<Seq<char>>::Place(t));
            },
            _ => {
                assert(false);
            },
        }
    }
}

proof fn lemma_param_slots_at(ps: Seq<Seq<char>>, k: int, env: Map<Seq<char>, i32>)
    requires
        k >= 0,
        ps.no_duplicates(),
        spec_param_slots(ps, k, env) is Ok,
    ensures
        ({
            let env2 = spec_param_slots(ps, k, env)->Ok_0;
            &&& forall|j: int|
                0 <= j < ps.len() ==> env2.contains_key(#[trigger] ps[j]) && env2[ps[j]] == 16 + 8 * (k + j)
            &&& forall|key: Seq<char>|
                !ps.contains(key) && #[trigger] env.contains_key(key) ==> env2.contains_key(key) && env2[key]
                    == env[key]
        }),
    decreases ps.len(),
{
    if ps.len() > 0 {
        let rest = ps.drop_first();
        let env1 = env.insert(ps[0], (16 + k * 8) as i32);
        assert(rest.no_duplicates()) by {
            assert forall|i: int, j: int| 0 <= i < rest.len() && 0 <= j < rest.len() && i != j implies rest[i] != rest[j] by {
                assert(rest[i] == ps[i + 1] && rest[j] == ps[j + 1]);
            }
        }
        lemma_param_slots_at(rest, k + 1, env1);
        let env2 = spec_param_slots(ps, k, env)->Ok_0;
        assert(16 + k * 8 <= i32::MAX);
        assert(env1[ps[0]] == 16 + 8 * k);
        assert(env2 == spec_param_slots(rest, k + 1, env1)->Ok_0);
        assert(!rest.contains(ps[0])) by {
            if rest.contains(ps[0]) {
                let i = choose|i: int| 0 <= i < rest.len() && rest[i] == ps[0];
                assert(ps[i + 1] == ps[0]);
            }
        }
        assert(env1.contains_key(ps[0]));
        assert forall|j: int| 0 <= j < ps.len() implies env2.contains_key(#[trigger] ps[j]) && env2[ps[j]] == 16 + 8 * (k + j) by {
            if j > 0 {
                assert(ps[j] == rest[j - 1]);
            } else {
                assert(env1.contains_key(ps[0]));
            }
        }
        assert forall|key: Seq<char>| !ps.contains(key) && #[trigger] env.contains_key(key) implies env2.contains_key(key)
            && env2[key] == env[key] by {
            assert(key != ps[0]) by {
                assert(ps[0] == ps[0]);
                if key == ps[0] {
                    assert(ps.contains(key));
                }
            }
            assert(!rest.contains(key)) by {
                if rest.contains(key) {
                    let i = choose|i: int| 0 <= i < rest.len() && rest[i] == key;
                    assert(ps[i + 1] == key);
                }
            }
            assert(env1.contains_key(key) && env1[key] == env[key]);
        }
    }
}

/// Law: in a compiled function, its parameters (pairwise distinct, as the
/// parser makes them) are read from the slots above the saved `rbp` and the
/// return address: the parameter at position `j` from `[rbp + 16 + 8 * j]`,
/// and a body that reads it loads just that slot.
pub proof fn law_parameter_slots(
    ps: Seq<Seq<char>>,
    funs: Map<Seq<char>, usize>,
    si: i32,
    l: i32,
    brk: Option<Label>,
)
    ensures
        spec_param_slots(ps, 0, Map::empty()) is Ok && ps.no_duplicates() ==> forall|j: int|
            0 <= j < ps.len() ==> spec_compile(
                ExprV::Id(#[trigger] ps[j]),
                spec_param_slots(ps, 0, Map::empty())->Ok_0,
                funs,
                si,
                l,
                brk,
            ) == Ok::<(Code, i32), Fault>((seq![Instr::LoadVar((16 + 8 * j) as i32)], l)),
{
    if spec_param_slots(ps, 0, Map::empty()) is Ok && ps.no_duplicates() {
        lemma_param_slots_at(ps, 0, Map::empty());
    }
}

/// Law: a call with `n` arguments, saved at the slots `si..si + n`, pushes
/// them last one first, so that the argument at position `j` is the
/// `j`-th push from the last: once the call has pushed the return address
/// and the callee has saved `rbp`, it lies at `[rbp + 16 + 8 * j]`, where
/// the callee reads its parameter `j`.
pub proof fn law_arguments_pushed(si: i32, n: nat)
    ensures
        push_args(si, n).len() == 2 * n,
        forall|j: int|
            0 <= j < n ==> #[trigger] push_args(si, n)[2 * (n - 1 - j)] == Instr::<Seq<char>>::LoadTemp(
                ((si + j) * 8) as i32,
            ) && push_args(si, n)[2 * (n - 1 - j) + 1] == Instr::<Seq<char>>::Fixed(Line::PushRax),
    decreases n,
{
    if n > 0 {
        let rest = push_args(si, (n - 1) as nat);
        law_arguments_pushed(si, (n - 1) as nat);
        assert forall|j: int| 0 <= j < n implies #[trigger] push_args(si, n)[2 * (n - 1 - j)] == Instr::<Seq<char>>::LoadTemp(
            ((si + j) * 8) as i32,
        ) && push_args(si, n)[2 * (n - 1 - j) + 1] == Instr::<Seq<char>>::Fixed(Line::PushRax) by {
            if j < n - 1 {
                assert(push_args(si, n)[2 * (n - 1 - j)] == rest[2 * (n - 1 - j) - 2]);
                assert(rest[2 * ((n - 1) - 1 - j)] == Instr::<Seq<char>>::LoadTemp(((si + j) * 8) as i32));
            }
        }
    }
}

/// Law: the lines that the machine model reads are written as x86-64 spells
/// the instructions it takes them for: each arithmetic, move and compare
/// line, each conditional jump, and each line that moves a temporary slot.
pub proof fn law_lines_spelled(o: i32, t: Label)
    ensures
        line_text(Line::MovR8Rax) == "mov r8, rax"@,
        line_text(Line::AddRax2) == "add rax, 2"@,
        line_text(Line::SubRax2) == "sub rax, 2"@,
        line_text(Line::ImulRaxMinus1) == "imul rax, -1"@,
        line_text(Line::SubRaxR8) == "sub rax, r8"@,
        line_text(Line::SarRax1) == "sar rax, 1"@,
        line_text(Line::ImulRaxR8) == "imul rax, r8"@,
        line_text(Line::CmpRaxR8) == "cmp rax, r8"@,
        line_text(Line::CmpR9R8) == "cmp r9, r8"@,
        instr_text(Instr::JumpTo(Jump::Je, t)) == "je "@ + label_text(t),
        instr_text(Instr::JumpTo(Jump::Jl, t)) == "jl "@ + label_text(t),
        instr_text(Instr::JumpTo(Jump::Jg, t)) == "jg "@ + label_text(t),
        instr_text(Instr::JumpTo(Jump::Jle, t)) == "jle "@ + label_text(t),
        instr_text(Instr::JumpTo(Jump::Jge, t)) == "jge "@ + label_text(t),
        instr_text(Instr::JumpTo(Jump::Jmp, t)) == "jmp "@ + label_text(t),
        instr_text(Instr::Place(t)) == label_text(t) + ":"@,
        instr_text(Instr::SaveTemp(o)) == "mov [rbp - "@ + decimal(slot(o)) + "], rax"@,
        instr_text(Instr::LoadTemp(o)) == "mov rax, [rbp - "@ + decimal(slot(o)) + "]"@,
        instr_text(Instr::AddTemp(o)) == "add rax, [rbp - "@ + decimal(slot(o)) + "]"@,
        instr_text(Instr::LoadR9Temp(o)) == "mov r9, [rbp - "@ + decimal(slot(o)) + "]"@,
        o > 0 ==> instr_text(Instr::LoadVar(o)) == "mov rax, [rbp + "@ + decimal(slot(o)) + "]"@,
        o <= 0 ==> instr_text(Instr::LoadVar(o)) == "mov rax, [rbp - "@ + decimal(-slot(o)) + "]"@,
        o > 0 ==> instr_text(Instr::StoreVar(o)) == "mov [rbp + "@ + decimal(slot(o)) + "], rax"@,
        o <= 0 ==> instr_text(Instr::StoreVar(o)) == "mov [rbp - "@ + decimal(-slot(o)) + "], rax"@,
{
    reveal_strlit("mov rax, [rbp ");
    reveal_strlit("mov rax, [rbp + ");
    reveal_strlit("mov rax, [rbp - ");
    reveal_strlit("mov [rbp ");
    reveal_strlit("mov [rbp + ");
    reveal_strlit("mov [rbp - ");
    reveal_strlit("+ ");
    reveal_strlit("- ");
    assert("mov rax, [rbp "@ + "+ "@ =~= "mov rax, [rbp + "@);
    assert("mov rax, [rbp "@ + "- "@ =~= "mov rax, [rbp - "@);
    assert("mov [rbp "@ + "+ "@ =~= "mov [rbp + "@);
    assert("mov [rbp "@ + "- "@ =~= "mov [rbp - "@);
    assert(("mov rax, [rbp "@ + ("+ "@ + decimal(slot(o)))) + "]"@ =~= "mov rax, [rbp "@ + "+ "@ + decimal(slot(o)) + "]"@);
    assert(("mov rax, [rbp "@ + ("- "@ + decimal(-slot(o)))) + "]"@ =~= "mov rax, [rbp "@ + "- "@ + decimal(-slot(o)) + "]"@);
    assert(("mov [rbp "@ + ("+ "@ + decimal(slot(o)))) + "], rax"@ =~= "mov [rbp "@ + "+ "@ + decimal(slot(o)) + "], rax"@);
    assert(("mov [rbp "@ + ("- "@ + decimal(-slot(o)))) + "], rax"@ =~= "mov [rbp "@ + "- "@ + decimal(-slot(o)) + "], rax"@);
    reveal_strlit("je");
    reveal_strlit("jl");
    reveal_strlit("jg");
    reveal_strlit("jle");
    reveal_strlit("jge");
    reveal_strlit("jmp");
    reveal_strlit(" ");
    reveal_strlit("je ");
    reveal_strlit("jl ");
    reveal_strlit("jg ");
    reveal_strlit("jle ");
    reveal_strlit("jge ");
    reveal_strlit("jmp ");
    assert("je"@ + " "@ =~= "je "@);
    assert("jl"@ + " "@ =~= "jl "@);
    assert("jg"@ + " "@ =~= "jg "@);
    assert("jle"@ + " "@ =~= "jle "@);
    assert("jge"@ + " "@ =~= "jge "@);
    assert("jmp"@ + " "@ =~= "jmp "@);
}

/// Law: the bindings of a `let`, compiled from slot `si`, save the value of
/// the binding at position `j` to slot `si + j` (at `[rbp - 8 * (si + j)]`)
/// and bind its name, for the body, to just that slot; the names bound
/// before them keep their slots unless a binding takes the name.
pub proof fn law_binding_slots(
    bs: Seq<(Seq<char>, ExprV)>,
    env: Map<Seq<char>, i32>,
    funs: Map<Seq<char>, usize>,
    si: i32,
    l: i32,
    brk: Option<Label>,
    seen: Seq<Seq<char>>,
)
    ensures
        spec_compile_binds(bs, env, funs, si, l, brk, seen) matches Ok((code, env2, si2, l2)) ==> {
            &&& si2 == si + bs.len()
            &&& forall|j: int|
                0 <= j < bs.len() ==> env2.contains_key(#[trigger] bs[j].0) && env2[bs[j].0] == -8 * (si + j)
                    && code.contains(Instr::<Seq<char>>::SaveTemp((8 * (si + j)) as i32))
            &&& forall|key: Seq<char>|
                #[trigger] env.contains_key(key) && (forall|j: int| 0 <= j < bs.len() ==> bs[j].0 != key)
                    ==> env2.contains_key(key) && env2[key] == env[key]
        },
    decreases bs.len(),
{
    if bs.len() > 0 {
        match spec_compile_binds(bs, env, funs, si, l, brk, seen) {
            Ok((code, env2, si2, l2)) => {
                let name = bs[0].0;
                let (c0, l1) = spec_compile(bs[0].1, env, funs, si, l, brk)->Ok_0;
                let o = (si * 8) as i32;
                let env1 = env.insert(name, (-o) as i32);
                let rest = bs.drop_first();
                law_binding_slots(rest, env1, funs, (si + 1) as i32, l1, brk, seen.push(name));
                let (cr, e2, s2, l3) = spec_compile_binds(rest, env1, funs, (si + 1) as i32, l1, brk, seen.push(name))->Ok_0;
                assert(code == c0 + seq![Instr::SaveTemp(o)] + cr);
                assert((si + 1) as i32 == si + 1);
                assert(seen.push(name)[seen.len() as int] == name);
                // no name is bound twice in one `let`
                assert forall|j: int| 0 < j < bs.len() implies #[trigger] bs[j].0 != name by {
                    assert(bs[j] == rest[j - 1]);
                    lemma_names_apart(rest, env1, funs, (si + 1) as i32, l1, brk, seen.push(name), j - 1);
                }
                assert forall|j: int| 0 <= j < bs.len() implies env2.contains_key(#[trigger] bs[j].0) && env2[bs[j].0]
                    == -8 * (si + j) && code.contains(Instr::<Seq<char>>::SaveTemp((8 * (si + j)) as i32)) by {
                    if j == 0 {
                        assert(code[c0.len() as int] == Instr::<Seq<char>>::SaveTemp(o));
                        assert(env1.contains_key(name));
                    } else {
                        assert(bs[j] == rest[j - 1]);
                        assert(env2 == e2);
                        let si1 = (si + 1) as i32;
                        assert(spec_compile_binds(rest, env1, funs, si1, l1, brk, seen.push(name)) is Ok);
                        assert(e2.contains_key(rest[j - 1].0));
                        assert(e2.contains_key(rest[j - 1].0) && cr.contains(
                            Instr::<Seq<char>>::SaveTemp((8 * (si1 + (j - 1))) as i32),
                        ));
                        assert(8 * (si1 + (j - 1)) == 8 * (si + j));
                        assert(cr.contains(Instr::<Seq<char>>::SaveTemp((8 * (si + j)) as i32)));
                        let k = choose|k: int| 0 <= k < cr.len() && cr[k] == Instr::<Seq<char>>::SaveTemp((8 * (si + j)) as i32);
                        assert(code[c0.len() + 1 + k] == cr[k]);
                    }
                }
                assert forall|key: Seq<char>|
                    #[trigger] env.contains_key(key) && (forall|j: int| 0 <= j < bs.len() ==> bs[j].0 != key)
                    implies env2.contains_key(key) && env2[key] == env[key] by {
                    assert(bs[0].0 != key);
                    assert forall|j: int| 0 <= j < rest.len() implies rest[j].0 != key by {
                        assert(rest[j] == bs[j + 1]);
                    }
                    assert(env1.contains_key(key) && env1[key] == env[key]);
                    assert(env2 == e2);
                }
            },
            Err(_) => {},
        }
    }
}

/// A name bound later in the bindings was not bound before them.
proof fn lemma_names_apart(
    bs: Seq<(Seq<char>, ExprV)>,
    env: Map<Seq<char>, i32>,
    funs: Map<Seq<char>, usize>,
    si: i32,
    l: i32,
    brk: Option<Label>,
    seen: Seq<Seq<char>>,
    j: int,
)
    requires
        spec_compile_binds(bs, env, funs, si, l, brk, seen) is Ok,
        0 <= j < bs.len(),
    ensures
        !seen.contains(bs[j].0),
    decreases j,
{
    let name = bs[0].0;
    if j > 0 {
        let (c0, l1) = spec_compile(bs[0].1, env, funs, si, l, brk)->Ok_0;
        let o = (si * 8) as i32;
        let env1 = env.insert(name, (-o) as i32);
        let rest = bs.drop_first();
        lemma_names_apart(rest, env1, funs, (si + 1) as i32, l1, brk, seen.push(name), j - 1);
        assert(rest[j - 1] == bs[j]);
        assert forall|k: int| 0 <= k < seen.len() implies seen[k] != bs[j].0 by {
            assert(seen.push(name)[k] == seen[k]);
        }
    }
}

/// Law: `isnum` leaves `true` (3) in `rax` exactly when its operand's value
/// is a number (even when tagged), else `false` (1); `isbool` the other way
/// round.
pub proof fn law_type_tests(
    op: Op1,
    x: ExprV,
    env: Map<Seq<char>, i32>,
    funs: Map<Seq<char>, usize>,
    si: i32,
    l: i32,
    brk: Option<Label>,
    m: Machine,
    v: int,
)
    ensures
        spec_compile(ExprV::UnOp(op, Box::new(x)), env, funs, si, l, brk) matches Ok((code, l2)) ==> {
            let cx = spec_compile(x, env, funs, si, l, brk)->Ok_0.0;
            let out = run(code.skip(cx.len() as int), Machine { rax: v, ..m }).rax;
            &&& code.take(cx.len() as int) == cx
            &&& op == Op1::IsNum ==> out == if v % 2 == 0 { 3int } else { 1int }
            &&& op == Op1::IsBool ==> out == if v % 2 == 0 { 1int } else { 3int }
        },
{
    match spec_compile(ExprV::UnOp(op, Box::new(x)), env, funs, si, l, brk) {
        Ok((code, l2)) => {
            let cx = spec_compile(x, env, funs, si, l, brk)->Ok_0.0;
            let tail = code.skip(cx.len() as int);
            assert(code.take(cx.len() as int) =~= cx);
            reveal_with_fuel(run, 4);
            if op == Op1::IsNum || op == Op1::IsBool {
                assert(tail.len() == 3);
                assert(tail.drop_first().drop_first().drop_first() =~= Seq::<Instr<Seq<char>>>::empty());
                let b = v % 2;
                assert((2 * b) % 4 == 2 * b);
            }
        },
        Err(_) => {},
    }
}

/// Law: `true` and `false` compile to code that leaves their tagged values 3
/// and 1 in `rax`, which the runtime shows as `true` and `false`.
pub proof fn law_boolean_constants(
    b: bool,
    env: Map<Seq<char>, i32>,
    funs: Map<Seq<char>, usize>,
    si: i32,
    l: i32,
    brk: Option<Label>,
    m: Machine,
)
    ensures
        spec_compile(ExprV::Bool(b), env, funs, si, l, brk) matches Ok((code, l2)) && l2 == l && run(code, m).rax
            == (if b { 3int } else { 1int }),
        spec_value_text(3) == "true"@,
        spec_value_text(1) == "false"@,
{
    reveal_with_fuel(run, 2);
    law_boolean_round_trip();
}

/// Law: an `if` runs its condition's code, then compares the value with
/// `false` (1) and jumps exactly when it is `false`, to the label placed just
/// before the else branch's code; otherwise it falls through to the then
/// branch's code, which jumps past the else branch to the label that ends
/// the code.
pub proof fn law_if_branches(
    c: ExprV,
    t: ExprV,
    f: ExprV,
    env: Map<Seq<char>, i32>,
    funs: Map<Seq<char>, usize>,
    si: i32,
    l: i32,
    brk: Option<Label>,
    m: Machine,
    v: int,
)
    ensures
        spec_compile(ExprV::If(Box::new(c), Box::new(t), Box::new(f)), env, funs, si, l, brk) matches Ok((code, l3))
            ==> {
            let cc = spec_compile(c, env, funs, si, (l + 2) as i32, brk)->Ok_0;
            let ct = spec_compile(t, env, funs, si, cc.1, brk)->Ok_0;
            let cf = spec_compile(f, env, funs, si, ct.1, brk)->Ok_0.0;
            let k = cc.0.len() as int;
            let e = k + 2 + ct.0.len();
            &&& code.take(k) == cc.0
            &&& (code[k + 1] matches Instr::JumpTo(j, els) && {
                let compared = run(code.subrange(k, k + 1), Machine { rax: v, ..m });
                &&& jump_taken(j, compared.last_left, compared.last_right) == (v == 1)
                &&& code[e + 1] == Instr::<Seq<char>>::Place(els)
            })
            &&& code.subrange(k + 2, e) == ct.0
            &&& (code[e] matches Instr::JumpTo(Jump::Jmp, end) && code.last() == Instr::<Seq<char>>::Place(end))
            &&& code.subrange(e + 2, e + 2 + cf.len()) == cf
            &&& code.len() == e + 3 + cf.len()
        },
{
    match spec_compile(ExprV::If(Box::new(c), Box::new(t), Box::new(f)), env, funs, si, l, brk) {
        Ok((code, l3)) => {
            let cc = spec_compile(c, env, funs, si, (l + 2) as i32, brk)->Ok_0;
            let ct = spec_compile(t, env, funs, si, cc.1, brk)->Ok_0;
            let cf = spec_compile(f, env, funs, si, ct.1, brk)->Ok_0.0;
            let k = cc.0.len() as int;
            let e = k + 2 + ct.0.len();
            assert(code.take(k) =~= cc.0);
            assert(code.subrange(k + 2, e) =~= ct.0);
            assert(code.subrange(e + 2, e + 2 + cf.len()) =~= cf);
            assert(code.subrange(k, k + 1) =~= seq![Instr::<Seq<char>>::Fixed(Line::CmpRax1)]);
            reveal_with_fuel(run, 2);
        },
        Err(_) => {},
    }
}

/// Law: a loop's code places a label at its start and one at its very end,
/// runs its body, and jumps back to the start; the body is compiled with the
/// end label as its `break` target, so a `break` leaves the loop. A `break`
/// runs its operand's code (leaving the loop's value in `rax`) and then
/// always jumps to the `break` target.
pub proof fn law_loop_and_break(
    x: ExprV,
    env: Map<Seq<char>, i32>,
    funs: Map<Seq<char>, usize>,
    si: i32,
    l: i32,
    brk: Option<Label>,
)
    ensures
        spec_compile(ExprV::Loop(Box::new(x)), env, funs, si, l, brk) matches Ok((code, l2)) ==> (code[0] matches Instr::Place(
            start,
        ) && code.last() matches Instr::Place(end) && {
            &&& start != end
            &&& code[code.len() - 2] == Instr::<Seq<char>>::JumpTo(Jump::Jmp, start)
            &&& code.subrange(1, code.len() - 2) == spec_compile(x, env, funs, si, (l + 2) as i32, Some(end))->Ok_0.0
        }),
        spec_compile(ExprV::Break(Box::new(x)), env, funs, si, l, brk) matches Ok((code, l2)) ==> (brk matches Some(
            target,
        ) && {
            let cx = spec_compile(x, env, funs, si, l, brk)->Ok_0.0;
            &&& code.take(cx.len() as int) == cx
            &&& code.len() == cx.len() + 1
            &&& code.last() matches Instr::JumpTo(j, to) && to == target && jump_taken(j, 0, 0) && jump_taken(j, 0, 1)
                && jump_taken(j, 1, 0)
        }),
{
    match spec_compile(ExprV::Loop(Box::new(x)), env, funs, si, l, brk) {
        Ok((code, l2)) => {
            let end = Label { kind: crate::assembly::LabelKind::LoopEnd, id: (l + 1) as i32 };
            let cb = spec_compile(x, env, funs, si, (l + 2) as i32, Some(end))->Ok_0.0;
            assert(code.subrange(1, code.len() - 2) =~= cb);
        },
        Err(_) => {},
    }
    match spec_compile(ExprV::Break(Box::new(x)), env, funs, si, l, brk) {
        Ok((code, l2)) => {
            let cx = spec_compile(x, env, funs, si, l, brk)->Ok_0.0;
            assert(code.take(cx.len() as int) =~= cx);
        },
        Err(_) => {},
    }
}

/// Law: a call pushes its `n` arguments and calls the function by its name
/// (`call fun_<name>`); before the pushes it moves `rsp` down by 8 exactly
/// when `n` is odd, and after the call it moves `rsp` back up by all that it
/// took, so the stack is balanced and the call is made with `rsp` moved by a
/// multiple of 16.
pub proof fn law_call_stack(
    name: Seq<char>,
    args: Seq<ExprV>,
    env: Map<Seq<char>, i32>,
    funs: Map<Seq<char>, usize>,
    si: i32,
    l: i32,
    brk: Option<Label>,
)
    ensures
        spec_compile(ExprV::Call(name, args), env, funs, si, l, brk) matches Ok((code, l2)) ==> {
            let n = args.len();
            let ca = crate::compiler::spec_compile_args(args, env, funs, si, l, brk)->Ok_0.0;
            let down: int = if n % 2 == 1 { 8 } else { 0 };
            let p = ca.len() + (if n % 2 == 1 { 1int } else { 0int });
            &&& code.take(ca.len() as int) == ca
            &&& n % 2 == 1 ==> code[ca.len() as int] == Instr::<Seq<char>>::SubRsp(8)
            &&& code.subrange(p, p + 2 * n) == push_args(si, n)
            &&& code[p + 2 * n] == Instr::<Seq<char>>::CallFun(name)
            &&& (down + 8 * n) % 16 == 0
            &&& down + 8 * n == 0 ==> code.len() == p + 2 * n + 1
            &&& down + 8 * n != 0 ==> code.len() == p + 2 * n + 2 && (code.last() matches Instr::AddRsp(up) && up == down + 8 * n)
        },
{
    match spec_compile(ExprV::Call(name, args), env, funs, si, l, brk) {
        Ok((code, l2)) => {
            let n = args.len();
            let ca = crate::compiler::spec_compile_args(args, env, funs, si, l, brk)->Ok_0.0;
            let p = ca.len() + (if n % 2 == 1 { 1int } else { 0int });
            law_arguments_pushed(si, n);
            assert(code.take(ca.len() as int) =~= ca);
            assert(code.subrange(p, p + 2 * n) =~= push_args(si, n));
        },
        Err(_) => {},
    }
}

} // verus!
