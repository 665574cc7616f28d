//! Code generation: from the abstract syntax of Adder programs to x86-64
//! assembly.
use vstd::prelude::*;
use vstd::string::*;
use crate::assembly::{
    code_string, code_text, instrs_view, Code, Instr, Jump, Label, LabelKind, Line,
};
use crate::ast::{
    binds_view, exprs_view, lemma_binds_view, lemma_exprs_view, Definition, DefinitionV, Expr,
    ExprV, Op1, Op2, Program, ProgramV,
};
use crate::env::{
    arities, arities_contains, arities_get, arities_insert, arities_new, slots, slots_clone,
    slots_get, slots_insert, slots_new, slots_update,
};
use crate::error::{agrees, CompileError, Fault};
use crate::parser::{contains_name, spec_parse_source, parse_source};
use crate::props::{lemma_compile_sound, touches};
use crate::ast::names_view as names_view_of;
use crate::ast::defns_view as defns_view_of;
use crate::text::{append_decimal, decimal, join_strings, joined, texts};

verus! {

/// Whether an integer lies in the range of `i32`.
pub open spec fn fits(x: int) -> bool {
    i32::MIN <= x <= i32::MAX
}

/// The larger of two integers.
pub open spec fn larger(a: int, b: int) -> int {
    if a >= b {
        a
    } else {
        b
    }
}

pub open spec fn fixed(l: Line) -> Instr<Seq<char>> {
    Instr::Fixed(l)
}

/// Fails to `invalid_argument_error` unless `rax` holds a number.
pub open spec fn check_num() -> Code {
    seq![fixed(Line::MovRbxRax), fixed(Line::AndRbx1), fixed(Line::CmpRbx0), fixed(Line::JneInvalid)]
}

/// The code of a unary operator, applied to `rax`.
pub open spec fn unop_code(op: Op1) -> Code {
    match op {
        Op1::Add1 => check_num() + seq![fixed(Line::AddRax2), fixed(Line::JoOverflow)],
        Op1::Sub1 => check_num() + seq![fixed(Line::SubRax2), fixed(Line::JoOverflow)],
        Op1::Negate => check_num() + seq![fixed(Line::ImulRaxMinus1), fixed(Line::JoOverflow)],
        Op1::IsNum => seq![fixed(Line::AndRax1), fixed(Line::ShlRax1), fixed(Line::XorRax3)],
        Op1::IsBool => seq![fixed(Line::AndRax1), fixed(Line::ShlRax1), fixed(Line::AddRax1)],
        Op1::Print => seq![fixed(Line::MovRdiRax), fixed(Line::CallSnekPrint)],
    }
}

/// Fails to `invalid_argument_error` unless `rax` and the temporary at `o`
/// both hold numbers.
pub open spec fn check_nums(o: i32) -> Code {
    seq![fixed(Line::MovRbxRax), Instr::OrTemp(o), fixed(Line::TestRbx1), fixed(Line::JnzInvalid)]
}

/// The jump of a comparison.
pub open spec fn compare_jump(op: Op2) -> Jump {
    match op {
        Op2::Less => Jump::Jl,
        Op2::Greater => Jump::Jg,
        Op2::LessEq => Jump::Jle,
        _ => Jump::Jge,
    }
}

/// The end of a comparison: `false` in `rax`, or `true` at the label `t`.
pub open spec fn select_code(t: Label, end: Label) -> Code {
    seq![
        Instr::MovRaxImm(1),
        Instr::JumpTo(Jump::Jmp, end),
        Instr::Place(t),
        Instr::MovRaxImm(3),
        Instr::Place(end),
    ]
}

/// The code of a binary operator whose left operand is the temporary at `o`
/// and whose right operand is in `rax`, with the label counter `l`: the code
/// and the new counter.
pub open spec fn spec_binop_code(op: Op2, o: i32, l: i32) -> Result<(Code, i32), Fault> {
    match op {
        Op2::Plus => Ok((check_nums(o) + seq![Instr::AddTemp(o), fixed(Line::JoOverflow)], l)),
        Op2::Minus => Ok(
            (
                check_nums(o) + seq![
                    fixed(Line::MovR8Rax),
                    Instr::LoadTemp(o),
                    fixed(Line::SubRaxR8),
                    fixed(Line::JoOverflow),
                ],
                l,
            ),
        ),
        Op2::Times => Ok(
            (
                check_nums(o) + seq![
                    fixed(Line::MovR8Rax),
                    Instr::LoadTemp(o),
                    fixed(Line::SarRax1),
                    fixed(Line::ImulRaxR8),
                    fixed(Line::JoOverflow),
                ],
                l,
            ),
        ),
        _ => {
            if !fits(l + 2) {
                Err(Fault::ArithmeticOverflow)
            } else {
                let t = Label { kind: LabelKind::CmpTrue, id: l };
                let end = Label { kind: LabelKind::CmpEnd, id: (l + 1) as i32 };
                if op == Op2::Equal {
                    Ok(
                        (
                            seq![
                                fixed(Line::MovR8Rax),
                                Instr::LoadR9Temp(o),
                                fixed(Line::MovR10R8),
                                fixed(Line::XorR10R9),
                                fixed(Line::TestR10One),
                                fixed(Line::JnzInvalid),
                                fixed(Line::CmpR9R8),
                                Instr::JumpTo(Jump::Je, t),
                            ] + select_code(t, end),
                            (l + 2) as i32,
                        ),
                    )
                } else {
                    Ok(
                        (
                            check_nums(o) + seq![
                                fixed(Line::MovR8Rax),
                                Instr::LoadTemp(o),
                                fixed(Line::CmpRaxR8),
                                Instr::JumpTo(compare_jump(op), t),
                            ] + select_code(t, end),
                            (l + 2) as i32,
                        ),
                    )
                }
            }
        },
    }
}

/// The pushes of the arguments saved at `si..si + n` (in bytes, `8 * slot`),
/// last argument first.
pub open spec fn push_args(si: i32, n: nat) -> Code
    decreases n,
{
    if n == 0 {
        Seq::empty()
    } else {
        seq![Instr::LoadTemp(((si + n - 1) * 8) as i32), fixed(Line::PushRax)] + push_args(
            si,
            (n - 1) as nat,
        )
    }
}

/// The code of an expression `e`, in the environment `env` (names to offsets
/// from `rbp`) with the function table `funs`, where the temporaries start at
/// slot `si`, the label counter is `l`, and `brk` is the label that a `break`
/// jumps to: the code and the new label counter, or why there is none.
pub open spec fn spec_compile(
    e: ExprV,
    env: Map<Seq<char>, i32>,
    funs: Map<Seq<char>, usize>,
    si: i32,
    l: i32,
    brk: Option<Label>,
) -> Result<(Code, i32), Fault>
    decreases e,
{
    match e {
        ExprV::Num(n) => {
            Ok((seq![Instr::MovRaxImm((n * 2) as i64)], l))
        },
        ExprV::Bool(b) => Ok((seq![Instr::MovRaxImm(if b { 3 } else { 1 })], l)),
        ExprV::Input => Ok((seq![fixed(Line::MovRaxR15)], l)),
        ExprV::Id(name) => {
            if !env.contains_key(name) {
                Err(Fault::UnboundVariable(name))
            } else if env[name] == i32::MIN {
                Err(Fault::ArithmeticOverflow)
            } else {
                Ok((seq![Instr::LoadVar(env[name])], l))
            }
        },
        ExprV::UnOp(op, x) => match spec_compile(*x, env, funs, si, l, brk) {
            Ok((c, l1)) => Ok((c + unop_code(op), l1)),
            Err(f) => Err(f),
        },
        ExprV::BinOp(op, x, y) => match spec_compile(*x, env, funs, si, l, brk) {
            Ok((c1, l1)) => {
                if !fits(si * 8) || !fits(si + 1) {
                    Err(Fault::ArithmeticOverflow)
                } else {
                    let o = (si * 8) as i32;
                    match spec_compile(*y, env, funs, (si + 1) as i32, l1, brk) {
                        Ok((c2, l2)) => match spec_binop_code(op, o, l2) {
                            Ok((c3, l3)) => Ok((c1 + seq![Instr::SaveTemp(o)] + c2 + c3, l3)),
                            Err(f) => Err(f),
                        },
                        Err(f) => Err(f),
                    }
                }
            },
            Err(f) => Err(f),
        },
        ExprV::Let(bs, body) => match spec_compile_binds(
            bs,
            env,
            funs,
            si,
            l,
            brk,
            Seq::empty(),
        ) {
            Ok((c1, env1, si1, l1)) => match spec_compile(*body, env1, funs, si1, l1, brk) {
                Ok((c2, l2)) => Ok((c1 + c2, l2)),
                Err(f) => Err(f),
            },
            Err(f) => Err(f),
        },
        ExprV::If(c, t, f) => {
            if !fits(l + 2) {
                Err(Fault::ArithmeticOverflow)
            } else {
                let els = Label { kind: LabelKind::IfElse, id: l };
                let end = Label { kind: LabelKind::IfEnd, id: (l + 1) as i32 };
                match spec_compile(*c, env, funs, si, (l + 2) as i32, brk) {
                    Ok((cc, l1)) => match spec_compile(*t, env, funs, si, l1, brk) {
                        Ok((ct, l2)) => match spec_compile(*f, env, funs, si, l2, brk) {
                            Ok((cf, l3)) => Ok(
                                (
                                    cc + seq![fixed(Line::CmpRax1), Instr::JumpTo(Jump::Je, els)]
                                        + ct + seq![Instr::JumpTo(Jump::Jmp, end), Instr::Place(els)]
                                        + cf + seq![Instr::Place(end)],
                                    l3,
                                ),
                            ),
                            Err(x) => Err(x),
                        },
                        Err(x) => Err(x),
                    },
                    Err(x) => Err(x),
                }
            }
        },
        ExprV::Block(es) => {
            if es.len() == 0 {
                Ok((seq![Instr::Blank], l))
            } else {
                spec_compile_items(es, env, funs, si, l, brk)
            }
        },
        ExprV::Loop(body) => {
            if !fits(l + 2) {
                Err(Fault::ArithmeticOverflow)
            } else {
                let start = Label { kind: LabelKind::LoopStart, id: l };
                let end = Label { kind: LabelKind::LoopEnd, id: (l + 1) as i32 };
                match spec_compile(*body, env, funs, si, (l + 2) as i32, Some(end)) {
                    Ok((cb, l1)) => Ok(
                        (
                            seq![Instr::Place(start)] + cb + seq![
                                Instr::JumpTo(Jump::Jmp, start),
                                Instr::Place(end),
                            ],
                            l1,
                        ),
                    ),
                    Err(f) => Err(f),
                }
            }
        },
        ExprV::Break(x) => match brk {
            Some(target) => match spec_compile(*x, env, funs, si, l, brk) {
                Ok((c, l1)) => Ok((c + seq![Instr::JumpTo(Jump::Jmp, target)], l1)),
                Err(f) => Err(f),
            },
            None => Err(Fault::BreakOutsideLoop),
        },
        ExprV::Assign(name, x) => match spec_compile(*x, env, funs, si, l, brk) {
            Ok((c, l1)) => {
                if !env.contains_key(name) {
                    Err(Fault::UnboundVariable(name))
                } else if env[name] == i32::MIN {
                    Err(Fault::ArithmeticOverflow)
                } else {
                    Ok((c + seq![Instr::StoreVar(env[name])], l1))
                }
            },
            Err(f) => Err(f),
        },
        ExprV::Call(name, args) => {
            if !funs.contains_key(name) {
                Err(Fault::UndefinedFunction(name))
            } else if args.len() != funs[name] {
                Err(Fault::ArityMismatch(name, funs[name], args.len() as usize))
            } else {
                match spec_compile_args(args, env, funs, si, l, brk) {
                    Ok((c, l1)) => {
                        let n = args.len();
                        let align: int = if n % 2 != 0 { 8 } else { 0 };
                        let cleanup = n * 8 + align;
                        if cleanup > usize::MAX {
                            Err(Fault::ArithmeticOverflow)
                        } else {
                            Ok(
                                (
                                    c + (if align != 0 {
                                        seq![Instr::SubRsp(8)]
                                    } else {
                                        Seq::empty()
                                    }) + push_args(si, n) + seq![Instr::CallFun(name)] + (
                                    if cleanup != 0 {
                                        seq![Instr::AddRsp(cleanup as u64)]
                                    } else {
                                        Seq::empty()
                                    }),
                                    l1,
                                ),
                            )
                        }
                    },
                    Err(f) => Err(f),
                }
            }
        },
    }
}

/// The code of the bindings `bs` of a `let`, each saved in the next slot from
/// `si` and bound in the environment: the code, the environment and slot for
/// the body, and the label counter. `seen` holds the names bound before.
pub open spec fn spec_compile_binds(
    bs: Seq<(Seq<char>, ExprV)>,
    env: Map<Seq<char>, i32>,
    funs: Map<Seq<char>, usize>,
    si: i32,
    l: i32,
    brk: Option<Label>,
    seen: Seq<Seq<char>>,
) -> Result<(Code, Map<Seq<char>, i32>, i32, i32), Fault>
    decreases bs,
{
    if bs.len() == 0 {
        Ok((Seq::empty(), env, si, l))
    } else {
        let name = bs[0].0;
        if seen.contains(name) {
            Err(Fault::DuplicateBinding)
        } else {
            match spec_compile(bs[0].1, env, funs, si, l, brk) {
                Ok((c, l1)) => {
                    if !fits(si * 8) || !fits(-(si * 8)) || !fits(si + 1) {
                        Err(Fault::ArithmeticOverflow)
                    } else {
                        let o = (si * 8) as i32;
                        match spec_compile_binds(
                            bs.drop_first(),
                            env.insert(name, (-o) as i32),
                            funs,
                            (si + 1) as i32,
                            l1,
                            brk,
                            seen.push(name),
                        ) {
                            Ok((rest, env2, si2, l2)) => Ok(
                                (c + seq![Instr::SaveTemp(o)] + rest, env2, si2, l2),
                            ),
                            Err(f) => Err(f),
                        }
                    }
                },
                Err(f) => Err(f),
            }
        }
    }
}

/// The code of the expressions of a block, one after the other.
pub open spec fn spec_compile_items(
    es: Seq<ExprV>,
    env: Map<Seq<char>, i32>,
    funs: Map<Seq<char>, usize>,
    si: i32,
    l: i32,
    brk: Option<Label>,
) -> Result<(Code, i32), Fault>
    decreases es,
{
    if es.len() == 0 {
        Ok((Seq::empty(), l))
    } else {
        match spec_compile(es[0], env, funs, si, l, brk) {
            Ok((c, l1)) => match spec_compile_items(es.drop_first(), env, funs, si, l1, brk) {
                Ok((rest, l2)) => Ok((c + rest, l2)),
                Err(f) => Err(f),
            },
            Err(f) => Err(f),
        }
    }
}

/// The code of the arguments of a call, each saved in the next slot from
/// `si`.
pub open spec fn spec_compile_args(
    args: Seq<ExprV>,
    env: Map<Seq<char>, i32>,
    funs: Map<Seq<char>, usize>,
    si: i32,
    l: i32,
    brk: Option<Label>,
) -> Result<(Code, i32), Fault>
    decreases args,
{
    if args.len() == 0 {
        Ok((Seq::empty(), l))
    } else {
        match spec_compile(args[0], env, funs, si, l, brk) {
            Ok((c, l1)) => {
                if !fits(si * 8) || !fits(si + 1) {
                    Err(Fault::ArithmeticOverflow)
                } else {
                    match spec_compile_args(
                        args.drop_first(),
                        env,
                        funs,
                        (si + 1) as i32,
                        l1,
                        brk,
                    ) {
                        Ok((rest, l2)) => Ok(
                            (c + seq![Instr::SaveTemp((si * 8) as i32)] + rest, l2),
                        ),
                        Err(f) => Err(f),
                    }
                }
            },
            Err(f) => Err(f),
        }
    }
}

/// Appends one line.
fn emit(code: &mut Vec<Instr<String>>, i: Instr<String>)
    ensures
        instrs_view(final(code)@) == instrs_view(old(code)@).push(i@),
{
    code.push(i);
    assert(instrs_view(code@) =~= instrs_view(old(code)@).push(i@));
}

/// Appends the lines of `more`.
fn extend(code: &mut Vec<Instr<String>>, more: Vec<Instr<String>>)
    ensures
        instrs_view(final(code)@) == instrs_view(old(code)@) + instrs_view(more@),
{
    let ghost given = more@;
    let mut more = more;
    code.append(&mut more);
    assert(instrs_view(code@) =~= instrs_view(old(code)@) + instrs_view(given));
}

fn fixed_line(l: Line) -> (r: Instr<String>)
    ensures
        r@ == fixed(l),
{
    Instr::Fixed(l)
}

fn emit_check_num(code: &mut Vec<Instr<String>>)
    ensures
        instrs_view(final(code)@) == instrs_view(old(code)@) + check_num(),
{
    emit(code, fixed_line(Line::MovRbxRax));
    emit(code, fixed_line(Line::AndRbx1));
    emit(code, fixed_line(Line::CmpRbx0));
    emit(code, fixed_line(Line::JneInvalid));
    assert(instrs_view(code@) =~= instrs_view(old(code)@) + check_num());
}

fn emit_unop(code: &mut Vec<Instr<String>>, op: Op1)
    ensures
        instrs_view(final(code)@) == instrs_view(old(code)@) + unop_code(op),
{
    match op {
        Op1::Add1 => {
            emit_check_num(code);
            emit(code, fixed_line(Line::AddRax2));
            emit(code, fixed_line(Line::JoOverflow));
        },
        Op1::Sub1 => {
            emit_check_num(code);
            emit(code, fixed_line(Line::SubRax2));
            emit(code, fixed_line(Line::JoOverflow));
        },
        Op1::Negate => {
            emit_check_num(code);
            emit(code, fixed_line(Line::ImulRaxMinus1));
            emit(code, fixed_line(Line::JoOverflow));
        },
        Op1::IsNum => {
            emit(code, fixed_line(Line::AndRax1));
            emit(code, fixed_line(Line::ShlRax1));
            emit(code, fixed_line(Line::XorRax3));
        },
        Op1::IsBool => {
            emit(code, fixed_line(Line::AndRax1));
            emit(code, fixed_line(Line::ShlRax1));
            emit(code, fixed_line(Line::AddRax1));
        },
        Op1::Print => {
            emit(code, fixed_line(Line::MovRdiRax));
            emit(code, fixed_line(Line::CallSnekPrint));
        },
    }
    assert(instrs_view(code@) =~= instrs_view(old(code)@) + unop_code(op));
}

fn emit_check_nums(code: &mut Vec<Instr<String>>, o: i32)
    ensures
        instrs_view(final(code)@) == instrs_view(old(code)@) + check_nums(o),
{
    emit(code, fixed_line(Line::MovRbxRax));
    emit(code, Instr::OrTemp(o));
    emit(code, fixed_line(Line::TestRbx1));
    emit(code, fixed_line(Line::JnzInvalid));
    assert(instrs_view(code@) =~= instrs_view(old(code)@) + check_nums(o));
}

fn emit_select(code: &mut Vec<Instr<String>>, t: Label, end: Label)
    ensures
        instrs_view(final(code)@) == instrs_view(old(code)@) + select_code(t, end),
{
    emit(code, Instr::MovRaxImm(1));
    emit(code, Instr::JumpTo(Jump::Jmp, end));
    emit(code, Instr::Place(t));
    emit(code, Instr::MovRaxImm(3));
    emit(code, Instr::Place(end));
    assert(instrs_view(code@) =~= instrs_view(old(code)@) + select_code(t, end));
}

/// A fresh label of the given kind: the number `*l`, which then goes up by
/// one.
pub fn new_label(l: &mut i32, kind: LabelKind) -> (r: Label)
    requires
        *old(l) < i32::MAX,
    ensures
        r == (Label { kind, id: *old(l) }),
        *final(l) == *old(l) + 1,
{
    let current = *l;
    *l = *l + 1;
    Label { kind, id: current }
}

/// Fails with `ArithmeticOverflow` where two more labels do not fit the
/// counter `l`.
fn room_for_two_labels(l: i32) -> (r: Result<(), CompileError<String>>)
    ensures
        r is Ok <==> fits(l + 2),
        r matches Err(x) ==> x == CompileError::<String>::ArithmeticOverflow,
{
    if l > i32::MAX - 2 {
        Err(CompileError::ArithmeticOverflow)
    } else {
        Ok(())
    }
}

fn emit_binop(code: &mut Vec<Instr<String>>, op: Op2, o: i32, l: &mut i32) -> (r: Result<
    (),
    CompileError<String>,
>)
    ensures
        match spec_binop_code(op, o, *old(l)) {
            Ok((c, l2)) => r is Ok && instrs_view(final(code)@) == instrs_view(old(code)@) + c
                && *final(l) == l2,
            Err(f) => r matches Err(x) && x@ == f,
        },
{
    match op {
        Op2::Plus => {
            emit_check_nums(code, o);
            emit(code, Instr::AddTemp(o));
            emit(code, fixed_line(Line::JoOverflow));
        },
        Op2::Minus => {
            emit_check_nums(code, o);
            emit(code, fixed_line(Line::MovR8Rax));
            emit(code, Instr::LoadTemp(o));
            emit(code, fixed_line(Line::SubRaxR8));
            emit(code, fixed_line(Line::JoOverflow));
        },
        Op2::Times => {
            emit_check_nums(code, o);
            emit(code, fixed_line(Line::MovR8Rax));
            emit(code, Instr::LoadTemp(o));
            emit(code, fixed_line(Line::SarRax1));
            emit(code, fixed_line(Line::ImulRaxR8));
            emit(code, fixed_line(Line::JoOverflow));
        },
        Op2::Equal => {
            room_for_two_labels(*l)?;
            let t = new_label(l, LabelKind::CmpTrue);
            let end = new_label(l, LabelKind::CmpEnd);
            emit(code, fixed_line(Line::MovR8Rax));
            emit(code, Instr::LoadR9Temp(o));
            emit(code, fixed_line(Line::MovR10R8));
            emit(code, fixed_line(Line::XorR10R9));
            emit(code, fixed_line(Line::TestR10One));
            emit(code, fixed_line(Line::JnzInvalid));
            emit(code, fixed_line(Line::CmpR9R8));
            emit(code, Instr::JumpTo(Jump::Je, t));
            emit_select(code, t, end);
        },
        _ => {
            room_for_two_labels(*l)?;
            let t = new_label(l, LabelKind::CmpTrue);
            let end = new_label(l, LabelKind::CmpEnd);
            let j = match op {
                Op2::Less => Jump::Jl,
                Op2::Greater => Jump::Jg,
                Op2::LessEq => Jump::Jle,
                _ => Jump::Jge,
            };
            emit_check_nums(code, o);
            emit(code, fixed_line(Line::MovR8Rax));
            emit(code, Instr::LoadTemp(o));
            emit(code, fixed_line(Line::CmpRaxR8));
            emit(code, Instr::JumpTo(j, t));
            emit_select(code, t, end);
        },
    }
    proof {
        match spec_binop_code(op, o, *old(l)) {
            Ok((c, l2)) => {
                assert(instrs_view(code@) =~= instrs_view(old(code)@) + c);
            },
            Err(f) => {},
        }
    }
    Ok(())
}

fn single(i: Instr<String>) -> (r: Vec<Instr<String>>)
    ensures
        instrs_view(r@) == seq![i@],
{
    let mut v: Vec<Instr<String>> = Vec::new();
    v.push(i);
    assert(instrs_view(v@) =~= seq![i@]);
    v
}

/// The code of an expression, or the error that it is compiled to (see
/// [`spec_compile`]): `env` gives the offset
/// from `rbp` of each variable, `funs` the number of parameters of each
/// function, `si` the first free temporary slot, `*l` the label counter and
/// `break_target` the label that `break` jumps to.
pub fn checked_compile_expr(
    e: &Expr,
    env: &im::HashMap<String, i32>,
    funs: &im::HashMap<String, usize>,
    si: i32,
    l: &mut i32,
    break_target: &Option<Label>,
) -> (r: Result<Vec<Instr<String>>, CompileError<String>>)
    ensures
        match spec_compile(e@, slots(*env), arities(*funs), si, *old(l), *break_target) {
            Ok((c, l2)) => r matches Ok(v) && instrs_view(v@) == c && *final(l) == l2,
            Err(f) => r matches Err(x) && x@ == f,
        },
    decreases *e, 1nat,
{
    match e {
        Expr::Num(n) => {
            Ok(single(Instr::MovRaxImm((*n as i64) * 2)))
        },
        Expr::Bool(b) => Ok(single(Instr::MovRaxImm(if *b { 3 } else { 1 }))),
        Expr::Input => Ok(single(fixed_line(Line::MovRaxR15))),
        Expr::Id(name) => match slots_get(env, name) {
            Some(o) => {
                if o == i32::MIN {
                    Err(CompileError::ArithmeticOverflow)
                } else {
                    Ok(single(Instr::LoadVar(o)))
                }
            },
            None => Err(CompileError::UnboundVariable(name.clone())),
        },
        Expr::UnOp(op, x) => {
            let mut code = checked_compile_expr(x, env, funs, si, l, break_target)?;
            emit_unop(&mut code, *op);
            Ok(code)
        },
        Expr::BinOp(op, x, y) => {
            let mut code = checked_compile_expr(x, env, funs, si, l, break_target)?;
            if si < i32::MIN / 8 || si > i32::MAX / 8 {
                return Err(CompileError::ArithmeticOverflow);
            }
            let o = si * 8;
            emit(&mut code, Instr::SaveTemp(o));
            let c2 = checked_compile_expr(y, env, funs, si + 1, l, break_target)?;
            extend(&mut code, c2);
            emit_binop(&mut code, *op, o, l)?;
            Ok(code)
        },
        Expr::Let(binds, body) => {
            let (mut code, current_env, current_si) = compile_binds(binds, env, funs, si, l, break_target)?;
            let cb = checked_compile_expr(body, &current_env, funs, current_si, l, break_target)?;
            extend(&mut code, cb);
            Ok(code)
        },
        Expr::If(c, t, f) => {
            room_for_two_labels(*l)?;
            let els = new_label(l, LabelKind::IfElse);
            let end = new_label(l, LabelKind::IfEnd);
            let mut code = checked_compile_expr(c, env, funs, si, l, break_target)?;
            emit(&mut code, fixed_line(Line::CmpRax1));
            emit(&mut code, Instr::JumpTo(Jump::Je, els));
            let ct = checked_compile_expr(t, env, funs, si, l, break_target)?;
            extend(&mut code, ct);
            emit(&mut code, Instr::JumpTo(Jump::Jmp, end));
            emit(&mut code, Instr::Place(els));
            let cf = checked_compile_expr(f, env, funs, si, l, break_target)?;
            extend(&mut code, cf);
            emit(&mut code, Instr::Place(end));
            Ok(code)
        },
        Expr::Block(es) => {
            proof {
                lemma_exprs_view(es@);
            }
            if es.len() == 0 {
                return Ok(single(Instr::Blank));
            }
            compile_items(es, env, funs, si, l, break_target)
        },
        Expr::Loop(body) => {
            room_for_two_labels(*l)?;
            let start = new_label(l, LabelKind::LoopStart);
            let end = new_label(l, LabelKind::LoopEnd);
            let cb = checked_compile_expr(body, env, funs, si, l, &Some(end))?;
            let mut code = single(Instr::Place(start));
            extend(&mut code, cb);
            emit(&mut code, Instr::JumpTo(Jump::Jmp, start));
            emit(&mut code, Instr::Place(end));
            Ok(code)
        },
        Expr::Break(x) => match break_target {
            Some(target) => {
                let mut code = checked_compile_expr(x, env, funs, si, l, break_target)?;
                emit(&mut code, Instr::JumpTo(Jump::Jmp, *target));
                Ok(code)
            },
            None => Err(CompileError::BreakOutsideLoop),
        },
        Expr::Assign(name, x) => {
            let mut code = checked_compile_expr(x, env, funs, si, l, break_target)?;
            match slots_get(env, name) {
                Some(o) => {
                    if o == i32::MIN {
                        return Err(CompileError::ArithmeticOverflow);
                    }
                    emit(&mut code, Instr::StoreVar(o));
                    Ok(code)
                },
                None => Err(CompileError::UnboundVariable(name.clone())),
            }
        },
        Expr::Call(name, args) => {
            let arity = match arities_get(funs, name) {
                Some(a) => a,
                None => {
                    return Err(CompileError::UndefinedFunction(name.clone()));
                },
            };
            let n = args.len();
            proof {
                lemma_exprs_view(args@);
            }
            if n != arity {
                return Err(CompileError::ArityMismatch(name.clone(), arity, n));
            }
            let mut code = compile_args(args, env, funs, si, l, break_target)?;
            emit_call(&mut code, name, si, n)?;
            Ok(code)
        },
    }
}

/// The code of the bindings of a `let` (see [`spec_compile_binds`]), with the
/// environment and the first free slot for its body.
fn compile_binds(
    binds: &Vec<(String, Expr)>,
    env: &im::HashMap<String, i32>,
    funs: &im::HashMap<String, usize>,
    si: i32,
    l: &mut i32,
    break_target: &Option<Label>,
) -> (r: Result<(Vec<Instr<String>>, im::HashMap<String, i32>, i32), CompileError<String>>)
    ensures
        match spec_compile_binds(
            binds_view(binds@),
            slots(*env),
            arities(*funs),
            si,
            *old(l),
            *break_target,
            Seq::empty(),
        ) {
            Ok((c, env2, si2, l2)) => r matches Ok((v, m, s2)) && instrs_view(v@) == c && slots(m)
                == env2 && s2 == si2 && *final(l) == l2,
            Err(f) => r matches Err(x) && x@ == f,
        },
    decreases binds@, 0nat,
{
    let ghost bsv = binds_view(binds@);
    proof {
        lemma_binds_view(binds@);
        assert(bsv.skip(0) =~= bsv);
        assert(instrs_view(Seq::<Instr<String>>::empty()) =~= Seq::<Instr<Seq<char>>>::empty());
    }
    let mut current_env = slots_clone(env);
    let mut current_si = si;
    let mut code: Vec<Instr<String>> = Vec::new();
    let mut seen: Vec<String> = Vec::new();
    let mut i: usize = 0;
    assert(names_view_of(seen@) =~= Seq::<Seq<char>>::empty());
    while i < binds.len()
        invariant
            i <= binds@.len(),
            bsv == binds_view(binds@),
            bsv.len() == binds@.len(),
            forall|j: int| 0 <= j < binds@.len() ==> #[trigger] bsv[j] == (binds@[j].0@, binds@[j].1@),
            spec_compile_binds(
                bsv,
                slots(*env),
                arities(*funs),
                si,
                *old(l),
                *break_target,
                Seq::empty(),
            ) == match spec_compile_binds(
                bsv.skip(i as int),
                slots(current_env),
                arities(*funs),
                current_si,
                *l,
                *break_target,
                names_view_of(seen@),
            ) {
                Ok((c, e2, s2, l2)) => Ok((instrs_view(code@) + c, e2, s2, l2)),
                Err(f) => Err(f),
            },
        decreases binds@.len() - i,
    {
        let ghost rest = bsv.skip(i as int);
        assert(rest[0] == bsv[i as int]);
        assert(rest.drop_first() =~= bsv.skip(i + 1));
        let name = &binds[i].0;
        let val = &binds[i].1;
        if contains_name(&seen, name) {
            return Err(CompileError::DuplicateBinding);
        }
        let ghost before = instrs_view(code@);
        let c = checked_compile_expr(val, &current_env, funs, current_si, l, break_target)?;
        let ghost cv = instrs_view(c@);
        if current_si <= i32::MIN / 8 || current_si > i32::MAX / 8 {
            return Err(CompileError::ArithmeticOverflow);
        }
        let o = current_si * 8;
        extend(&mut code, c);
        emit(&mut code, Instr::SaveTemp(o));
        current_env = slots_update(&current_env, name.clone(), -o);
        let ghost seen_before = seen@;
        seen.push(name.clone());
        assert(names_view_of(seen@) =~= names_view_of(seen_before).push(name@));
        current_si = current_si + 1;
        proof {
            match spec_compile_binds(
                bsv.skip(i + 1),
                slots(current_env),
                arities(*funs),
                current_si,
                *l,
                *break_target,
                names_view_of(seen@),
            ) {
                Ok((c2, e2, s2, l2)) => {
                    assert(before + (cv + seq![Instr::SaveTemp(o)] + c2) =~= instrs_view(code@)
                        + c2);
                },
                Err(f) => {},
            }
        }
        i = i + 1;
    }
    assert(bsv.skip(i as int) =~= Seq::<(Seq<char>, ExprV)>::empty());
    assert(instrs_view(code@) + Seq::<Instr<Seq<char>>>::empty() =~= instrs_view(code@));
    Ok((code, current_env, current_si))
}

/// The code of the expressions of a block, one after the other (see
/// [`spec_compile_items`]).
fn compile_items(
    es: &Vec<Expr>,
    env: &im::HashMap<String, i32>,
    funs: &im::HashMap<String, usize>,
    si: i32,
    l: &mut i32,
    break_target: &Option<Label>,
) -> (r: Result<Vec<Instr<String>>, CompileError<String>>)
    ensures
        match spec_compile_items(exprs_view(es@), slots(*env), arities(*funs), si, *old(l), *break_target) {
            Ok((c, l2)) => r matches Ok(v) && instrs_view(v@) == c && *final(l) == l2,
            Err(f) => r matches Err(x) && x@ == f,
        },
    decreases es@, 0nat,
{
    let ghost esv = exprs_view(es@);
    proof {
        lemma_exprs_view(es@);
        assert(esv.skip(0) =~= esv);
        assert(instrs_view(Seq::<Instr<String>>::empty()) =~= Seq::<Instr<Seq<char>>>::empty());
    }
    let mut code: Vec<Instr<String>> = Vec::new();
    let mut i: usize = 0;
    while i < es.len()
        invariant
            i <= es@.len(),
            esv == exprs_view(es@),
            esv.len() == es@.len(),
            forall|j: int| 0 <= j < es@.len() ==> #[trigger] esv[j] == es@[j]@,
            spec_compile_items(esv, slots(*env), arities(*funs), si, *old(l), *break_target)
                == match spec_compile_items(
                esv.skip(i as int),
                slots(*env),
                arities(*funs),
                si,
                *l,
                *break_target,
            ) {
                Ok((c, l2)) => Ok((instrs_view(code@) + c, l2)),
                Err(f) => Err(f),
            },
        decreases es@.len() - i,
    {
        let ghost rest = esv.skip(i as int);
        assert(rest[0] == esv[i as int]);
        assert(rest.drop_first() =~= esv.skip(i + 1));
        let ghost before = instrs_view(code@);
        let c = checked_compile_expr(&es[i], env, funs, si, l, break_target)?;
        let ghost cv = instrs_view(c@);
        extend(&mut code, c);
        proof {
            match spec_compile_items(
                esv.skip(i + 1),
                slots(*env),
                arities(*funs),
                si,
                *l,
                *break_target,
            ) {
                Ok((c2, l2)) => {
                    assert(before + (cv + c2) =~= instrs_view(code@) + c2);
                },
                Err(f) => {},
            }
        }
        i = i + 1;
    }
    assert(esv.skip(i as int) =~= Seq::<ExprV>::empty());
    assert(instrs_view(code@) + Seq::<Instr<Seq<char>>>::empty() =~= instrs_view(code@));
    Ok(code)
}

/// The code of the arguments of a call, each saved in the next slot (see
/// [`spec_compile_args`]).
fn compile_args(
    args: &Vec<Expr>,
    env: &im::HashMap<String, i32>,
    funs: &im::HashMap<String, usize>,
    si: i32,
    l: &mut i32,
    break_target: &Option<Label>,
) -> (r: Result<Vec<Instr<String>>, CompileError<String>>)
    ensures
        match spec_compile_args(exprs_view(args@), slots(*env), arities(*funs), si, *old(l), *break_target) {
            Ok((c, l2)) => r matches Ok(v) && instrs_view(v@) == c && *final(l) == l2 && (args@.len()
                > 0 ==> (si + args@.len() - 1) * 8 <= i32::MAX),
            Err(f) => r matches Err(x) && x@ == f,
        },
    decreases args@, 0nat,
{
    let ghost argsv = exprs_view(args@);
    proof {
        lemma_exprs_view(args@);
        assert(argsv.skip(0) =~= argsv);
        assert(instrs_view(Seq::<Instr<String>>::empty()) =~= Seq::<Instr<Seq<char>>>::empty());
    }
    let n = args.len();
    let mut code: Vec<Instr<String>> = Vec::new();
    let mut current_si = si;
    let mut i: usize = 0;
    while i < n
        invariant
            n == args@.len(),
            i <= n,
            current_si == si + i,
            i > 0 ==> (si + i - 1) * 8 <= i32::MAX,
            argsv == exprs_view(args@),
            argsv.len() == args@.len(),
            forall|j: int| 0 <= j < args@.len() ==> #[trigger] argsv[j] == args@[j]@,
            spec_compile_args(argsv, slots(*env), arities(*funs), si, *old(l), *break_target)
                == match spec_compile_args(
                argsv.skip(i as int),
                slots(*env),
                arities(*funs),
                current_si,
                *l,
                *break_target,
            ) {
                Ok((c, l2)) => Ok((instrs_view(code@) + c, l2)),
                Err(f) => Err(f),
            },
        decreases n - i,
    {
        let ghost rest = argsv.skip(i as int);
        assert(rest[0] == argsv[i as int]);
        assert(rest.drop_first() =~= argsv.skip(i + 1));
        let ghost before = instrs_view(code@);
        let c = checked_compile_expr(&args[i], env, funs, current_si, l, break_target)?;
        let ghost cv = instrs_view(c@);
        if current_si < i32::MIN / 8 || current_si > i32::MAX / 8 {
            return Err(CompileError::ArithmeticOverflow);
        }
        let o = current_si * 8;
        extend(&mut code, c);
        emit(&mut code, Instr::SaveTemp(o));
        current_si = current_si + 1;
        proof {
            match spec_compile_args(
                argsv.skip(i + 1),
                slots(*env),
                arities(*funs),
                current_si,
                *l,
                *break_target,
            ) {
                Ok((c2, l2)) => {
                    assert(before + (cv + seq![Instr::SaveTemp(o)] + c2) =~= instrs_view(code@)
                        + c2);
                },
                Err(f) => {},
            }
        }
        i = i + 1;
    }
    assert(argsv.skip(i as int) =~= Seq::<ExprV>::empty());
    assert(instrs_view(code@) + Seq::<Instr<Seq<char>>>::empty() =~= instrs_view(code@));
    Ok(code)
}

/// The tail of a call of `name` with `n` arguments saved from slot `si`: the
/// stack alignment, the pushes of the arguments, the call and the cleanup.
fn emit_call(code: &mut Vec<Instr<String>>, name: &String, si: i32, n: usize) -> (r: Result<
    (),
    CompileError<String>,
>)
    requires
        n > 0 ==> i32::MIN <= si * 8,
        n > 0 ==> (si + n - 1) * 8 <= i32::MAX,
    ensures
        ({
            let align: int = if n % 2 != 0 { 8 } else { 0 };
            let cleanup = n * 8 + align;
            if cleanup > usize::MAX {
                r matches Err(x) && x@ == Fault::ArithmeticOverflow
            } else {
                r is Ok && instrs_view(final(code)@) == instrs_view(old(code)@) + (if align != 0 {
                    seq![Instr::SubRsp(8)]
                } else {
                    Seq::empty()
                }) + push_args(si, n as nat) + seq![Instr::CallFun(name@)] + (if cleanup != 0 {
                    seq![Instr::AddRsp(cleanup as u64)]
                } else {
                    Seq::empty()
                })
            }
        }),
{
    let alignment: usize = if n % 2 != 0 { 8 } else { 0 };
    if alignment != 0 {
        emit(code, Instr::SubRsp(8));
    }
    let ghost aligned = instrs_view(code@);
    let mut k: usize = n;
    assert(aligned + push_args(si, n as nat) =~= instrs_view(code@) + push_args(si, k as nat));
    while k > 0
        invariant
            k <= n,
            n > 0 ==> i32::MIN <= si * 8,
            n > 0 ==> (si + n - 1) * 8 <= i32::MAX,
            aligned + push_args(si, n as nat) == instrs_view(code@) + push_args(si, k as nat),
        decreases k,
    {
        k = k - 1;
        let ghost before = instrs_view(code@);
        let slot = si + k as i32;
        emit(code, Instr::LoadTemp(slot * 8));
        emit(code, fixed_line(Line::PushRax));
        assert(before + push_args(si, (k + 1) as nat) =~= instrs_view(code@) + push_args(
            si,
            k as nat,
        ));
    }
    assert(instrs_view(code@) + push_args(si, 0) =~= instrs_view(code@));
    let ghost pushed = instrs_view(code@);
    emit(code, Instr::CallFun(name.clone()));
    if n > (usize::MAX - alignment) / 8 {
        return Err(CompileError::ArithmeticOverflow);
    }
    let cleanup = n * 8 + alignment;
    if cleanup != 0 {
        emit(code, Instr::AddRsp(cleanup as u64));
    }
    proof {
        let align: int = if n % 2 != 0 { 8 } else { 0 };
        assert(instrs_view(code@) =~= instrs_view(old(code)@) + (if align != 0 {
            seq![Instr::SubRsp(8)]
        } else {
            Seq::empty()
        }) + push_args(si, n as nat) + seq![Instr::CallFun(name@)] + (if cleanup != 0 {
            seq![Instr::AddRsp(cleanup as u64)]
        } else {
            Seq::empty()
        }));
    }
    Ok(())
}

/// The number of temporary slots, from the first free one, that the code of
/// an expression uses (one fewer where a call's last argument is saved).
pub open spec fn spec_max_locals(e: ExprV) -> int
    decreases e,
{
    match e {
        ExprV::Num(_) => 0,
        ExprV::Bool(_) => 0,
        ExprV::Input => 0,
        ExprV::Id(_) => 0,
        ExprV::UnOp(_, x) => spec_max_locals(*x),
        ExprV::BinOp(_, x, y) => larger(spec_max_locals(*x), spec_max_locals(*y) + 1),
        ExprV::Let(bs, body) => larger(max_locals_binds(bs, 0), spec_max_locals(*body) + bs.len()),
        ExprV::If(c, t, f) => larger(
            spec_max_locals(*c),
            larger(spec_max_locals(*t), spec_max_locals(*f)),
        ),
        ExprV::Block(es) => max_locals_block(es),
        ExprV::Loop(x) => spec_max_locals(*x),
        ExprV::Break(x) => spec_max_locals(*x),
        ExprV::Assign(_, x) => spec_max_locals(*x),
        ExprV::Call(_, args) => max_locals_args(args, 0),
    }
}

/// The largest `spec_max_locals(bs[j].1) + k + j`, or 0.
pub open spec fn max_locals_binds(bs: Seq<(Seq<char>, ExprV)>, k: int) -> int
    decreases bs,
{
    if bs.len() == 0 {
        0
    } else {
        larger(spec_max_locals(bs[0].1) + k, max_locals_binds(bs.drop_first(), k + 1))
    }
}

/// The largest `spec_max_locals(args[j]) + k + j`, or 0.
pub open spec fn max_locals_args(args: Seq<ExprV>, k: int) -> int
    decreases args,
{
    if args.len() == 0 {
        0
    } else {
        larger(spec_max_locals(args[0]) + k, max_locals_args(args.drop_first(), k + 1))
    }
}

/// The largest `spec_max_locals(es[j])`, or 0.
pub open spec fn max_locals_block(es: Seq<ExprV>) -> int
    decreases es,
{
    if es.len() == 0 {
        0
    } else {
        larger(spec_max_locals(es[0]), max_locals_block(es.drop_first()))
    }
}

/// [`spec_max_locals`] is never negative.
pub proof fn lemma_max_locals_nonneg(e: ExprV)
    ensures
        spec_max_locals(e) >= 0,
    decreases e,
{
    match e {
        ExprV::UnOp(_, x) => lemma_max_locals_nonneg(*x),
        ExprV::BinOp(_, x, y) => lemma_max_locals_nonneg(*x),
        ExprV::Let(bs, body) => lemma_max_locals_binds_nonneg(bs, 0),
        ExprV::If(c, t, f) => lemma_max_locals_nonneg(*c),
        ExprV::Block(es) => lemma_max_locals_block_nonneg(es),
        ExprV::Loop(x) => lemma_max_locals_nonneg(*x),
        ExprV::Break(x) => lemma_max_locals_nonneg(*x),
        ExprV::Assign(_, x) => lemma_max_locals_nonneg(*x),
        ExprV::Call(_, args) => lemma_max_locals_args_nonneg(args, 0),
        _ => {},
    }
}

proof fn lemma_max_locals_binds_nonneg(bs: Seq<(Seq<char>, ExprV)>, k: int)
    ensures
        max_locals_binds(bs, k) >= 0,
    decreases bs.len(),
{
    if bs.len() > 0 {
        lemma_max_locals_binds_nonneg(bs.drop_first(), k + 1);
    }
}

proof fn lemma_max_locals_args_nonneg(args: Seq<ExprV>, k: int)
    ensures
        max_locals_args(args, k) >= 0,
    decreases args.len(),
{
    if args.len() > 0 {
        lemma_max_locals_args_nonneg(args.drop_first(), k + 1);
    }
}

proof fn lemma_max_locals_block_nonneg(es: Seq<ExprV>)
    ensures
        max_locals_block(es) >= 0,
    decreases es.len(),
{
    if es.len() > 0 {
        lemma_max_locals_block_nonneg(es.drop_first());
    }
}

/// The number of temporary slots that an expression's code uses, as
/// [`spec_max_locals`]; `None` where that number is beyond `i32::MAX`.
pub fn checked_max_locals(e: &Expr) -> (r: Option<i32>)
    ensures
        match r {
            Some(v) => v == spec_max_locals(e@),
            None => spec_max_locals(e@) > i32::MAX,
        },
    decreases *e, 1nat,
{
    proof {
        lemma_max_locals_nonneg(e@);
    }
    match e {
        Expr::Num(_) => Some(0),
        Expr::Bool(_) => Some(0),
        Expr::Input => Some(0),
        Expr::Id(_) => Some(0),
        Expr::UnOp(_, x) => checked_max_locals(x),
        Expr::BinOp(_, x, y) => {
            let a = checked_max_locals(x)?;
            let b = checked_max_locals(y)?;
            if b == i32::MAX {
                return None;
            }
            Some(if a >= b + 1 { a } else { b + 1 })
        },
        Expr::Let(binds, body) => {
            let m = max_locals_of_binds(binds)?;
            proof {
                lemma_max_locals_nonneg(body@);
                lemma_binds_view(binds@);
            }
            let b = checked_max_locals(body)?;
            let n = binds.len();
            if n > i32::MAX as usize || b > i32::MAX - n as i32 {
                return None;
            }
            let t = b + n as i32;
            Some(if m >= t { m } else { t })
        },
        Expr::If(c, t, f) => {
            let a = checked_max_locals(c)?;
            let b = checked_max_locals(t)?;
            let d = checked_max_locals(f)?;
            let bd = if b >= d { b } else { d };
            Some(if a >= bd { a } else { bd })
        },
        Expr::Block(es) => max_locals_of_list(es, false),
        Expr::Loop(x) => checked_max_locals(x),
        Expr::Break(x) => checked_max_locals(x),
        Expr::Assign(_, x) => checked_max_locals(x),
        Expr::Call(_, args) => max_locals_of_list(args, true),
    }
}

fn max_locals_of_binds(binds: &Vec<(String, Expr)>) -> (r: Option<i32>)
    ensures
        match r {
            Some(v) => v == max_locals_binds(binds_view(binds@), 0),
            None => max_locals_binds(binds_view(binds@), 0) > i32::MAX,
        },
    decreases binds@, 0nat,
{
    let ghost bsv = binds_view(binds@);
    proof {
        lemma_binds_view(binds@);
        assert(bsv.skip(0) =~= bsv);
        lemma_max_locals_binds_nonneg(bsv, 0);
    }
    let mut m: i32 = 0;
    let mut i: usize = 0;
    while i < binds.len()
        invariant
            i <= binds@.len(),
            0 <= m,
            bsv == binds_view(binds@),
            bsv.len() == binds@.len(),
            forall|j: int| 0 <= j < binds@.len() ==> #[trigger] bsv[j] == (binds@[j].0@, binds@[j].1@),
            max_locals_binds(bsv, 0) == larger(m as int, max_locals_binds(bsv.skip(i as int), i as int)),
        decreases binds@.len() - i,
    {
        let ghost rest = bsv.skip(i as int);
        assert(rest[0] == bsv[i as int]);
        assert(rest.drop_first() =~= bsv.skip(i + 1));
        proof {
            lemma_max_locals_binds_nonneg(bsv.skip(i + 1), i + 1);
        }
        let v = checked_max_locals(&binds[i].1)?;
        proof {
            lemma_max_locals_nonneg(binds@[i as int].1@);
            assert(max_locals_binds(bsv.skip(i as int), i as int) >= v + i);
        }
        if i > i32::MAX as usize || v > i32::MAX - i as i32 {
            return None;
        }
        let t = v + i as i32;
        if t > m {
            m = t;
        }
        i = i + 1;
    }
    Some(m)
}

fn max_locals_of_list(es: &Vec<Expr>, offset: bool) -> (r: Option<i32>)
    ensures
        ({
            let total = if offset {
                max_locals_args(exprs_view(es@), 0)
            } else {
                max_locals_block(exprs_view(es@))
            };
            match r {
                Some(v) => v == total,
                None => total > i32::MAX,
            }
        }),
    decreases es@, 0nat,
{
    let ghost esv = exprs_view(es@);
    proof {
        lemma_exprs_view(es@);
        assert(esv.skip(0) =~= esv);
        lemma_max_locals_args_nonneg(esv, 0);
        lemma_max_locals_block_nonneg(esv);
    }
    let mut m: i32 = 0;
    let mut i: usize = 0;
    while i < es.len()
        invariant
            i <= es@.len(),
            0 <= m,
            esv == exprs_view(es@),
            esv.len() == es@.len(),
            forall|j: int| 0 <= j < es@.len() ==> #[trigger] esv[j] == es@[j]@,
            offset ==> max_locals_args(esv, 0) == larger(
                m as int,
                max_locals_args(esv.skip(i as int), i as int),
            ),
            !offset ==> max_locals_block(esv) == larger(m as int, max_locals_block(esv.skip(i as int))),
        decreases es@.len() - i,
    {
        let ghost rest = esv.skip(i as int);
        assert(rest[0] == esv[i as int]);
        assert(rest.drop_first() =~= esv.skip(i + 1));
        proof {
            lemma_max_locals_args_nonneg(esv.skip(i + 1), i + 1);
            lemma_max_locals_block_nonneg(esv.skip(i + 1));
        }
        let v = checked_max_locals(&es[i])?;
        proof {
            lemma_max_locals_nonneg(es@[i as int]@);
            if offset {
                assert(max_locals_args(esv.skip(i as int), i as int) >= v + i);
            }
        }
        let t = if offset {
            if i > i32::MAX as usize || v > i32::MAX - i as i32 {
                return None;
            }
            v + i as i32
        } else {
            v
        };
        if t > m {
            m = t;
        }
        i = i + 1;
    }
    Some(m)
}

/// The number of 8-byte slots of a frame whose body is `e`: one more than
/// the temporaries it uses, rounded up to an even number (which keeps `rsp`
/// 16-byte aligned).
pub open spec fn spec_frame_slots(e: ExprV) -> Result<int, Fault> {
    let n = spec_max_locals(e) + 1;
    if n > i32::MAX {
        Err(Fault::ArithmeticOverflow)
    } else if n % 2 != 0 {
        if n + 1 > i32::MAX {
            Err(Fault::ArithmeticOverflow)
        } else {
            Ok(n + 1)
        }
    } else {
        Ok(n)
    }
}

/// The line that reserves a frame of `n` slots, where `n > 0`.
pub open spec fn frame_lines(n: int) -> Seq<Seq<char>> {
    if n > 0 {
        seq!["sub rsp, "@ + decimal(n * 8)]
    } else {
        Seq::empty()
    }
}

/// The offset of each parameter from `rbp`: `ps[j]` at `16 + 8 * (k + j)`,
/// later ones replacing earlier ones of the same name.
pub open spec fn spec_param_slots(ps: Seq<Seq<char>>, k: int, env: Map<Seq<char>, i32>) -> Result<
    Map<Seq<char>, i32>,
    Fault,
>
    decreases ps.len(),
{
    if ps.len() == 0 {
        Ok(env)
    } else if 16 + k * 8 > i32::MAX {
        Err(Fault::ArithmeticOverflow)
    } else {
        spec_param_slots(ps.drop_first(), k + 1, env.insert(ps[0], (16 + k * 8) as i32))
    }
}

/// The text of a function, with the label counter `l`: the text and the new
/// counter.
pub open spec fn spec_compile_defn(
    d: DefinitionV,
    funs: Map<Seq<char>, usize>,
    l: i32,
) -> Result<(Seq<char>, i32), Fault> {
    match spec_param_slots(d.params, 0, Map::empty()) {
        Ok(env) => match spec_frame_slots(d.body) {
            Ok(n) => {
                if n > 0 && n * 8 > i32::MAX {
                    Err(Fault::ArithmeticOverflow)
                } else {
                    match spec_compile(d.body, env, funs, 1, l, None) {
                        Ok((code, l2)) => Ok(
                            (
                                joined(
                                    seq!["fun_"@ + d.name + ":"@, "push rbp"@, "mov rbp, rsp"@]
                                        + frame_lines(n) + seq![
                                        code_text(code),
                                        "mov rsp, rbp"@,
                                        "pop rbp"@,
                                        "ret"@,
                                    ],
                                    "\n  "@,
                                ),
                                l2,
                            ),
                        ),
                        Err(f) => Err(f),
                    }
                }
            },
            Err(f) => Err(f),
        },
        Err(f) => Err(f),
    }
}

fn frame_slots(e: &Expr) -> (r: Result<i32, CompileError<String>>)
    ensures
        match spec_frame_slots(e@) {
            Ok(n) => r matches Ok(v) && v == n,
            Err(f) => r matches Err(x) && x@ == f,
        },
{
    let m = match checked_max_locals(e) {
        Some(m) => m,
        None => {
            return Err(CompileError::ArithmeticOverflow);
        },
    };
    if m == i32::MAX {
        return Err(CompileError::ArithmeticOverflow);
    }
    let n = m + 1;
    if n % 2 != 0 {
        if n == i32::MAX {
            return Err(CompileError::ArithmeticOverflow);
        }
        Ok(n + 1)
    } else {
        Ok(n)
    }
}

/// Pushes the line that reserves a frame of `n` slots, where `n > 0`.
fn push_frame_line(pieces: &mut Vec<String>, n: i32) -> (r: Result<(), CompileError<String>>)
    ensures
        n > 0 && n * 8 > i32::MAX ==> (r matches Err(x) && x@ == Fault::ArithmeticOverflow),
        !(n > 0 && n * 8 > i32::MAX) ==> (r is Ok && texts(final(pieces)@) == texts(old(pieces)@)
            + frame_lines(n as int)),
{
    if n > 0 {
        if n > i32::MAX / 8 {
            return Err(CompileError::ArithmeticOverflow);
        }
        let mut line = String::from_str("sub rsp, ");
        append_decimal(&mut line, (n * 8) as i64);
        pieces.push(line);
    }
    assert(texts(pieces@) =~= texts(old(pieces)@) + frame_lines(n as int));
    Ok(())
}

fn push_str(pieces: &mut Vec<String>, s: &str)
    ensures
        texts(final(pieces)@) == texts(old(pieces)@).push(s@),
{
    pieces.push(String::from_str(s));
    assert(texts(pieces@) =~= texts(old(pieces)@).push(s@));
}

/// The text of a function definition: its label, the frame, the body and the
/// return; or the error that it is compiled to (see [`spec_compile_defn`]).
pub fn checked_compile_defn(defn: &Definition, funs: &im::HashMap<String, usize>, l: &mut i32) -> (r:
    Result<String, CompileError<String>>)
    ensures
        match spec_compile_defn(defn@, arities(*funs), *old(l)) {
            Ok((t, l2)) => r matches Ok(v) && v@ == t && *final(l) == l2,
            Err(f) => r matches Err(x) && x@ == f,
        },
{
    let ghost ps = names_view_of(defn.params@);
    let mut env = slots_new();
    let mut i: usize = 0;
    assert(ps.skip(0) =~= ps);
    while i < defn.params.len()
        invariant
            i <= defn.params@.len(),
            ps == names_view_of(defn.params@),
            spec_param_slots(ps, 0, Map::empty()) == spec_param_slots(ps.skip(i as int), i as int, slots(env)),
        decreases defn.params@.len() - i,
    {
        let ghost rest = ps.skip(i as int);
        assert(rest[0] == defn.params@[i as int]@);
        assert(rest.drop_first() =~= ps.skip(i + 1));
        if i > ((i32::MAX - 16) / 8) as usize {
            return Err(CompileError::ArithmeticOverflow);
        }
        slots_insert(&mut env, defn.params[i].clone(), 16 + i as i32 * 8);
        i = i + 1;
    }
    assert(ps.skip(i as int) =~= Seq::<Seq<char>>::empty());
    let n = frame_slots(&defn.body)?;
    let mut pieces: Vec<String> = Vec::new();
    let mut label = String::from_str("fun_");
    label.append(defn.name.as_str());
    label.append(":");
    pieces.push(label);
    push_str(&mut pieces, "push rbp");
    push_str(&mut pieces, "mov rbp, rsp");
    let ghost head = texts(pieces@);
    assert(head =~= seq!["fun_"@ + defn.name@ + ":"@, "push rbp"@, "mov rbp, rsp"@]);
    push_frame_line(&mut pieces, n)?;
    let body = checked_compile_expr(&defn.body, &env, funs, 1, l, &None)?;
    pieces.push(code_string(&body));
    push_str(&mut pieces, "mov rsp, rbp");
    push_str(&mut pieces, "pop rbp");
    push_str(&mut pieces, "ret");
    assert(texts(pieces@) =~= head + frame_lines(n as int) + seq![
        code_text(instrs_view(body@)),
        "mov rsp, rbp"@,
        "pop rbp"@,
        "ret"@,
    ]);
    Ok(join_strings(&pieces, "\n  "))
}

/// The function table of the definitions `ds`, added to `funs`: each name to
/// its number of parameters; a name defined twice is refused.
pub open spec fn spec_fun_table(ds: Seq<DefinitionV>, funs: Map<Seq<char>, usize>) -> Result<
    Map<Seq<char>, usize>,
    Fault,
>
    decreases ds.len(),
{
    if ds.len() == 0 {
        Ok(funs)
    } else if funs.contains_key(ds[0].name) {
        Err(Fault::DuplicateFunction(ds[0].name))
    } else {
        spec_fun_table(ds.drop_first(), funs.insert(ds[0].name, ds[0].params.len() as usize))
    }
}

/// The texts of the definitions `ds`, in order, with the label counter
/// running on from `l`.
pub open spec fn spec_compile_defns(
    ds: Seq<DefinitionV>,
    funs: Map<Seq<char>, usize>,
    l: i32,
) -> Result<(Seq<Seq<char>>, i32), Fault>
    decreases ds.len(),
{
    if ds.len() == 0 {
        Ok((Seq::empty(), l))
    } else {
        match spec_compile_defn(ds[0], funs, l) {
            Ok((t, l1)) => match spec_compile_defns(ds.drop_first(), funs, l1) {
                Ok((ts, l2)) => Ok((seq![t] + ts, l2)),
                Err(f) => Err(f),
            },
            Err(f) => Err(f),
        }
    }
}

/// The text before the functions: the section and the symbols.
pub open spec fn prelude_text() -> Seq<char> {
    "section .text\nglobal our_code_starts_here\nextern snek_error\nextern snek_print\n\n"@
}

/// The text after the main code: the two error handlers.
pub open spec fn postlude_text() -> Seq<char> {
    "\n\ninvalid_argument_error:\n  mov rdi, 1\n  push rbp\n  call snek_error\n\noverflow_error:\n  mov rdi, 2\n  push rbp\n  call snek_error\n"@
}

/// The assembly text of a program, or why there is none: the functions, in
/// order, then the entry `our_code_starts_here` with the main expression,
/// then the error handlers; the label counter runs through the whole program
/// from 0.
pub open spec fn spec_compile_program(p: ProgramV) -> Result<Seq<char>, Fault> {
    match spec_fun_table(p.defns, Map::empty()) {
        Ok(funs) => match spec_compile_defns(p.defns, funs, 0) {
            Ok((ts, l)) => match spec_frame_slots(p.main) {
                Ok(n) => {
                    if n > 0 && n * 8 > i32::MAX {
                        Err(Fault::ArithmeticOverflow)
                    } else {
                        match spec_compile(p.main, Map::empty(), funs, 1, l, None) {
                            Ok((code, _)) => Ok(
                                prelude_text() + joined(
                                    ts + seq![
                                        "our_code_starts_here:"@,
                                        "mov r15, rdi"@,
                                        "push rbp"@,
                                        "mov rbp, rsp"@,
                                    ] + frame_lines(n) + seq![
                                        code_text(code),
                                        "mov rsp, rbp"@,
                                        "pop rbp"@,
                                        "ret"@,
                                    ],
                                    "\n\n"@,
                                ) + postlude_text(),
                            ),
                            Err(f) => Err(f),
                        }
                    }
                },
                Err(f) => Err(f),
            },
            Err(f) => Err(f),
        },
        Err(f) => Err(f),
    }
}

/// The assembly text of a program, or the error that it is compiled to (see
/// [`spec_compile_program`]).
pub fn checked_compile_program(prog: &Program) -> (r: Result<String, CompileError<String>>)
    ensures
        agrees(r, spec_compile_program(prog@)),
{
    let ghost ds = defns_view_of(prog.defns@);
    let mut funs = arities_new();
    let mut i: usize = 0;
    assert(ds.skip(0) =~= ds);
    while i < prog.defns.len()
        invariant
            i <= prog.defns@.len(),
            ds == defns_view_of(prog.defns@),
            spec_fun_table(ds, Map::empty()) == spec_fun_table(ds.skip(i as int), arities(funs)),
        decreases prog.defns@.len() - i,
    {
        let ghost rest = ds.skip(i as int);
        assert(rest[0] == prog.defns@[i as int]@);
        assert(rest.drop_first() =~= ds.skip(i + 1));
        let defn = &prog.defns[i];
        if arities_contains(&funs, &defn.name) {
            return Err(CompileError::DuplicateFunction(defn.name.clone()));
        }
        assert(names_view_of(defn.params@).len() == defn.params@.len());
        arities_insert(&mut funs, defn.name.clone(), defn.params.len());
        i = i + 1;
    }
    assert(ds.skip(i as int) =~= Seq::<DefinitionV>::empty());
    let mut label_counter: i32 = 0;
    let mut pieces: Vec<String> = Vec::new();
    let mut j: usize = 0;
    assert(texts(pieces@) =~= Seq::<Seq<char>>::empty());
    while j < prog.defns.len()
        invariant
            j <= prog.defns@.len(),
            ds == defns_view_of(prog.defns@),
            spec_fun_table(ds, Map::empty()) == Ok::<Map<Seq<char>, usize>, Fault>(arities(funs)),
            spec_compile_defns(ds, arities(funs), 0) == match spec_compile_defns(
                ds.skip(j as int),
                arities(funs),
                label_counter,
            ) {
                Ok((ts, l2)) => Ok((texts(pieces@) + ts, l2)),
                Err(f) => Err(f),
            },
        decreases prog.defns@.len() - j,
    {
        let ghost rest = ds.skip(j as int);
        assert(rest[0] == prog.defns@[j as int]@);
        assert(rest.drop_first() =~= ds.skip(j + 1));
        let ghost before = texts(pieces@);
        let t = checked_compile_defn(&prog.defns[j], &funs, &mut label_counter)?;
        let ghost tv = t@;
        pieces.push(t);
        assert(texts(pieces@) =~= before.push(tv));
        proof {
            match spec_compile_defns(ds.skip(j + 1), arities(funs), label_counter) {
                Ok((ts, l2)) => {
                    assert(before + (seq![tv] + ts) =~= texts(pieces@) + ts);
                },
                Err(f) => {},
            }
        }
        j = j + 1;
    }
    assert(ds.skip(j as int) =~= Seq::<DefinitionV>::empty());
    assert(texts(pieces@) + Seq::<Seq<char>>::empty() =~= texts(pieces@));
    let ghost defn_texts = texts(pieces@);
    push_str(&mut pieces, "our_code_starts_here:");
    push_str(&mut pieces, "mov r15, rdi");
    push_str(&mut pieces, "push rbp");
    push_str(&mut pieces, "mov rbp, rsp");
    let ghost head = texts(pieces@);
    assert(head =~= defn_texts + seq![
        "our_code_starts_here:"@,
        "mov r15, rdi"@,
        "push rbp"@,
        "mov rbp, rsp"@,
    ]);
    let n = frame_slots(&prog.main)?;
    push_frame_line(&mut pieces, n)?;
    let empty_env = slots_new();
    let main_code = checked_compile_expr(&prog.main, &empty_env, &funs, 1, &mut label_counter, &None)?;
    pieces.push(code_string(&main_code));
    push_str(&mut pieces, "mov rsp, rbp");
    push_str(&mut pieces, "pop rbp");
    push_str(&mut pieces, "ret");
    assert(texts(pieces@) =~= head + frame_lines(n as int) + seq![
        code_text(instrs_view(main_code@)),
        "mov rsp, rbp"@,
        "pop rbp"@,
        "ret"@,
    ]);
    let mut out = String::from_str(
        "section .text\nglobal our_code_starts_here\nextern snek_error\nextern snek_print\n\n",
    );
    let body = join_strings(&pieces, "\n\n");
    out.append(body.as_str());
    out.append(
        "\n\ninvalid_argument_error:\n  mov rdi, 1\n  push rbp\n  call snek_error\n\noverflow_error:\n  mov rdi, 2\n  push rbp\n  call snek_error\n",
    );
    Ok(out)
}

/// The assembly text of a source text, or why there is none.
pub open spec fn spec_compile_source(text: Seq<char>) -> Result<Seq<char>, Fault> {
    match spec_parse_source(text) {
        Ok(p) => spec_compile_program(p),
        Err(f) => Err(f),
    }
}

/// Compiles a source text: reads its program and compiles it (see
/// [`spec_compile_source`]).
pub fn compile_source(text: &str) -> (r: Result<String, CompileError<String>>)
    ensures
        agrees(r, spec_compile_source(text@)),
{
    let prog = parse_source(text)?;
    checked_compile_program(&prog)
}

/// The code of a well-formed expression (see [`spec_compile`]): one whose
/// names are all bound, whose `let`s bind each name once, whose `break`s stand
/// in loops, whose calls match the functions' arities and whose slots and
/// labels fit their integers (the module `wellformed` proves that
/// these are the expressions that compile). Every temporary slot that the
/// code touches lies from `si` to `si + spec_max_locals(e)`.
pub fn compile_expr(
    e: &Expr,
    env: &im::HashMap<String, i32>,
    funs: &im::HashMap<String, usize>,
    si: i32,
    l: &mut i32,
    break_target: &Option<Label>,
) -> (r: Vec<Instr<String>>)
    requires
        spec_compile(e@, slots(*env), arities(*funs), si, *old(l), *break_target) is Ok,
    ensures
        instrs_view(r@) == spec_compile(e@, slots(*env), arities(*funs), si, *old(l), *break_target)->Ok_0.0,
        *final(l) == spec_compile(e@, slots(*env), arities(*funs), si, *old(l), *break_target)->Ok_0.1,
        forall|o: i32|
            #[trigger] touches(instrs_view(r@), o) ==> 8 * si <= o <= 8 * (si + spec_max_locals(e@)) && o
                % 8 == 0,
{
    proof {
        lemma_compile_sound(e@, slots(*env), arities(*funs), si, *old(l), *break_target);
    }
    match checked_compile_expr(e, env, funs, si, l, break_target) {
        Ok(code) => code,
        Err(_) => vstd::pervasive::unreached(),
    }
}

/// The number of temporary slots that an expression's code uses (see
/// [`spec_max_locals`]), where it fits an `i32`.
pub fn max_locals(e: &Expr) -> (r: i32)
    requires
        spec_max_locals(e@) <= i32::MAX,
    ensures
        r == spec_max_locals(e@),
{
    match checked_max_locals(e) {
        Some(v) => v,
        None => vstd::pervasive::unreached(),
    }
}

/// The text of a well-formed function definition (see [`spec_compile_defn`]).
pub fn compile_defn(defn: &Definition, funs: &im::HashMap<String, usize>, l: &mut i32) -> (r: String)
    requires
        spec_compile_defn(defn@, arities(*funs), *old(l)) is Ok,
    ensures
        r@ == spec_compile_defn(defn@, arities(*funs), *old(l))->Ok_0.0,
        *final(l) == spec_compile_defn(defn@, arities(*funs), *old(l))->Ok_0.1,
{
    match checked_compile_defn(defn, funs, l) {
        Ok(t) => t,
        Err(_) => vstd::pervasive::unreached(),
    }
}

/// The assembly text of a well-formed program (see [`spec_compile_program`]):
/// its function names are distinct and each body compiles.
pub fn compile_program(prog: &Program) -> (r: String)
    requires
        spec_compile_program(prog@) is Ok,
    ensures
        r@ == spec_compile_program(prog@)->Ok_0,
{
    match checked_compile_program(prog) {
        Ok(t) => t,
        Err(_) => vstd::pervasive::unreached(),
    }
}

} // verus!
