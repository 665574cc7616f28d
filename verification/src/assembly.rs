//! The lines of x86-64 assembly that the compiler emits, and their text.
use vstd::prelude::*;
use vstd::string::*;
use crate::text::{append_decimal, append_digits, decimal, join_strings, joined, texts};

verus! {

/// What a generated label is for.
#[derive(Clone, Copy, Debug, PartialEq, Eq, Structural)]
pub enum LabelKind {
    CmpTrue,
    CmpEnd,
    IfElse,
    IfEnd,
    LoopStart,
    LoopEnd,
}

/// A generated label: its kind and its number.
#[derive(Clone, Copy, Debug, PartialEq, Eq, Structural)]
pub struct Label {
    pub kind: LabelKind,
    pub id: i32,
}

/// A jump instruction.
#[derive(Clone, Copy, Debug, PartialEq, Eq, Structural)]
pub enum Jump {
    Je,
    Jmp,
    Jl,
    Jg,
    Jle,
    Jge,
}

/// A line of assembly without operands of its own.
#[derive(Clone, Copy, Debug, PartialEq, Eq, Structural)]
pub enum Line {
    MovRaxR15,
    MovRbxRax,
    AndRbx1,
    CmpRbx0,
    JneInvalid,
    AddRax2,
    JoOverflow,
    SubRax2,
    ImulRaxMinus1,
    AndRax1,
    ShlRax1,
    XorRax3,
    AddRax1,
    MovRdiRax,
    CallSnekPrint,
    TestRbx1,
    JnzInvalid,
    MovR8Rax,
    SubRaxR8,
    SarRax1,
    ImulRaxR8,
    MovR10R8,
    XorR10R9,
    TestR10One,
    CmpR9R8,
    CmpRaxR8,
    CmpRax1,
    PushRax,
}

/// A line of assembly. Stack offsets are in bytes from `rbp`; `S` is the type
/// of function names: `String` in executable code, `Seq<char>` in
/// specifications.
#[derive(Debug)]
pub enum Instr<S> {
    /// An empty line.
    Blank,
    /// A line without operands of its own.
    Fixed(Line),
    /// `mov rax, n`.
    MovRaxImm(i64),
    /// `mov rax, [rbp + o]` for `o > 0`, else `mov rax, [rbp - (-o)]`.
    LoadVar(i32),
    /// `mov [rbp + o], rax` for `o > 0`, else `mov [rbp - (-o)], rax`.
    StoreVar(i32),
    /// `mov [rbp - o], rax`: saves a temporary.
    SaveTemp(i32),
    /// `mov rax, [rbp - o]`: loads a temporary.
    LoadTemp(i32),
    /// `or rbx, [rbp - o]`.
    OrTemp(i32),
    /// `add rax, [rbp - o]`.
    AddTemp(i32),
    /// `mov r9, [rbp - o]`.
    LoadR9Temp(i32),
    /// A jump to a label.
    JumpTo(Jump, Label),
    /// The place of a label: `label:`.
    Place(Label),
    /// `sub rsp, n`.
    SubRsp(u64),
    /// `add rsp, n`.
    AddRsp(u64),
    /// `call fun_name`.
    CallFun(S),
}

impl View for Instr<String> {
    type V = Instr<Seq<char>>;

    open spec fn view(&self) -> Instr<Seq<char>> {
        match self {
            Instr::Blank => Instr::Blank,
            Instr::Fixed(x) => Instr::Fixed(*x),
            Instr::MovRaxImm(x) => Instr::MovRaxImm(*x),
            Instr::LoadVar(x) => Instr::LoadVar(*x),
            Instr::StoreVar(x) => Instr::StoreVar(*x),
            Instr::SaveTemp(x) => Instr::SaveTemp(*x),
            Instr::LoadTemp(x) => Instr::LoadTemp(*x),
            Instr::OrTemp(x) => Instr::OrTemp(*x),
            Instr::AddTemp(x) => Instr::AddTemp(*x),
            Instr::LoadR9Temp(x) => Instr::LoadR9Temp(*x),
            Instr::JumpTo(j, x) => Instr::JumpTo(*j, *x),
            Instr::Place(x) => Instr::Place(*x),
            Instr::SubRsp(x) => Instr::SubRsp(*x),
            Instr::AddRsp(x) => Instr::AddRsp(*x),
            Instr::CallFun(f) => Instr::CallFun(f@),
        }
    }
}

/// A sequence of lines, as specifications see it.
pub type Code = Seq<Instr<Seq<char>>>;

/// The views of a sequence of lines.
pub open spec fn instrs_view(s: Seq<Instr<String>>) -> Code {
    s.map_values(|i: Instr<String>| i@)
}

pub open spec fn line_text(l: Line) -> Seq<char> {
    match l {
        Line::MovRaxR15 => "mov rax, r15"@,
        Line::MovRbxRax => "mov rbx, rax"@,
        Line::AndRbx1 => "and rbx, 1"@,
        Line::CmpRbx0 => "cmp rbx, 0"@,
        Line::JneInvalid => "jne invalid_argument_error"@,
        Line::AddRax2 => "add rax, 2"@,
        Line::JoOverflow => "jo overflow_error"@,
        Line::SubRax2 => "sub rax, 2"@,
        Line::ImulRaxMinus1 => "imul rax, -1"@,
        Line::AndRax1 => "and rax, 1"@,
        Line::ShlRax1 => "shl rax, 1"@,
        Line::XorRax3 => "xor rax, 3"@,
        Line::AddRax1 => "add rax, 1"@,
        Line::MovRdiRax => "mov rdi, rax"@,
        Line::CallSnekPrint => "call snek_print"@,
        Line::TestRbx1 => "test rbx, 1"@,
        Line::JnzInvalid => "jnz invalid_argument_error"@,
        Line::MovR8Rax => "mov r8, rax"@,
        Line::SubRaxR8 => "sub rax, r8"@,
        Line::SarRax1 => "sar rax, 1"@,
        Line::ImulRaxR8 => "imul rax, r8"@,
        Line::MovR10R8 => "mov r10, r8"@,
        Line::XorR10R9 => "xor r10, r9"@,
        Line::TestR10One => "test r10, 1"@,
        Line::CmpR9R8 => "cmp r9, r8"@,
        Line::CmpRaxR8 => "cmp rax, r8"@,
        Line::CmpRax1 => "cmp rax, 1"@,
        Line::PushRax => "push rax"@,
    }
}

pub open spec fn kind_text(k: LabelKind) -> Seq<char> {
    match k {
        LabelKind::CmpTrue => "cmp_true"@,
        LabelKind::CmpEnd => "cmp_end"@,
        LabelKind::IfElse => "if_else"@,
        LabelKind::IfEnd => "if_end"@,
        LabelKind::LoopStart => "loop_start"@,
        LabelKind::LoopEnd => "loop_end"@,
    }
}

/// The text of a label: its kind, `_` and its number.
pub open spec fn label_text(l: Label) -> Seq<char> {
    kind_text(l.kind) + "_"@ + decimal(l.id as int)
}

pub open spec fn jump_text(j: Jump) -> Seq<char> {
    match j {
        Jump::Je => "je"@,
        Jump::Jmp => "jmp"@,
        Jump::Jl => "jl"@,
        Jump::Jg => "jg"@,
        Jump::Jle => "jle"@,
        Jump::Jge => "jge"@,
    }
}

/// A signed offset from `rbp`: `+ o` for `o > 0`, else `- (-o)`.
pub open spec fn signed_offset(o: i32) -> Seq<char> {
    if o > 0 {
        "+ "@ + decimal(o as int)
    } else {
        "- "@ + decimal(-(o as int))
    }
}

/// The text of a line.
pub open spec fn instr_text(i: Instr<Seq<char>>) -> Seq<char> {
    match i {
        Instr::Blank => Seq::empty(),
        Instr::Fixed(l) => line_text(l),
        Instr::MovRaxImm(n) => "mov rax, "@ + decimal(n as int),
        Instr::LoadVar(o) => "mov rax, [rbp "@ + signed_offset(o) + "]"@,
        Instr::StoreVar(o) => "mov [rbp "@ + signed_offset(o) + "], rax"@,
        Instr::SaveTemp(o) => "mov [rbp - "@ + decimal(o as int) + "], rax"@,
        Instr::LoadTemp(o) => "mov rax, [rbp - "@ + decimal(o as int) + "]"@,
        Instr::OrTemp(o) => "or rbx, [rbp - "@ + decimal(o as int) + "]"@,
        Instr::AddTemp(o) => "add rax, [rbp - "@ + decimal(o as int) + "]"@,
        Instr::LoadR9Temp(o) => "mov r9, [rbp - "@ + decimal(o as int) + "]"@,
        Instr::JumpTo(j, l) => jump_text(j) + " "@ + label_text(l),
        Instr::Place(l) => label_text(l) + ":"@,
        Instr::SubRsp(n) => "sub rsp, "@ + decimal(n as int),
        Instr::AddRsp(n) => "add rsp, "@ + decimal(n as int),
        Instr::CallFun(f) => "call fun_"@ + f,
    }
}

/// The text of a sequence of lines: the lines' texts, one per line.
pub open spec fn code_text(code: Code) -> Seq<char> {
    joined(code.map_values(|i: Instr<Seq<char>>| instr_text(i)), "\n"@)
}

fn line_str(l: Line) -> (r: &'static str)
    ensures
        r@ == line_text(l),
{
    match l {
        Line::MovRaxR15 => "mov rax, r15",
        Line::MovRbxRax => "mov rbx, rax",
        Line::AndRbx1 => "and rbx, 1",
        Line::CmpRbx0 => "cmp rbx, 0",
        Line::JneInvalid => "jne invalid_argument_error",
        Line::AddRax2 => "add rax, 2",
        Line::JoOverflow => "jo overflow_error",
        Line::SubRax2 => "sub rax, 2",
        Line::ImulRaxMinus1 => "imul rax, -1",
        Line::AndRax1 => "and rax, 1",
        Line::ShlRax1 => "shl rax, 1",
        Line::XorRax3 => "xor rax, 3",
        Line::AddRax1 => "add rax, 1",
        Line::MovRdiRax => "mov rdi, rax",
        Line::CallSnekPrint => "call snek_print",
        Line::TestRbx1 => "test rbx, 1",
        Line::JnzInvalid => "jnz invalid_argument_error",
        Line::MovR8Rax => "mov r8, rax",
        Line::SubRaxR8 => "sub rax, r8",
        Line::SarRax1 => "sar rax, 1",
        Line::ImulRaxR8 => "imul rax, r8",
        Line::MovR10R8 => "mov r10, r8",
        Line::XorR10R9 => "xor r10, r9",
        Line::TestR10One => "test r10, 1",
        Line::CmpR9R8 => "cmp r9, r8",
        Line::CmpRaxR8 => "cmp rax, r8",
        Line::CmpRax1 => "cmp rax, 1",
        Line::PushRax => "push rax",
    }
}

fn kind_str(k: LabelKind) -> (r: &'static str)
    ensures
        r@ == kind_text(k),
{
    match k {
        LabelKind::CmpTrue => "cmp_true",
        LabelKind::CmpEnd => "cmp_end",
        LabelKind::IfElse => "if_else",
        LabelKind::IfEnd => "if_end",
        LabelKind::LoopStart => "loop_start",
        LabelKind::LoopEnd => "loop_end",
    }
}

fn jump_str(j: Jump) -> (r: &'static str)
    ensures
        r@ == jump_text(j),
{
    match j {
        Jump::Je => "je",
        Jump::Jmp => "jmp",
        Jump::Jl => "jl",
        Jump::Jg => "jg",
        Jump::Jle => "jle",
        Jump::Jge => "jge",
    }
}

fn append_label(out: &mut String, l: Label)
    ensures
        final(out)@ == old(out)@ + label_text(l),
{
    out.append(kind_str(l.kind));
    out.append("_");
    append_decimal(out, l.id as i64);
    assert(final(out)@ =~= old(out)@ + label_text(l));
}

fn append_signed_offset(out: &mut String, o: i32)
    ensures
        final(out)@ == old(out)@ + signed_offset(o),
{
    if o > 0 {
        out.append("+ ");
        append_decimal(out, o as i64);
    } else {
        out.append("- ");
        append_decimal(out, -(o as i64));
    }
    assert(final(out)@ =~= old(out)@ + signed_offset(o));
}

fn offset_line(front: &str, o: i32, back: &str) -> (r: String)
    ensures
        r@ == front@ + decimal(o as int) + back@,
{
    let mut out = String::from_str(front);
    append_decimal(&mut out, o as i64);
    out.append(back);
    out
}

/// The text of a line.
pub fn instr_string(i: &Instr<String>) -> (r: String)
    ensures
        r@ == instr_text(i@),
{
    match i {
        Instr::Blank => String::new(),
        Instr::Fixed(l) => String::from_str(line_str(*l)),
        Instr::MovRaxImm(n) => {
            let mut out = String::from_str("mov rax, ");
            append_decimal(&mut out, *n);
            out
        },
        Instr::LoadVar(o) => {
            let mut out = String::from_str("mov rax, [rbp ");
            append_signed_offset(&mut out, *o);
            out.append("]");
            out
        },
        Instr::StoreVar(o) => {
            let mut out = String::from_str("mov [rbp ");
            append_signed_offset(&mut out, *o);
            out.append("], rax");
            out
        },
        Instr::SaveTemp(o) => offset_line("mov [rbp - ", *o, "], rax"),
        Instr::LoadTemp(o) => offset_line("mov rax, [rbp - ", *o, "]"),
        Instr::OrTemp(o) => offset_line("or rbx, [rbp - ", *o, "]"),
        Instr::AddTemp(o) => offset_line("add rax, [rbp - ", *o, "]"),
        Instr::LoadR9Temp(o) => offset_line("mov r9, [rbp - ", *o, "]"),
        Instr::JumpTo(j, l) => {
            let mut out = String::from_str(jump_str(*j));
            out.append(" ");
            append_label(&mut out, *l);
            out
        },
        Instr::Place(l) => {
            let mut out = String::new();
            append_label(&mut out, *l);
            out.append(":");
            assert(out@ =~= label_text(*l) + ":"@);
            out
        },
        Instr::SubRsp(n) => {
            let mut out = String::from_str("sub rsp, ");
            append_digits(&mut out, *n);
            out
        },
        Instr::AddRsp(n) => {
            let mut out = String::from_str("add rsp, ");
            append_digits(&mut out, *n);
            out
        },
        Instr::CallFun(f) => {
            let mut out = String::from_str("call fun_");
            out.append(f.as_str());
            out
        },
    }
}

/// The text of a sequence of lines.
pub fn code_string(code: &Vec<Instr<String>>) -> (r: String)
    ensures
        r@ == code_text(instrs_view(code@)),
{
    let mut lines: Vec<String> = Vec::new();
    let mut i: usize = 0;
    while i < code.len()
        invariant
            i <= code@.len(),
            lines@.len() == i,
            forall|j: int| 0 <= j < i ==> #[trigger] lines@[j]@ == instr_text(code@[j]@),
        decreases code@.len() - i,
    {
        lines.push(instr_string(&code[i]));
        i = i + 1;
    }
    let out = join_strings(&lines, "\n");
    assert(texts(lines@) =~= instrs_view(code@).map_values(|i: Instr<Seq<char>>| instr_text(i)));
    out
}

} // verus!
