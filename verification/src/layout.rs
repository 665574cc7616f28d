//! How the assembly text of a function and of a whole program is laid out,
//! and what holds of the labels across all the code of a program.
use vstd::prelude::*;
use crate::assembly::{code_text, Code, Label};
use crate::ast::{DefinitionV, ProgramV};
use crate::compiler::{
    frame_lines, lemma_max_locals_nonneg, postlude_text, prelude_text, spec_compile,
    spec_compile_defn, spec_compile_defns, spec_compile_program, spec_frame_slots, spec_fun_table, spec_max_locals, spec_param_slots,
};
use crate::props::{lemma_compile_sound, numbered, places, targets, unique_labels};
use crate::error::Fault;
use crate::text::{decimal, joined};

verus! {

/// Joining one more piece adds the separator and the piece.
pub proof fn lemma_joined_push(s: Seq<Seq<char>>, x: Seq<char>, sep: Seq<char>)
    requires
        s.len() >= 1,
    ensures
        joined(s.push(x), sep) == joined(s, sep) + sep + x,
{
    assert(s.push(x).drop_last() =~= s);
}

/// The text of a function `name` whose frame holds `n` slots and whose body
/// has the text `body`: the label, the prologue that saves `rbp` and
/// reserves the frame, the body, and the epilogue that restores `rsp` and
/// `rbp` and returns; one line each, indented.
pub open spec fn defn_layout(name: Seq<char>, n: int, body: Seq<char>) -> Seq<char> {
    let sep = "\n  "@;
    "fun_"@ + name + ":"@ + sep + "push rbp"@ + sep + "mov rbp, rsp"@ + sep + ("sub rsp, "@
        + decimal(n * 8)) + sep + body + sep + "mov rsp, rbp"@ + sep + "pop rbp"@ + sep + "ret"@
}

/// Law: the text of a compiled function is its body's code between the fixed
/// prologue and epilogue; the frame holds an even number of 8-byte slots (so
/// `rsp` stays 16-byte aligned), at least one more than the temporaries that
/// the body needs; and the body is compiled with the parameters' slots, from
/// temporary slot 1, outside any loop, with the label counter handed on.
pub proof fn law_defn_text(d: DefinitionV, funs: Map<Seq<char>, usize>, l: i32)
    ensures
        spec_compile_defn(d, funs, l) matches Ok((t, l2)) ==> {
            let n = spec_frame_slots(d.body)->Ok_0;
            let env = spec_param_slots(d.params, 0, Map::empty())->Ok_0;
            &&& n % 2 == 0
            &&& n >= spec_max_locals(d.body) + 1
            &&& (n * 8) % 16 == 0
            &&& spec_compile(d.body, env, funs, 1, l, None) matches Ok((code, l3)) && l3 == l2 && t
                == defn_layout(d.name, n, code_text(code))
        },
{
    lemma_max_locals_nonneg(d.body);
    match spec_compile_defn(d, funs, l) {
        Ok((t, l2)) => {
            let n = spec_frame_slots(d.body)->Ok_0;
            let env = spec_param_slots(d.params, 0, Map::empty())->Ok_0;
            let code = spec_compile(d.body, env, funs, 1, l, None)->Ok_0.0;
            let sep = "\n  "@;
            let head = seq!["fun_"@ + d.name + ":"@, "push rbp"@, "mov rbp, rsp"@];
            let p0 = seq!["fun_"@ + d.name + ":"@];
            let p1 = p0.push("push rbp"@);
            let p2 = p1.push("mov rbp, rsp"@);
            let p3 = p2.push("sub rsp, "@ + decimal(n * 8));
            let p4 = p3.push(code_text(code));
            let p5 = p4.push("mov rsp, rbp"@);
            let p6 = p5.push("pop rbp"@);
            let p7 = p6.push("ret"@);
            assert(frame_lines(n) == seq!["sub rsp, "@ + decimal(n * 8)]);
            assert(head + frame_lines(n) + seq![code_text(code), "mov rsp, rbp"@, "pop rbp"@, "ret"@]
                =~= p7);
            assert(joined(p0, sep) == "fun_"@ + d.name + ":"@);
            lemma_joined_push(p0, "push rbp"@, sep);
            lemma_joined_push(p1, "mov rbp, rsp"@, sep);
            lemma_joined_push(p2, "sub rsp, "@ + decimal(n * 8), sep);
            lemma_joined_push(p3, code_text(code), sep);
            lemma_joined_push(p4, "mov rsp, rbp"@, sep);
            lemma_joined_push(p5, "pop rbp"@, sep);
            lemma_joined_push(p6, "ret"@, sep);
            assert(joined(p3, sep) =~= "fun_"@ + d.name + ":"@ + sep + "push rbp"@ + sep
                + "mov rbp, rsp"@ + sep + ("sub rsp, "@ + decimal(n * 8)));
        },
        Err(_) => {},
    }
}

/// Law: the function table of a program's definitions, built from `funs`,
/// exists exactly when their names are pairwise distinct and none is in
/// `funs` already; it then maps each name to its number of parameters (as a
/// `usize`) and keeps what `funs` held.
pub proof fn law_fun_table(ds: Seq<DefinitionV>, funs: Map<Seq<char>, usize>)
    ensures
        spec_fun_table(ds, funs) is Ok <==> {
            &&& forall|i: int, j: int|
                0 <= i < j < ds.len() ==> #[trigger] ds[i].name != #[trigger] ds[j].name
            &&& forall|i: int| 0 <= i < ds.len() ==> !funs.contains_key(#[trigger] ds[i].name)
        },
        spec_fun_table(ds, funs) matches Ok(f) ==> {
            &&& forall|i: int|
                0 <= i < ds.len() ==> f.contains_key(#[trigger] ds[i].name) && f[ds[i].name]
                    == ds[i].params.len() as usize
            &&& forall|k: Seq<char>| #[trigger] funs.contains_key(k) ==> f.contains_key(k) && f[k]
                == funs[k]
        },
    decreases ds.len(),
{
    if ds.len() > 0 {
        let rest = ds.drop_first();
        let funs1 = funs.insert(ds[0].name, ds[0].params.len() as usize);
        law_fun_table(rest, funs1);
        assert forall|i: int| 0 < i < ds.len() implies #[trigger] ds[i] == rest[i - 1] by {}
        if funs.contains_key(ds[0].name) {
            assert(!(forall|i: int| 0 <= i < ds.len() ==> !funs.contains_key(#[trigger] ds[i].name)));
        } else {
            if spec_fun_table(ds, funs) is Ok {
                let f = spec_fun_table(ds, funs)->Ok_0;
                assert(funs1.contains_key(ds[0].name));
                assert forall|i: int| 0 <= i < ds.len() implies f.contains_key(#[trigger] ds[i].name)
                    && f[ds[i].name] == ds[i].params.len() as usize by {
                    if i > 0 {
                        assert(ds[i] == rest[i - 1]);
                    }
                }
                assert forall|k: Seq<char>| #[trigger] funs.contains_key(k) implies f.contains_key(k)
                    && f[k] == funs[k] by {
                    assert(funs1.contains_key(k));
                }
                assert forall|i: int| 0 < i < ds.len() implies #[trigger] ds[i].name == rest[i - 1].name by {}
                assert forall|i: int, j: int|
                    0 <= i < j < ds.len() implies #[trigger] ds[i].name != #[trigger] ds[j].name by {
                    if i == 0 {
                        assert(funs1.contains_key(ds[0].name));
                        assert(!funs1.contains_key(rest[j - 1].name));
                    } else {
                        assert(rest[i - 1].name != rest[j - 1].name);
                    }
                }
                assert forall|i: int| 0 <= i < ds.len() implies !funs.contains_key(#[trigger] ds[i].name) by {
                    if i > 0 {
                        assert(!funs1.contains_key(rest[i - 1].name));
                    }
                }
            } else {
                let names_apart = forall|i: int, j: int|
                    0 <= i < j < ds.len() ==> #[trigger] ds[i].name != #[trigger] ds[j].name;
                let fresh = forall|i: int| 0 <= i < ds.len() ==> !funs.contains_key(#[trigger] ds[i].name);
                if names_apart && fresh {
                    assert forall|i: int, j: int|
                        0 <= i < j < rest.len() implies #[trigger] rest[i].name != #[trigger] rest[j].name by {
                        assert(ds[i + 1].name != ds[j + 1].name);
                    }
                    assert forall|i: int| 0 <= i < rest.len() implies !funs1.contains_key(#[trigger] rest[i].name) by {
                        assert(ds[0].name != ds[i + 1].name);
                        assert(!funs.contains_key(ds[i + 1].name));
                    }
                }
            }
        }
    }
}

/// The label counter before the `i`-th of the definitions `ds` when they are
/// compiled in order with the counter starting at `l`.
pub open spec fn counter_at(ds: Seq<DefinitionV>, funs: Map<Seq<char>, usize>, l: i32, i: int) -> i32
    decreases i,
{
    if i <= 0 || ds.len() == 0 {
        l
    } else {
        counter_at(ds.drop_first(), funs, spec_compile_defn(ds[0], funs, l)->Ok_0.1, i - 1)
    }
}

/// The code of a definition's body, compiled with the label counter at `l`.
pub open spec fn body_code(d: DefinitionV, funs: Map<Seq<char>, usize>, l: i32) -> Code {
    spec_compile(d.body, spec_param_slots(d.params, 0, Map::empty())->Ok_0, funs, 1, l, None)->Ok_0.0
}

/// Law: compiling the definitions in order gives one text per definition,
/// the `i`-th compiled with the counter left by those before it; the counter
/// never moves back.
pub proof fn law_defns_in_order(ds: Seq<DefinitionV>, funs: Map<Seq<char>, usize>, l: i32)
    ensures
        spec_compile_defns(ds, funs, l) matches Ok((ts, l2)) ==> {
            &&& ts.len() == ds.len()
            &&& counter_at(ds, funs, l, ds.len() as int) == l2
            &&& forall|i: int|
                0 <= i < ds.len() ==> spec_compile_defn(ds[i], funs, counter_at(ds, funs, l, i)) == Ok::<(Seq<char>, i32), Fault>(
                    (#[trigger] ts[i], counter_at(ds, funs, l, i + 1)),
                )
            &&& forall|i: int, j: int|
                0 <= i <= j <= ds.len() ==> counter_at(ds, funs, l, i) <= counter_at(ds, funs, l, j)
        },
    decreases ds.len(),
{
    if ds.len() > 0 {
        let rest = ds.drop_first();
        match spec_compile_defn(ds[0], funs, l) {
            Ok((t, l1)) => {
                law_defns_in_order(rest, funs, l1);
                law_defn_text(ds[0], funs, l);
                match spec_compile_defns(ds, funs, l) {
                    Ok((ts, l2)) => {
                        let tr = spec_compile_defns(rest, funs, l1)->Ok_0.0;
                        assert(ts == seq![t] + tr);
                        let env = spec_param_slots(ds[0].params, 0, Map::empty())->Ok_0;
                        lemma_compile_sound(ds[0].body, env, funs, 1, l, None);
                        assert forall|i: int| 0 < i <= ds.len() implies #[trigger] counter_at(ds, funs, l, i)
                            == counter_at(rest, funs, l1, i - 1) by {}
                        assert(counter_at(ds, funs, l, 0) == l);
                        assert forall|i: int|
                            0 <= i < ds.len() implies spec_compile_defn(
                            ds[i],
                            funs,
                            counter_at(ds, funs, l, i),
                        ) == Ok::<(Seq<char>, i32), Fault>((#[trigger] ts[i], counter_at(ds, funs, l, i + 1))) by {
                            if i > 0 {
                                assert(ds[i] == rest[i - 1]);
                                assert(ts[i] == tr[i - 1]);
                            }
                        }
                        assert forall|i: int, j: int|
                            0 <= i <= j <= ds.len() implies counter_at(ds, funs, l, i) <= counter_at(
                            ds,
                            funs,
                            l,
                            j,
                        ) by {
                            if i > 0 {
                                assert(counter_at(rest, funs, l1, i - 1) <= counter_at(rest, funs, l1, j - 1));
                            } else if j > 0 {
                                assert(counter_at(rest, funs, l1, 0) <= counter_at(rest, funs, l1, j - 1));
                            }
                        }
                    },
                    Err(_) => {},
                }
            },
            Err(_) => {},
        }
    }
}

/// The function table of a program.
pub open spec fn program_funs(p: ProgramV) -> Map<Seq<char>, usize> {
    spec_fun_table(p.defns, Map::empty())->Ok_0
}

/// The code of each part of a program, in the order of its text: the body of
/// each definition, then the main expression; the label counter runs through
/// them all from 0.
pub open spec fn program_codes(p: ProgramV) -> Seq<Code> {
    let funs = program_funs(p);
    let nd = p.defns.len() as int;
    Seq::new(
        (nd + 1) as nat,
        |i: int|
            if i < nd {
                body_code(p.defns[i], funs, counter_at(p.defns, funs, 0, i))
            } else {
                spec_compile(p.main, Map::empty(), funs, 1, counter_at(p.defns, funs, 0, nd), None)->Ok_0.0
            },
    )
}

/// The lines of the entry `our_code_starts_here`, for a frame of `n` slots
/// and a main expression whose code has the text `body`.
pub open spec fn main_lines(n: int, body: Seq<char>) -> Seq<Seq<char>> {
    seq![
        "our_code_starts_here:"@,
        "mov r15, rdi"@,
        "push rbp"@,
        "mov rbp, rsp"@,
        "sub rsp, "@ + decimal(n * 8),
        body,
        "mov rsp, rbp"@,
        "pop rbp"@,
        "ret"@,
    ]
}

/// What holds of the code of one part of a compiled program: where its labels
/// are numbered, that it places each once, and that it jumps only to them.
proof fn lemma_program_part(p: ProgramV, i: int)
    requires
        spec_compile_program(p) is Ok,
        0 <= i <= p.defns.len(),
    ensures
        unique_labels(program_codes(p)[i]),
        forall|t: Label| #[trigger] targets(program_codes(p)[i], t) ==> places(program_codes(p)[i], t),
        forall|t: Label|
            #[trigger] places(program_codes(p)[i], t) ==> counter_at(p.defns, program_funs(p), 0, i) <= t.id
                && (i < p.defns.len() ==> t.id < counter_at(p.defns, program_funs(p), 0, i + 1)),
        i < p.defns.len() ==> forall|id: int|
            counter_at(p.defns, program_funs(p), 0, i) <= id < counter_at(p.defns, program_funs(p), 0, i + 1)
                ==> #[trigger] numbered(program_codes(p)[i], id),
{
    let ds = p.defns;
    let funs = program_funs(p);
    let nd = ds.len() as int;
    law_defns_in_order(ds, funs, 0);
    let ts = spec_compile_defns(ds, funs, 0)->Ok_0.0;
    let codes = program_codes(p);
    let ci = counter_at(ds, funs, 0, i);
    if i < nd {
        assert(spec_compile_defn(ds[i], funs, ci) == Ok::<(Seq<char>, i32), Fault>((ts[i], counter_at(ds, funs, 0, i + 1))));
        law_defn_text(ds[i], funs, ci);
        let env = spec_param_slots(ds[i].params, 0, Map::empty())->Ok_0;
        lemma_compile_sound(ds[i].body, env, funs, 1, ci, None);
        assert(codes[i] == body_code(ds[i], funs, ci));
    } else {
        lemma_compile_sound(p.main, Map::empty(), funs, 1, ci, None);
    }
}

/// Law: the assembly text of a program is, in order: the header; the text of
/// each definition, compiled in order with the label counter handed on from
/// one to the next, each laid out as `defn_layout` around its body's code;
/// the entry `our_code_starts_here` with a frame of an even number of slots,
/// at least one more than the main expression's temporaries, around the main
/// expression's code; and the two error handlers.
pub proof fn law_program_text(p: ProgramV)
    ensures
        spec_compile_program(p) matches Ok(text) ==> {
            let funs = program_funs(p);
            let ts = spec_compile_defns(p.defns, funs, 0)->Ok_0.0;
            let n = spec_frame_slots(p.main)->Ok_0;
            let codes = program_codes(p);
            &&& ts.len() == p.defns.len()
            &&& forall|i: int|
                0 <= i < p.defns.len() ==> #[trigger] ts[i] == defn_layout(
                    p.defns[i].name,
                    spec_frame_slots(p.defns[i].body)->Ok_0,
                    code_text(codes[i]),
                )
            &&& n % 2 == 0
            &&& n >= spec_max_locals(p.main) + 1
            &&& text == prelude_text() + joined(
                ts + main_lines(n, code_text(codes[p.defns.len() as int])),
                "\n\n"@,
            ) + postlude_text()
        },
{
    match spec_compile_program(p) {
        Ok(text) => {
            let ds = p.defns;
            let funs = program_funs(p);
            let nd = ds.len() as int;
            law_defns_in_order(ds, funs, 0);
            let ts = spec_compile_defns(ds, funs, 0)->Ok_0.0;
            let codes = program_codes(p);
            let n = spec_frame_slots(p.main)->Ok_0;
            lemma_max_locals_nonneg(p.main);
            assert forall|i: int| 0 <= i < nd implies #[trigger] ts[i] == defn_layout(
                ds[i].name,
                spec_frame_slots(ds[i].body)->Ok_0,
                code_text(codes[i]),
            ) by {
                let ci = counter_at(ds, funs, 0, i);
                assert(spec_compile_defn(ds[i], funs, ci) == Ok::<(Seq<char>, i32), Fault>((ts[i], counter_at(ds, funs, 0, i + 1))));
                law_defn_text(ds[i], funs, ci);
                assert(codes[i] == body_code(ds[i], funs, ci));
            }
            let main_code = codes[nd];
            assert(frame_lines(n) == seq!["sub rsp, "@ + decimal(n * 8)]);
            assert(ts + seq![
                "our_code_starts_here:"@,
                "mov r15, rdi"@,
                "push rbp"@,
                "mov rbp, rsp"@,
            ] + frame_lines(n) + seq![code_text(main_code), "mov rsp, rbp"@, "pop rbp"@, "ret"@]
                =~= ts + main_lines(n, code_text(main_code)));
        },
        Err(_) => {},
    }
}

/// Law: across the whole code of a compiled program (the body of every
/// definition and the main expression), each label is placed in one part
/// only, and once there; every jump of a part lands on a label that the same
/// part places; and the `i`-th definition's body places exactly the label
/// numbers from the counter before it to the counter after it, the first
/// definition's counter starting at 0.
pub proof fn law_program_labels(p: ProgramV)
    ensures
        spec_compile_program(p) is Ok ==> {
            let codes = program_codes(p);
            &&& codes.len() == p.defns.len() + 1
            &&& forall|i: int| 0 <= i < codes.len() ==> unique_labels(#[trigger] codes[i])
            &&& forall|i: int, t: Label|
                0 <= i < codes.len() && #[trigger] targets(codes[i], t) ==> places(codes[i], t)
            &&& forall|i: int, j: int, t: Label|
                0 <= i < codes.len() && 0 <= j < codes.len() && i != j && #[trigger] places(codes[i], t)
                    ==> !#[trigger] places(codes[j], t)
            &&& counter_at(p.defns, program_funs(p), 0, 0) == 0
            &&& forall|i: int, id: int|
                0 <= i < p.defns.len() && counter_at(p.defns, program_funs(p), 0, i) <= id < counter_at(
                    p.defns,
                    program_funs(p),
                    0,
                    i + 1,
                ) ==> #[trigger] numbered(codes[i], id)
        },
{
    if spec_compile_program(p) is Ok {
        let ds = p.defns;
        let funs = program_funs(p);
        let nd = ds.len() as int;
        let codes = program_codes(p);
        law_defns_in_order(ds, funs, 0);
        assert forall|i: int| 0 <= i < codes.len() implies unique_labels(#[trigger] codes[i]) by {
            lemma_program_part(p, i);
        }
        assert forall|i: int, t: Label|
            0 <= i < codes.len() && #[trigger] targets(codes[i], t) implies places(codes[i], t) by {
            lemma_program_part(p, i);
        }
        assert forall|i: int, j: int, t: Label|
            0 <= i < codes.len() && 0 <= j < codes.len() && i != j && #[trigger] places(codes[i], t)
                implies !#[trigger] places(codes[j], t) by {
            lemma_program_part(p, i);
            lemma_program_part(p, j);
            if places(codes[j], t) {
                if i < j {
                    assert(counter_at(ds, funs, 0, i + 1) <= counter_at(ds, funs, 0, j));
                } else {
                    assert(counter_at(ds, funs, 0, j + 1) <= counter_at(ds, funs, 0, i));
                }
            }
        }
        assert forall|i: int, id: int|
            0 <= i < nd && counter_at(ds, funs, 0, i) <= id < counter_at(ds, funs, 0, i + 1) implies #[trigger] numbered(codes[i], id) by {
            lemma_program_part(p, i);
        }
    }
}

} // verus!
