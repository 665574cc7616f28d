//! Properties that hold across the functions of the library: the runtime
//! shows back the values it reads; compiled constants use the runtime's
//! encoding of values; compiled code stays in its frame, places each label
//! once and jumps only to its own labels; and parsed programs use valid
//! names only.
use vstd::prelude::*;
use vstd::string::*;
use crate::assembly::Instr;
use crate::ast::{DefinitionV, ExprV, ProgramV};
use crate::ident::valid_identifier;
use crate::parser::{
    spec_parse_bind, spec_parse_binds, spec_parse_expr, spec_parse_exprs, spec_parse_items,
    spec_parse_params, spec_parse_program, spec_parse_source, spec_try_parse_defn,
};
use crate::sexpr::{Atom, SExpr, sexp_reading};
use crate::compiler::{
    fits, lemma_max_locals_nonneg, spec_compile, spec_compile_defn, spec_compile_defns,
    spec_frame_slots, spec_max_locals, spec_param_slots,
};
use crate::props::{lemma_compile_sound, numbered, places, targets, touches, unique_labels};
use crate::error::Fault;
use crate::assembly::Label;
use crate::ident::is_ascii_digit;
use crate::parser::wrapped_source;
use crate::runtime::{all_digits, digits_value, i64_of_text, signed_value, spec_parse_input, spec_value_text, tag_number};
use crate::text::{decimal, digit_char, nat_digits};

verus! {

/// The digits of a natural number are digits, and they denote the number.
pub proof fn lemma_nat_digits_value(m: nat)
    ensures
        all_digits(nat_digits(m)),
        digits_value(nat_digits(m)) == m,
    decreases m,
{
    let s = nat_digits(m);
    if m < 10 {
        assert(s.drop_last() =~= Seq::<char>::empty());
        assert(digit_char(m as int) as int == m + 48);
        assert(digits_value(s) == digits_value(s.drop_last()) * 10 + (s.last() as int - 48));
    } else {
        lemma_nat_digits_value(m / 10);
        let d = digit_char((m % 10) as int);
        assert(d as int == m % 10 + 48);
        assert(s.drop_last() =~= nat_digits(m / 10));
        assert(s.last() == d);
        assert(digits_value(s) == digits_value(s.drop_last()) * 10 + (s.last() as int - 48));
        assert(m == (m / 10) * 10 + m % 10);
        assert forall|i: int| 0 <= i < s.len() implies #[trigger] is_ascii_digit(s[i]) by {
            if i < s.len() - 1 {
                assert(s[i] == nat_digits(m / 10)[i]);
            }
        }
    }
}

/// The decimal text of an integer is read back as that integer.
pub proof fn lemma_decimal_read_back(n: int)
    ensures
        signed_value(decimal(n)) == Some(n),
{
    if n < 0 {
        let m = (-n) as nat;
        lemma_nat_digits_value(m);
        assert(decimal(n).drop_first() =~= nat_digits(m));
    } else {
        lemma_nat_digits_value(n as nat);
        let s = nat_digits(n as nat);
        assert(is_ascii_digit(s[0]));
    }
}

/// Law: the runtime reads the decimal text of a number as the number's
/// tagged value, and shows that tagged value as the same text. This holds
/// for every `i64` whose tagged value does not lose a bit.
pub proof fn law_input_round_trip(n: i64)
    requires
        -0x4000_0000_0000_0000 <= n < 0x4000_0000_0000_0000,
    ensures
        spec_parse_input(decimal(n as int)) == Some(tag_number(n)),
        spec_value_text(tag_number(n)) == decimal(n as int),
{
    lemma_decimal_read_back(n as int);
    reveal_strlit("true");
    reveal_strlit("false");
    let s = decimal(n as int);
    if n >= 0 {
        lemma_nat_digits_value(n as nat);
        assert(is_ascii_digit(s[0]));
    }
    assert(s != "true"@) by {
        assert("true"@[0] == 't');
    }
    assert(s != "false"@) by {
        assert("false"@[0] == 'f');
    }
    assert(i64_of_text(s) == Some(n));
    let t = n << 1;
    assert((t & 1) == 0 && (t >> 1) == n) by (bit_vector)
        requires
            -0x4000_0000_0000_0000 <= n < 0x4000_0000_0000_0000,
            t == n << 1,
    ;
}

/// Law: the runtime reads `true` and `false` as their tagged values, and
/// shows these values as the same words.
pub proof fn law_boolean_round_trip()
    ensures
        spec_parse_input("true"@) == Some(3i64),
        spec_parse_input("false"@) == Some(1i64),
        spec_value_text(3) == "true"@,
        spec_value_text(1) == "false"@,
{
    reveal_strlit("true");
    reveal_strlit("false");
    assert("false"@ != "true"@) by {
        assert("false"@[0] != "true"@[0]);
    }
    assert((3i64 & 1) == 1 && (1i64 & 1) == 1) by (bit_vector);
}

/// Law: the compiler loads every 32-bit number constant as its tagged value,
/// twice the number as a 64-bit word, which is the value that the runtime
/// reads for the number's text and shows as that text.
pub proof fn law_constant_encoding(
    n: i32,
    env: Map<Seq<char>, i32>,
    funs: Map<Seq<char>, usize>,
    si: i32,
    l: i32,
    brk: Option<Label>,
)
    ensures
        spec_compile(ExprV::Num(n), env, funs, si, l, brk) == Ok::<
            (Seq<Instr<Seq<char>>>, i32),
            Fault,
        >((seq![Instr::MovRaxImm((n * 2) as i64)], l)),
        spec_parse_input(decimal(n as int)) == Some((n * 2) as i64),
        spec_value_text((n * 2) as i64) == decimal(n as int),
{
    let w = n as i64;
    law_input_round_trip(w);
    assert(w << 1 == w * 2) by (bit_vector)
        requires
            -0x8000_0000 <= w < 0x8000_0000,
    ;
}

/// The frame of a function body holds one slot more than the temporaries
/// that the body uses.
pub proof fn lemma_frame_covers(e: ExprV)
    ensures
        spec_frame_slots(e) matches Ok(n) ==> n >= spec_max_locals(e) + 1,
{
}

/// Law: the code of an expression uses the label numbers from the counter it
/// starts with up to the counter it returns, and exactly those: each number
/// of that range is placed by exactly one line, and no other label is placed.
pub proof fn law_label_numbering(
    e: ExprV,
    env: Map<Seq<char>, i32>,
    funs: Map<Seq<char>, usize>,
    si: i32,
    l: i32,
    brk: Option<Label>,
)
    ensures
        spec_compile(e, env, funs, si, l, brk) matches Ok((code, l2)) ==> {
            &&& l <= l2
            &&& unique_labels(code)
            &&& forall|t: Label| #[trigger] places(code, t) ==> l <= t.id < l2
            &&& forall|id: int| l <= id < l2 ==> #[trigger] numbered(code, id)
        },
{
    lemma_compile_sound(e, env, funs, si, l, brk);
}

/// Law: every temporary slot that the code of an expression saves to or
/// reads from (the left operand of a binary operation, the value of a `let`
/// binding, an argument of a call) is a slot `j` with
/// `si <= j <= si + spec_max_locals(e)`, at byte offset `8 * j` below `rbp`;
/// so the `spec_max_locals(e) + 1` slots from `si` hold them all.
pub proof fn law_temporaries_in_range(
    e: ExprV,
    env: Map<Seq<char>, i32>,
    funs: Map<Seq<char>, usize>,
    si: i32,
    l: i32,
    brk: Option<Label>,
)
    ensures
        spec_compile(e, env, funs, si, l, brk) matches Ok((code, l2)) ==> forall|o: i32|
            #[trigger] touches(code, o) ==> 8 * si <= o <= 8 * (si + spec_max_locals(e)) && o % 8 == 0,
{
    lemma_compile_sound(e, env, funs, si, l, brk);
}

/// Law: the code of a function body (or of the main expression), compiled
/// with its temporaries from slot 1 and outside any loop, is well formed for
/// the frame that the compiler reserves for it: each temporary it touches
/// lies in that frame (`8 <= o <= 8 * n` bytes below `rbp`); each number
/// from the counter it starts with to the one it returns is placed by exactly
/// one label, and no other label is placed; and each jump lands on a label
/// that it places.
pub proof fn law_body_code_well_formed(
    e: ExprV,
    env: Map<Seq<char>, i32>,
    funs: Map<Seq<char>, usize>,
    l: i32,
)
    ensures
        spec_frame_slots(e) matches Ok(n) ==> (spec_compile(e, env, funs, 1, l, None) matches Ok(
            (code, l2),
        ) ==> {
            &&& l <= l2
            &&& unique_labels(code)
            &&& forall|t: Label| #[trigger] places(code, t) ==> l <= t.id < l2
            &&& forall|id: int| l <= id < l2 ==> #[trigger] numbered(code, id)
            &&& forall|t: Label| #[trigger] targets(code, t) ==> places(code, t)
            &&& forall|o: i32| #[trigger] touches(code, o) ==> 8 <= o <= 8 * n && o % 8 == 0
        }),
{
    lemma_compile_sound(e, env, funs, 1, l, None);
    lemma_max_locals_nonneg(e);
}

/// Compiling one function moves the label counter forward: the labels of the
/// next function are numbered after those of this one.
pub proof fn lemma_defn_counter(d: DefinitionV, funs: Map<Seq<char>, usize>, l: i32)
    ensures
        spec_compile_defn(d, funs, l) matches Ok((t, l2)) ==> l <= l2,
{
    match spec_param_slots(d.params, 0, Map::empty()) {
        Ok(env) => lemma_compile_sound(d.body, env, funs, 1, l, None),
        Err(_) => {},
    }
}

/// Law: the functions of a program are compiled in order with one label
/// counter that only moves forward, so that the labels of different
/// functions (each numbered within its own run of the counter, see
/// `law_body_code_well_formed`) never meet; there is one text per function.
pub proof fn law_functions_number_labels_apart(ds: Seq<DefinitionV>, funs: Map<Seq<char>, usize>, l: i32)
    ensures
        spec_compile_defns(ds, funs, l) matches Ok((ts, l2)) ==> l <= l2 && ts.len() == ds.len(),
    decreases ds.len(),
{
    if ds.len() > 0 {
        lemma_defn_counter(ds[0], funs, l);
        match spec_compile_defn(ds[0], funs, l) {
            Ok((t, l1)) => law_functions_number_labels_apart(ds.drop_first(), funs, l1),
            Err(_) => {},
        }
    }
}

/// Every name that an expression uses (variables, assigned variables,
/// bound names and called functions) is a valid identifier.
pub open spec fn expr_names_valid(e: ExprV) -> bool
    decreases e,
{
    match e {
        ExprV::Id(n) => valid_identifier(n),
        ExprV::Let(bs, body) => binds_names_valid(bs) && expr_names_valid(*body),
        ExprV::UnOp(_, x) => expr_names_valid(*x),
        ExprV::BinOp(_, x, y) => expr_names_valid(*x) && expr_names_valid(*y),
        ExprV::If(c, t, f) => expr_names_valid(*c) && expr_names_valid(*t) && expr_names_valid(*f),
        ExprV::Block(es) => exprs_names_valid(es),
        ExprV::Loop(x) => expr_names_valid(*x),
        ExprV::Break(x) => expr_names_valid(*x),
        ExprV::Assign(n, x) => valid_identifier(n) && expr_names_valid(*x),
        ExprV::Call(f, args) => valid_identifier(f) && exprs_names_valid(args),
        _ => true,
    }
}

pub open spec fn exprs_names_valid(es: Seq<ExprV>) -> bool
    decreases es,
{
    es.len() == 0 || (expr_names_valid(es[0]) && exprs_names_valid(es.drop_first()))
}

pub open spec fn binds_names_valid(bs: Seq<(Seq<char>, ExprV)>) -> bool
    decreases bs,
{
    bs.len() == 0 || (valid_identifier(bs[0].0) && expr_names_valid(bs[0].1) && binds_names_valid(
        bs.drop_first(),
    ))
}

/// A definition's name and parameters are valid identifiers, its parameters
/// are pairwise distinct, and its body uses valid names.
pub open spec fn defn_names_valid(d: DefinitionV) -> bool {
    &&& valid_identifier(d.name)
    &&& forall|i: int| 0 <= i < d.params.len() ==> valid_identifier(#[trigger] d.params[i])
    &&& d.params.no_duplicates()
    &&& expr_names_valid(d.body)
}

/// Every definition and the main expression of a program use valid names.
pub open spec fn program_names_valid(p: ProgramV) -> bool {
    &&& forall|i: int| 0 <= i < p.defns.len() ==> defn_names_valid(#[trigger] p.defns[i])
    &&& expr_names_valid(p.main)
}

proof fn lemma_parse_expr_names(s: SExpr)
    ensures
        spec_parse_expr(s) matches Ok(e) ==> expr_names_valid(e),
    decreases s, 1nat,
{
    match s {
        SExpr::List(v) => {
            let n = v@.len();
            if n > 0 {
                if n > 1 {
                    lemma_parse_expr_names(v@[1]);
                    match v@[1] {
                        SExpr::List(b) => lemma_parse_binds_names(b@),
                        _ => {},
                    }
                }
                if n > 2 {
                    lemma_parse_expr_names(v@[2]);
                }
                if n > 3 {
                    lemma_parse_expr_names(v@[3]);
                }
                lemma_parse_exprs_names(v@.drop_first());
            }
        },
        _ => {},
    }
}

proof fn lemma_parse_exprs_names(xs: Seq<SExpr>)
    ensures
        spec_parse_exprs(xs) matches Ok(es) ==> exprs_names_valid(es),
    decreases xs, 0nat,
{
    if xs.len() > 0 {
        lemma_parse_expr_names(xs[0]);
        lemma_parse_exprs_names(xs.drop_first());
        match spec_parse_exprs(xs) {
            Ok(es) => {
                let x = spec_parse_expr(xs[0])->Ok_0;
                let rest = spec_parse_exprs(xs.drop_first())->Ok_0;
                assert(es == seq![x] + rest);
                assert(es.drop_first() =~= rest);
            },
            Err(_) => {},
        }
    }
}

proof fn lemma_parse_binds_names(xs: Seq<SExpr>)
    ensures
        spec_parse_binds(xs) matches Ok(bs) ==> binds_names_valid(bs),
    decreases xs, 0nat,
{
    if xs.len() > 0 {
        match xs[0] {
            SExpr::List(pair) => {
                if pair@.len() == 2 {
                    lemma_parse_expr_names(pair@[1]);
                }
            },
            _ => {},
        }
        lemma_parse_binds_names(xs.drop_first());
        match spec_parse_binds(xs) {
            Ok(bs) => {
                let b = spec_parse_bind(xs[0])->Ok_0;
                let rest = spec_parse_binds(xs.drop_first())->Ok_0;
                assert(bs == seq![b] + rest);
                assert(bs.drop_first() =~= rest);
            },
            Err(_) => {},
        }
    }
}

proof fn lemma_parse_params_names(ps: Seq<SExpr>, seen: Seq<Seq<char>>)
    requires
        forall|i: int| 0 <= i < seen.len() ==> valid_identifier(#[trigger] seen[i]),
        seen.no_duplicates(),
    ensures
        spec_parse_params(ps, seen) matches Ok(r) ==> (forall|i: int|
            0 <= i < r.len() ==> valid_identifier(#[trigger] r[i])) && r.no_duplicates(),
    decreases ps.len(),
{
    if ps.len() > 0 {
        match ps[0] {
            SExpr::Atom(Atom::S(p)) => {
                if valid_identifier(p@) && !seen.contains(p@) {
                    let next = seen.push(p@);
                    assert forall|i: int| 0 <= i < next.len() implies valid_identifier(
                        #[trigger] next[i],
                    ) by {
                        if i < seen.len() {
                            assert(next[i] == seen[i]);
                        }
                    }
                    assert forall|i: int, j: int|
                        0 <= i < next.len() && 0 <= j < next.len() && i != j implies next[i]
                        != next[j] by {
                        if i == seen.len() {
                            assert(next[j] == seen[j]);
                        } else if j == seen.len() {
                            assert(next[i] == seen[i]);
                        } else {
                            assert(next[i] == seen[i] && next[j] == seen[j]);
                        }
                    }
                    lemma_parse_params_names(ps.drop_first(), next);
                }
            },
            _ => {},
        }
    }
}

proof fn lemma_try_parse_defn_names(s: SExpr)
    ensures
        spec_try_parse_defn(s) matches Ok(Some(d)) ==> defn_names_valid(d),
{
    match s {
        SExpr::List(v) => {
            if v@.len() == 3 && v@[1] is List {
                let sig = v@[1]->List_0@;
                lemma_parse_expr_names(v@[2]);
                lemma_parse_params_names(sig.drop_first(), Seq::empty());
            }
        },
        _ => {},
    }
}

proof fn lemma_parse_items_names(items: Seq<SExpr>, defns: Seq<DefinitionV>, main: Option<ExprV>)
    requires
        forall|i: int| 0 <= i < defns.len() ==> defn_names_valid(#[trigger] defns[i]),
        main matches Some(m) ==> expr_names_valid(m),
    ensures
        spec_parse_items(items, defns, main) matches Ok(p) ==> program_names_valid(p),
    decreases items.len(),
{
    if items.len() > 0 {
        lemma_try_parse_defn_names(items[0]);
        match spec_try_parse_defn(items[0]) {
            Ok(Some(d)) => {
                let next = defns.push(d);
                assert forall|i: int| 0 <= i < next.len() implies defn_names_valid(#[trigger] next[i]) by {
                    if i < defns.len() {
                        assert(next[i] == defns[i]);
                    }
                }
                lemma_parse_items_names(items.drop_first(), next, main);
            },
            Ok(None) => {
                lemma_parse_expr_names(items[0]);
                match spec_parse_expr(items[0]) {
                    Ok(m) => lemma_parse_items_names(items.drop_first(), defns, Some(m)),
                    Err(_) => {},
                }
            },
            Err(_) => {},
        }
    }
}

/// Law: every expression that the parser accepts uses only valid identifiers
/// as names.
pub proof fn law_parsed_expr_names_valid(s: SExpr)
    ensures
        spec_parse_expr(s) matches Ok(e) ==> expr_names_valid(e),
{
    lemma_parse_expr_names(s);
}

/// Law: every program that the parser accepts, from an S-expression, uses
/// only valid identifiers as names, and no definition names a parameter twice.
pub proof fn law_parsed_program_names_valid(s: SExpr)
    ensures
        spec_parse_program(s) matches Ok(p) ==> program_names_valid(p),
{
    match s {
        SExpr::List(items) => lemma_parse_items_names(items@, Seq::empty(), None),
        _ => {},
    }
}

/// Law: every program that the parser accepts, from a source text, uses only
/// valid identifiers as names, and no definition names a parameter twice.
pub proof fn law_parsed_names_valid(text: Seq<char>)
    ensures
        spec_parse_source(text) matches Ok(p) ==> program_names_valid(p),
{
    match sexp_reading(wrapped_source(text)) {
        Some(s) => law_parsed_program_names_valid(s),
        None => {},
    }
}

} // verus!
