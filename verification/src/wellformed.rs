//! Which expressions compile: those whose names are in scope, whose `let`s
//! bind each name once, whose `break`s stand inside loops, whose calls match
//! the functions' arities, and whose slots and labels fit.
use vstd::prelude::*;
use crate::assembly::Label;
use crate::ast::{DefinitionV, ExprV, Op2, ProgramV};
use crate::compiler::{
    fits, larger, lemma_max_locals_nonneg, max_locals_args, max_locals_binds, max_locals_block,
    spec_binop_code, spec_compile, spec_compile_args, spec_compile_binds, spec_compile_defn,
    spec_compile_defns,
    spec_compile_items, spec_compile_program, spec_max_locals, spec_param_slots,
};
use crate::layout::{counter_at, law_defns_in_order, law_fun_table, program_funs};
use crate::error::Fault;

verus! {

/// Whether a binary operator compares (and so takes two labels).
pub open spec fn compares(op: Op2) -> bool {
    !(op == Op2::Plus || op == Op2::Minus || op == Op2::Times)
}

/// The number of labels that the code of an expression takes from the
/// counter: two for each `if`, loop and comparison.
pub open spec fn label_use(e: ExprV) -> nat
    decreases e,
{
    match e {
        ExprV::UnOp(_, x) => label_use(*x),
        ExprV::BinOp(op, x, y) => label_use(*x) + label_use(*y) + if compares(op) {
            2nat
        } else {
            0nat
        },
        ExprV::Let(bs, body) => binds_label_use(bs) + label_use(*body),
        ExprV::If(c, t, f) => 2 + label_use(*c) + label_use(*t) + label_use(*f),
        ExprV::Block(es) => items_label_use(es),
        ExprV::Loop(x) => 2 + label_use(*x),
        ExprV::Break(x) => label_use(*x),
        ExprV::Assign(_, x) => label_use(*x),
        ExprV::Call(_, args) => items_label_use(args),
        _ => 0,
    }
}

/// The labels that the code of a sequence of expressions takes.
pub open spec fn items_label_use(es: Seq<ExprV>) -> nat
    decreases es,
{
    if es.len() == 0 {
        0
    } else {
        label_use(es[0]) + items_label_use(es.drop_first())
    }
}

/// The labels that the code of the values of bindings takes.
pub open spec fn binds_label_use(bs: Seq<(Seq<char>, ExprV)>) -> nat
    decreases bs,
{
    if bs.len() == 0 {
        0
    } else {
        label_use(bs[0].1) + binds_label_use(bs.drop_first())
    }
}

/// The names in scope after the bindings `bs`, from `scope`.
pub open spec fn scope_after(bs: Seq<(Seq<char>, ExprV)>, scope: Set<Seq<char>>) -> Set<Seq<char>>
    decreases bs.len(),
{
    if bs.len() == 0 {
        scope
    } else {
        scope_after(bs.drop_first(), scope.insert(bs[0].0))
    }
}

/// A well-formed expression, with the names of `scope` bound, inside a loop
/// or not (`in_loop`), and with the function table `funs`: each name it reads
/// or assigns is bound; no `let` binds a name twice; each `break` is inside a
/// loop; each call names a function of the table, with as many arguments as it
/// has parameters.
pub open spec fn well_formed(e: ExprV, scope: Set<Seq<char>>, in_loop: bool, funs: Map<Seq<char>, usize>) -> bool
    decreases e,
{
    match e {
        ExprV::Id(name) => scope.contains(name),
        ExprV::UnOp(_, x) => well_formed(*x, scope, in_loop, funs),
        ExprV::BinOp(_, x, y) => well_formed(*x, scope, in_loop, funs) && well_formed(*y, scope, in_loop, funs),
        ExprV::Let(bs, body) => binds_well_formed(bs, scope, in_loop, funs, Seq::empty())
            && well_formed(*body, scope_after(bs, scope), in_loop, funs),
        ExprV::If(c, t, f) => well_formed(*c, scope, in_loop, funs) && well_formed(*t, scope, in_loop, funs)
            && well_formed(*f, scope, in_loop, funs),
        ExprV::Block(es) => items_well_formed(es, scope, in_loop, funs),
        ExprV::Loop(x) => well_formed(*x, scope, true, funs),
        ExprV::Break(x) => in_loop && well_formed(*x, scope, in_loop, funs),
        ExprV::Assign(name, x) => scope.contains(name) && well_formed(*x, scope, in_loop, funs),
        ExprV::Call(name, args) => funs.contains_key(name) && args.len() == funs[name]
            && items_well_formed(args, scope, in_loop, funs),
        _ => true,
    }
}

/// Each expression of a sequence is well formed.
pub open spec fn items_well_formed(
    es: Seq<ExprV>,
    scope: Set<Seq<char>>,
    in_loop: bool,
    funs: Map<Seq<char>, usize>,
) -> bool
    decreases es,
{
    es.len() == 0 || (well_formed(es[0], scope, in_loop, funs) && items_well_formed(
        es.drop_first(),
        scope,
        in_loop,
        funs,
    ))
}

/// The bindings of a `let` are well formed after the names `seen`: each
/// binds a name not bound before in the same `let`, to a value well formed
/// in the scope of the bindings before it.
pub open spec fn binds_well_formed(
    bs: Seq<(Seq<char>, ExprV)>,
    scope: Set<Seq<char>>,
    in_loop: bool,
    funs: Map<Seq<char>, usize>,
    seen: Seq<Seq<char>>,
) -> bool
    decreases bs,
{
    bs.len() == 0 || (!seen.contains(bs[0].0) && well_formed(bs[0].1, scope, in_loop, funs)
        && binds_well_formed(bs.drop_first(), scope.insert(bs[0].0), in_loop, funs, seen.push(bs[0].0)))
}

/// Every name of `scope` has a slot in `env`, at an offset whose negation
/// fits an `i32`.
pub open spec fn scope_in(scope: Set<Seq<char>>, env: Map<Seq<char>, i32>) -> bool {
    forall|n: Seq<char>| #[trigger] scope.contains(n) ==> env.contains_key(n) && env[n] != i32::MIN
}

proof fn lemma_binds_shift(bs: Seq<(Seq<char>, ExprV)>, k: int)
    requires
        bs.len() > 0,
        k >= 0,
    ensures
        max_locals_binds(bs, k + 1) == max_locals_binds(bs, k) + 1,
    decreases bs.len(),
{
    lemma_max_locals_nonneg(bs[0].1);
    let rest = bs.drop_first();
    assert(max_locals_binds(bs, k) == larger(spec_max_locals(bs[0].1) + k, max_locals_binds(rest, k + 1)));
    assert(max_locals_binds(bs, k + 1) == larger(spec_max_locals(bs[0].1) + k + 1, max_locals_binds(rest, k + 2)));
    if rest.len() > 0 {
        lemma_binds_shift(rest, k + 1);
    } else {
        assert(max_locals_binds(rest, k + 1) == 0);
        assert(max_locals_binds(rest, k + 2) == 0);
    }
}

proof fn lemma_args_shift(args: Seq<ExprV>, k: int)
    requires
        args.len() > 0,
        k >= 0,
    ensures
        max_locals_args(args, k + 1) == max_locals_args(args, k) + 1,
    decreases args.len(),
{
    lemma_max_locals_nonneg(args[0]);
    let rest = args.drop_first();
    assert(max_locals_args(args, k) == larger(spec_max_locals(args[0]) + k, max_locals_args(rest, k + 1)));
    assert(max_locals_args(args, k + 1) == larger(spec_max_locals(args[0]) + k + 1, max_locals_args(rest, k + 2)));
    if rest.len() > 0 {
        lemma_args_shift(rest, k + 1);
    } else {
        assert(max_locals_args(rest, k + 1) == 0);
        assert(max_locals_args(rest, k + 2) == 0);
    }
}

proof fn lemma_binds_bound(bs: Seq<(Seq<char>, ExprV)>, k: int)
    requires
        k >= 0,
    ensures
        max_locals_binds(bs, k) >= 0,
        bs.len() > 0 ==> max_locals_binds(bs, k) >= k + bs.len() - 1,
    decreases bs.len(),
{
    if bs.len() > 0 {
        lemma_max_locals_nonneg(bs[0].1);
        lemma_binds_bound(bs.drop_first(), k + 1);
    }
}

proof fn lemma_args_bound(args: Seq<ExprV>, k: int)
    requires
        k >= 0,
    ensures
        max_locals_args(args, k) >= 0,
        args.len() > 0 ==> max_locals_args(args, k) >= k + args.len() - 1,
    decreases args.len(),
{
    if args.len() > 0 {
        lemma_max_locals_nonneg(args[0]);
        lemma_args_bound(args.drop_first(), k + 1);
    }
}

proof fn lemma_block_nonneg(es: Seq<ExprV>)
    ensures
        max_locals_block(es) >= 0,
    decreases es.len(),
{
    if es.len() > 0 {
        lemma_block_nonneg(es.drop_first());
    }
}

/// A well-formed expression compiles, where its temporaries and labels fit.
proof fn lemma_compiles(
    e: ExprV,
    env: Map<Seq<char>, i32>,
    funs: Map<Seq<char>, usize>,
    si: i32,
    l: i32,
    brk: Option<Label>,
    scope: Set<Seq<char>>,
    in_loop: bool,
)
    requires
        well_formed(e, scope, in_loop, funs),
        scope_in(scope, env),
        in_loop ==> brk is Some,
        1 <= si,
        8 * (si + spec_max_locals(e) + 1) <= i32::MAX,
        l + label_use(e) <= i32::MAX,
    ensures
        spec_compile(e, env, funs, si, l, brk) matches Ok((code, l2)) && l2 == l + label_use(e),
    decreases e, 0nat,
{
    lemma_max_locals_nonneg(e);
    match e {
        ExprV::Id(name) => {
            assert(scope.contains(name));
        },
        ExprV::UnOp(_, x) => {
            lemma_compiles(*x, env, funs, si, l, brk, scope, in_loop);
        },
        ExprV::BinOp(op, x, y) => {
            lemma_max_locals_nonneg(*x);
            lemma_max_locals_nonneg(*y);
            lemma_compiles(*x, env, funs, si, l, brk, scope, in_loop);
            let l1 = (l + label_use(*x)) as i32;
            lemma_compiles(*y, env, funs, (si + 1) as i32, l1, brk, scope, in_loop);
            let l2 = (l1 + label_use(*y)) as i32;
            assert(spec_binop_code(op, (si * 8) as i32, l2) matches Ok((c, l3)) && l3 == l2 + if compares(op) {
                2int
            } else {
                0int
            });
        },
        ExprV::Let(bs, body) => {
            lemma_max_locals_nonneg(*body);
            lemma_binds_bound(bs, 0);
            lemma_binds_compile(bs, env, funs, si, l, brk, Seq::empty(), scope, in_loop);
            let (c1, env1, si1, l1) = spec_compile_binds(bs, env, funs, si, l, brk, Seq::empty())->Ok_0;
            lemma_compiles(*body, env1, funs, si1, l1, brk, scope_after(bs, scope), in_loop);
        },
        ExprV::If(c, t, f) => {
            lemma_max_locals_nonneg(*c);
            lemma_max_locals_nonneg(*t);
            lemma_max_locals_nonneg(*f);
            let l0 = (l + 2) as i32;
            lemma_compiles(*c, env, funs, si, l0, brk, scope, in_loop);
            let l1 = (l0 + label_use(*c)) as i32;
            lemma_compiles(*t, env, funs, si, l1, brk, scope, in_loop);
            let l2 = (l1 + label_use(*t)) as i32;
            lemma_compiles(*f, env, funs, si, l2, brk, scope, in_loop);
        },
        ExprV::Block(es) => {
            if es.len() > 0 {
                lemma_items_compile(es, env, funs, si, l, brk, scope, in_loop);
            }
        },
        ExprV::Loop(x) => {
            let end = Label { kind: crate::assembly::LabelKind::LoopEnd, id: (l + 1) as i32 };
            lemma_compiles(*x, env, funs, si, (l + 2) as i32, Some(end), scope, true);
        },
        ExprV::Break(x) => {
            lemma_compiles(*x, env, funs, si, l, brk, scope, in_loop);
        },
        ExprV::Assign(name, x) => {
            lemma_compiles(*x, env, funs, si, l, brk, scope, in_loop);
            assert(scope.contains(name));
        },
        ExprV::Call(name, args) => {
            lemma_args_bound(args, 0);
            lemma_args_compile(args, env, funs, si, l, brk, scope, in_loop);
        },
        _ => {},
    }
}

proof fn lemma_binds_compile(
    bs: Seq<(Seq<char>, ExprV)>,
    env: Map<Seq<char>, i32>,
    funs: Map<Seq<char>, usize>,
    si: i32,
    l: i32,
    brk: Option<Label>,
    seen: Seq<Seq<char>>,
    scope: Set<Seq<char>>,
    in_loop: bool,
)
    requires
        binds_well_formed(bs, scope, in_loop, funs, seen),
        scope_in(scope, env),
        in_loop ==> brk is Some,
        1 <= si,
        8 * (si + larger(max_locals_binds(bs, 0), bs.len() as int) + 1) <= i32::MAX,
        l + binds_label_use(bs) <= i32::MAX,
    ensures
        spec_compile_binds(bs, env, funs, si, l, brk, seen) matches Ok((code, env2, si2, l2)) && si2
            == si + bs.len() && l2 == l + binds_label_use(bs) && scope_in(scope_after(bs, scope), env2),
    decreases bs, 0nat,
{
    if bs.len() > 0 {
        let name = bs[0].0;
        let rest = bs.drop_first();
        lemma_max_locals_nonneg(bs[0].1);
        lemma_binds_bound(bs, 0);
        lemma_binds_bound(rest, 1);
        lemma_compiles(bs[0].1, env, funs, si, l, brk, scope, in_loop);
        let l1 = (l + label_use(bs[0].1)) as i32;
        let o = (si * 8) as i32;
        let env1 = env.insert(name, (-o) as i32);
        assert(scope_in(scope.insert(name), env1));
        if rest.len() > 0 {
            lemma_binds_shift(rest, 0);
        }
        lemma_binds_compile(rest, env1, funs, (si + 1) as i32, l1, brk, seen.push(name), scope.insert(name), in_loop);
    }
}

proof fn lemma_items_compile(
    es: Seq<ExprV>,
    env: Map<Seq<char>, i32>,
    funs: Map<Seq<char>, usize>,
    si: i32,
    l: i32,
    brk: Option<Label>,
    scope: Set<Seq<char>>,
    in_loop: bool,
)
    requires
        items_well_formed(es, scope, in_loop, funs),
        scope_in(scope, env),
        in_loop ==> brk is Some,
        1 <= si,
        8 * (si + max_locals_block(es) + 1) <= i32::MAX,
        l + items_label_use(es) <= i32::MAX,
    ensures
        spec_compile_items(es, env, funs, si, l, brk) matches Ok((code, l2)) && l2 == l + items_label_use(es),
    decreases es, 0nat,
{
    if es.len() > 0 {
        lemma_max_locals_nonneg(es[0]);
        lemma_block_nonneg(es.drop_first());
        lemma_compiles(es[0], env, funs, si, l, brk, scope, in_loop);
        let l1 = (l + label_use(es[0])) as i32;
        lemma_items_compile(es.drop_first(), env, funs, si, l1, brk, scope, in_loop);
    }
}

proof fn lemma_args_compile(
    args: Seq<ExprV>,
    env: Map<Seq<char>, i32>,
    funs: Map<Seq<char>, usize>,
    si: i32,
    l: i32,
    brk: Option<Label>,
    scope: Set<Seq<char>>,
    in_loop: bool,
)
    requires
        items_well_formed(args, scope, in_loop, funs),
        scope_in(scope, env),
        in_loop ==> brk is Some,
        1 <= si,
        args.len() > 0 ==> 8 * (si + max_locals_args(args, 0) + 1) <= i32::MAX,
        l + items_label_use(args) <= i32::MAX,
    ensures
        spec_compile_args(args, env, funs, si, l, brk) matches Ok((code, l2)) && l2 == l + items_label_use(args),
    decreases args, 0nat,
{
    if args.len() > 0 {
        let rest = args.drop_first();
        lemma_max_locals_nonneg(args[0]);
        lemma_args_bound(args, 0);
        lemma_args_bound(rest, 1);
        lemma_compiles(args[0], env, funs, si, l, brk, scope, in_loop);
        let l1 = (l + label_use(args[0])) as i32;
        if rest.len() > 0 {
            lemma_args_shift(rest, 0);
        }
        lemma_args_compile(rest, env, funs, (si + 1) as i32, l1, brk, scope, in_loop);
    }
}

/// Law: a well-formed expression always compiles, where its temporaries and
/// labels fit: with every name of its scope given a slot, a `break` target
/// where it stands inside a loop, its temporaries `si..` within the `i32`
/// byte offsets, and room in the label counter for the labels it takes; the
/// counter then moves on by exactly those labels.
pub proof fn law_well_formed_compiles(
    e: ExprV,
    env: Map<Seq<char>, i32>,
    funs: Map<Seq<char>, usize>,
    si: i32,
    l: i32,
    brk: Option<Label>,
    scope: Set<Seq<char>>,
    in_loop: bool,
)
    requires
        well_formed(e, scope, in_loop, funs),
        scope_in(scope, env),
        in_loop ==> brk is Some,
        1 <= si,
        8 * (si + spec_max_locals(e) + 1) <= i32::MAX,
        l + label_use(e) <= i32::MAX,
    ensures
        spec_compile(e, env, funs, si, l, brk) matches Ok((code, l2)) && l2 == l + label_use(e),
{
    lemma_compiles(e, env, funs, si, l, brk, scope, in_loop);
}

/// The names of a parameter list, as a set.
pub open spec fn param_scope(ps: Seq<Seq<char>>) -> Set<Seq<char>> {
    Set::new(|n: Seq<char>| ps.contains(n))
}

/// The labels that the bodies of the definitions `ds` take.
pub open spec fn defns_label_use(ds: Seq<DefinitionV>) -> nat
    decreases ds.len(),
{
    if ds.len() == 0 {
        0
    } else {
        label_use(ds[0].body) + defns_label_use(ds.drop_first())
    }
}

/// A well-formed program: its functions have distinct names; each body is
/// well formed with its parameters in scope, outside any loop; and so is the
/// main expression, with no names in scope; calls go by the program's own
/// function table.
pub open spec fn program_well_formed(p: ProgramV) -> bool {
    &&& forall|i: int, j: int|
        0 <= i < j < p.defns.len() ==> #[trigger] p.defns[i].name != #[trigger] p.defns[j].name
    &&& forall|i: int|
        0 <= i < p.defns.len() ==> well_formed(
            #[trigger] p.defns[i].body,
            param_scope(p.defns[i].params),
            false,
            program_funs(p),
        )
    &&& well_formed(p.main, Set::empty(), false, program_funs(p))
}

/// The sizes of a program fit the `i32` offsets and label numbers of its
/// code: each function's parameter slots and frame, the main frame, and the
/// labels of the whole program.
pub open spec fn program_fits(p: ProgramV) -> bool {
    &&& forall|i: int|
        0 <= i < p.defns.len() ==> 8 * (#[trigger] p.defns[i].params.len() + 1) <= i32::MAX
            && 8 * (spec_max_locals(p.defns[i].body) + 2) <= i32::MAX
    &&& 8 * (spec_max_locals(p.main) + 2) <= i32::MAX
    &&& defns_label_use(p.defns) + label_use(p.main) <= i32::MAX
}

proof fn lemma_param_slots(ps: Seq<Seq<char>>, k: int, env: Map<Seq<char>, i32>, scope: Set<Seq<char>>)
    requires
        k >= 0,
        8 * (k + ps.len() + 1) <= i32::MAX,
        scope_in(scope, env),
    ensures
        spec_param_slots(ps, k, env) matches Ok(env2) && scope_in(scope.union(param_scope(ps)), env2),
    decreases ps.len(),
{
    if ps.len() == 0 {
        assert(scope.union(param_scope(ps)) =~= scope);
    } else {
        let rest = ps.drop_first();
        let env1 = env.insert(ps[0], (16 + k * 8) as i32);
        let scope1 = scope.insert(ps[0]);
        assert(scope_in(scope1, env1));
        lemma_param_slots(rest, k + 1, env1, scope1);
        assert forall|n: Seq<char>| ps.contains(n) implies n == ps[0] || rest.contains(n) by {
            let j = choose|j: int| 0 <= j < ps.len() && ps[j] == n;
            if j > 0 {
                assert(rest[j - 1] == n);
            }
        }
        assert(scope.union(param_scope(ps)).subset_of(scope1.union(param_scope(rest))));
    }
}

proof fn lemma_defns_compile(ds: Seq<DefinitionV>, funs: Map<Seq<char>, usize>, l: i32)
    requires
        forall|i: int|
            0 <= i < ds.len() ==> well_formed(#[trigger] ds[i].body, param_scope(ds[i].params), false, funs),
        forall|i: int|
            0 <= i < ds.len() ==> 8 * (#[trigger] ds[i].params.len() + 1) <= i32::MAX && 8 * (
            spec_max_locals(ds[i].body) + 2) <= i32::MAX,
        l + defns_label_use(ds) <= i32::MAX,
    ensures
        spec_compile_defns(ds, funs, l) matches Ok((ts, l2)) && l2 == l + defns_label_use(ds),
    decreases ds.len(),
{
    if ds.len() > 0 {
        let d = ds[0];
        let rest = ds.drop_first();
        assert forall|i: int| 0 <= i < rest.len() implies #[trigger] rest[i] == ds[i + 1] by {}
        assert(well_formed(d.body, param_scope(d.params), false, funs));
        assert(8 * (d.params.len() + 1) <= i32::MAX);
        lemma_max_locals_nonneg(d.body);
        lemma_param_slots(d.params, 0, Map::empty(), Set::empty());
        let env = spec_param_slots(d.params, 0, Map::empty())->Ok_0;
        assert(Set::<Seq<char>>::empty().union(param_scope(d.params)) =~= param_scope(d.params));
        lemma_compiles(d.body, env, funs, 1, l, None, param_scope(d.params), false);
        let l1 = (l + label_use(d.body)) as i32;
        assert forall|i: int| 0 <= i < rest.len() implies well_formed(
            #[trigger] rest[i].body,
            param_scope(rest[i].params),
            false,
            funs,
        ) by {
            assert(rest[i] == ds[i + 1]);
        }
        assert forall|i: int| 0 <= i < rest.len() implies 8 * (#[trigger] rest[i].params.len() + 1)
            <= i32::MAX && 8 * (spec_max_locals(rest[i].body) + 2) <= i32::MAX by {
            assert(rest[i] == ds[i + 1]);
        }
        lemma_defns_compile(rest, funs, l1);
    }
}

/// Law: a well-formed program whose sizes fit always compiles.
pub proof fn law_well_formed_program_compiles(p: ProgramV)
    requires
        program_well_formed(p),
        program_fits(p),
    ensures
        spec_compile_program(p) is Ok,
{
    let ds = p.defns;
    law_fun_table(ds, Map::empty());
    let funs = program_funs(p);
    lemma_defns_compile(ds, funs, 0);
    let l = spec_compile_defns(ds, funs, 0)->Ok_0.1;
    lemma_max_locals_nonneg(p.main);
    assert(scope_in(Set::empty(), Map::empty()));
    lemma_compiles(p.main, Map::empty(), funs, 1, l, None, Set::empty(), false);
}

#[verifier::spinoff_prover]
proof fn lemma_compiled_well_formed(
    e: ExprV,
    env: Map<Seq<char>, i32>,
    funs: Map<Seq<char>, usize>,
    si: i32,
    l: i32,
    brk: Option<Label>,
)
    requires
        spec_compile(e, env, funs, si, l, brk) is Ok,
    ensures
        well_formed(e, env.dom(), brk is Some, funs),
    decreases e, 0nat,
{
    match e {
        ExprV::UnOp(_, x) => lemma_compiled_well_formed(*x, env, funs, si, l, brk),
        ExprV::BinOp(op, x, y) => {
            lemma_compiled_well_formed(*x, env, funs, si, l, brk);
            let l1 = spec_compile(*x, env, funs, si, l, brk)->Ok_0.1;
            lemma_compiled_well_formed(*y, env, funs, (si + 1) as i32, l1, brk);
        },
        ExprV::Let(bs, body) => {
            lemma_compiled_binds_well_formed(bs, env, funs, si, l, brk, Seq::empty());
            let (c1, env1, si1, l1) = spec_compile_binds(bs, env, funs, si, l, brk, Seq::empty())->Ok_0;
            lemma_compiled_well_formed(*body, env1, funs, si1, l1, brk);
        },
        ExprV::If(c, t, f) => {
            let l0 = (l + 2) as i32;
            lemma_compiled_well_formed(*c, env, funs, si, l0, brk);
            let l1 = spec_compile(*c, env, funs, si, l0, brk)->Ok_0.1;
            lemma_compiled_well_formed(*t, env, funs, si, l1, brk);
            let l2 = spec_compile(*t, env, funs, si, l1, brk)->Ok_0.1;
            lemma_compiled_well_formed(*f, env, funs, si, l2, brk);
        },
        ExprV::Block(es) => {
            if es.len() > 0 {
                lemma_compiled_items_well_formed(es, env, funs, si, l, brk);
            }
        },
        ExprV::Loop(x) => {
            let end = Label { kind: crate::assembly::LabelKind::LoopEnd, id: (l + 1) as i32 };
            lemma_compiled_well_formed(*x, env, funs, si, (l + 2) as i32, Some(end));
        },
        ExprV::Break(x) => lemma_compiled_well_formed(*x, env, funs, si, l, brk),
        ExprV::Assign(_, x) => lemma_compiled_well_formed(*x, env, funs, si, l, brk),
        ExprV::Call(_, args) => lemma_compiled_args_well_formed(args, env, funs, si, l, brk),
        _ => {},
    }
}

proof fn lemma_compiled_binds_well_formed(
    bs: Seq<(Seq<char>, ExprV)>,
    env: Map<Seq<char>, i32>,
    funs: Map<Seq<char>, usize>,
    si: i32,
    l: i32,
    brk: Option<Label>,
    seen: Seq<Seq<char>>,
)
    requires
        spec_compile_binds(bs, env, funs, si, l, brk, seen) is Ok,
    ensures
        binds_well_formed(bs, env.dom(), brk is Some, funs, seen),
        spec_compile_binds(bs, env, funs, si, l, brk, seen)->Ok_0.1.dom() == scope_after(bs, env.dom()),
    decreases bs, 0nat,
{
    if bs.len() > 0 {
        let name = bs[0].0;
        lemma_compiled_well_formed(bs[0].1, env, funs, si, l, brk);
        let l1 = spec_compile(bs[0].1, env, funs, si, l, brk)->Ok_0.1;
        let o = (si * 8) as i32;
        let env1 = env.insert(name, (-o) as i32);
        assert(env1.dom() =~= env.dom().insert(name));
        lemma_compiled_binds_well_formed(bs.drop_first(), env1, funs, (si + 1) as i32, l1, brk, seen.push(name));
    }
}

proof fn lemma_compiled_items_well_formed(
    es: Seq<ExprV>,
    env: Map<Seq<char>, i32>,
    funs: Map<Seq<char>, usize>,
    si: i32,
    l: i32,
    brk: Option<Label>,
)
    requires
        spec_compile_items(es, env, funs, si, l, brk) is Ok,
    ensures
        items_well_formed(es, env.dom(), brk is Some, funs),
    decreases es, 0nat,
{
    if es.len() > 0 {
        lemma_compiled_well_formed(es[0], env, funs, si, l, brk);
        let l1 = spec_compile(es[0], env, funs, si, l, brk)->Ok_0.1;
        lemma_compiled_items_well_formed(es.drop_first(), env, funs, si, l1, brk);
    }
}

proof fn lemma_compiled_args_well_formed(
    args: Seq<ExprV>,
    env: Map<Seq<char>, i32>,
    funs: Map<Seq<char>, usize>,
    si: i32,
    l: i32,
    brk: Option<Label>,
)
    requires
        spec_compile_args(args, env, funs, si, l, brk) is Ok,
    ensures
        items_well_formed(args, env.dom(), brk is Some, funs),
    decreases args, 0nat,
{
    if args.len() > 0 {
        lemma_compiled_well_formed(args[0], env, funs, si, l, brk);
        let l1 = spec_compile(args[0], env, funs, si, l, brk)->Ok_0.1;
        lemma_compiled_args_well_formed(args.drop_first(), env, funs, (si + 1) as i32, l1, brk);
    }
}

/// Law: only well-formed expressions compile. An expression that reads or
/// assigns a name without a slot, binds a name twice in one `let`, breaks
/// outside any loop (with no `break` target), calls a function that is not
/// in the table or with another number of arguments, is refused.
pub proof fn law_compiled_is_well_formed(
    e: ExprV,
    env: Map<Seq<char>, i32>,
    funs: Map<Seq<char>, usize>,
    si: i32,
    l: i32,
    brk: Option<Label>,
)
    ensures
        spec_compile(e, env, funs, si, l, brk) is Ok ==> well_formed(e, env.dom(), brk is Some, funs),
{
    if spec_compile(e, env, funs, si, l, brk) is Ok {
        lemma_compiled_well_formed(e, env, funs, si, l, brk);
    }
}

proof fn lemma_param_slots_dom(ps: Seq<Seq<char>>, k: int, env: Map<Seq<char>, i32>)
    requires
        spec_param_slots(ps, k, env) is Ok,
    ensures
        spec_param_slots(ps, k, env)->Ok_0.dom() == env.dom().union(param_scope(ps)),
    decreases ps.len(),
{
    if ps.len() > 0 {
        let rest = ps.drop_first();
        let env1 = env.insert(ps[0], (16 + k * 8) as i32);
        lemma_param_slots_dom(rest, k + 1, env1);
        assert forall|n: Seq<char>| ps.contains(n) implies n == ps[0] || rest.contains(n) by {
            let j = choose|j: int| 0 <= j < ps.len() && ps[j] == n;
            if j > 0 {
                assert(rest[j - 1] == n);
            }
        }
        assert forall|n: Seq<char>| rest.contains(n) implies ps.contains(n) by {
            let j = choose|j: int| 0 <= j < rest.len() && rest[j] == n;
            assert(ps[j + 1] == n);
        }
        assert(ps.contains(ps[0]));
        assert(env1.dom().union(param_scope(rest)) =~= env.dom().union(param_scope(ps)));
    } else {
        assert(env.dom().union(param_scope(ps)) =~= env.dom());
    }
}

/// Law: only well-formed programs compile: a program with two functions of
/// one name, or a body or main expression that is not well formed (see
/// `law_compiled_is_well_formed`), is refused.
pub proof fn law_compiled_program_is_well_formed(p: ProgramV)
    ensures
        spec_compile_program(p) is Ok ==> program_well_formed(p),
{
    if spec_compile_program(p) is Ok {
        let ds = p.defns;
        law_fun_table(ds, Map::empty());
        let funs = program_funs(p);
        law_defns_in_order(ds, funs, 0);
        let ts = spec_compile_defns(ds, funs, 0)->Ok_0.0;
        let l = spec_compile_defns(ds, funs, 0)->Ok_0.1;
        assert forall|i: int| 0 <= i < ds.len() implies well_formed(
            #[trigger] ds[i].body,
            param_scope(ds[i].params),
            false,
            funs,
        ) by {
            let ci = counter_at(ds, funs, 0, i);
            assert(spec_compile_defn(ds[i], funs, ci) == Ok::<(Seq<char>, i32), Fault>((ts[i], counter_at(ds, funs, 0, i + 1))));
            let env = spec_param_slots(ds[i].params, 0, Map::empty())->Ok_0;
            lemma_param_slots_dom(ds[i].params, 0, Map::empty());
            assert(Map::<Seq<char>, i32>::empty().dom().union(param_scope(ds[i].params)) =~= param_scope(ds[i].params));
            lemma_compiled_well_formed(ds[i].body, env, funs, 1, ci, None);
        }
        lemma_compiled_well_formed(p.main, Map::empty(), funs, 1, l, None);
        assert(Map::<Seq<char>, i32>::empty().dom() =~= Set::<Seq<char>>::empty());
    }
}

} // verus!
