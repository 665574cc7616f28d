//! The shape of what the library builds: how many temporaries an expression
//! needs against its parts, and how a parsed program is made of its items.
use vstd::prelude::*;
use crate::ast::{DefinitionV, ExprV, ProgramV};
use crate::error::Fault;
use crate::compiler::{
    lemma_max_locals_nonneg, max_locals_args, max_locals_binds, max_locals_block, spec_max_locals,
};
use crate::parser::{spec_parse_expr, spec_parse_items, spec_parse_program, spec_try_parse_defn};
use crate::sexpr::SExpr;

verus! {

proof fn lemma_binds_cover(bs: Seq<(Seq<char>, ExprV)>, k: int)
    ensures
        forall|i: int|
            0 <= i < bs.len() ==> max_locals_binds(bs, k) >= spec_max_locals(#[trigger] bs[i].1) + k
                + i,
    decreases bs.len(),
{
    if bs.len() > 0 {
        lemma_binds_cover(bs.drop_first(), k + 1);
        assert forall|i: int| 0 <= i < bs.len() implies max_locals_binds(bs, k) >= spec_max_locals(
            #[trigger] bs[i].1,
        ) + k + i by {
            if i > 0 {
                assert(bs.drop_first()[i - 1] == bs[i]);
            }
        }
    }
}

proof fn lemma_args_cover(args: Seq<ExprV>, k: int)
    ensures
        forall|i: int|
            0 <= i < args.len() ==> max_locals_args(args, k) >= spec_max_locals(#[trigger] args[i]) + k
                + i,
    decreases args.len(),
{
    if args.len() > 0 {
        lemma_args_cover(args.drop_first(), k + 1);
        assert forall|i: int| 0 <= i < args.len() implies max_locals_args(args, k) >= spec_max_locals(
            #[trigger] args[i],
        ) + k + i by {
            if i > 0 {
                assert(args.drop_first()[i - 1] == args[i]);
            }
        }
    }
}

proof fn lemma_block_cover(es: Seq<ExprV>)
    ensures
        forall|i: int| 0 <= i < es.len() ==> max_locals_block(es) >= spec_max_locals(#[trigger] es[i]),
    decreases es.len(),
{
    if es.len() > 0 {
        lemma_block_cover(es.drop_first());
        assert forall|i: int| 0 <= i < es.len() implies max_locals_block(es) >= spec_max_locals(
            #[trigger] es[i],
        ) by {
            if i > 0 {
                assert(es.drop_first()[i - 1] == es[i]);
            }
        }
    }
}

/// Law: the temporaries that an expression needs cover those of each of its
/// direct parts, counted from the slot that the part is compiled at: a
/// binary operation's second operand one slot on, a `let`'s `i`-th value `i`
/// slots on and its body past all the bindings, a call's `i`-th argument `i`
/// slots on; a unary operation, loop, break or assignment needs just what its
/// operand needs, and a constant or variable none.
pub proof fn law_max_locals_covers_parts(e: ExprV)
    ensures
        spec_max_locals(e) >= 0,
        match e {
            ExprV::UnOp(_, x) => spec_max_locals(e) == spec_max_locals(*x),
            ExprV::BinOp(_, x, y) => spec_max_locals(e) >= spec_max_locals(*x) && spec_max_locals(e)
                >= spec_max_locals(*y) + 1,
            ExprV::Let(bs, body) => (forall|i: int|
                0 <= i < bs.len() ==> spec_max_locals(e) >= spec_max_locals(#[trigger] bs[i].1) + i)
                && spec_max_locals(e) >= spec_max_locals(*body) + bs.len(),
            ExprV::If(c, t, f) => spec_max_locals(e) >= spec_max_locals(*c) && spec_max_locals(e)
                >= spec_max_locals(*t) && spec_max_locals(e) >= spec_max_locals(*f),
            ExprV::Block(es) => forall|i: int|
                0 <= i < es.len() ==> spec_max_locals(e) >= spec_max_locals(#[trigger] es[i]),
            ExprV::Loop(x) => spec_max_locals(e) == spec_max_locals(*x),
            ExprV::Break(x) => spec_max_locals(e) == spec_max_locals(*x),
            ExprV::Assign(_, x) => spec_max_locals(e) == spec_max_locals(*x),
            ExprV::Call(_, args) => forall|i: int|
                0 <= i < args.len() ==> spec_max_locals(e) >= spec_max_locals(#[trigger] args[i]) + i,
            _ => spec_max_locals(e) == 0,
        },
{
    lemma_max_locals_nonneg(e);
    match e {
        ExprV::Let(bs, body) => lemma_binds_cover(bs, 0),
        ExprV::Block(es) => lemma_block_cover(es),
        ExprV::Call(_, args) => lemma_args_cover(args, 0),
        _ => {},
    }
}

/// The definitions among `items`, in order: those that read as definitions.
pub open spec fn defns_of(items: Seq<SExpr>) -> Seq<DefinitionV>
    decreases items.len(),
{
    if items.len() == 0 {
        Seq::empty()
    } else {
        match spec_try_parse_defn(items[0]) {
            Ok(Some(d)) => seq![d] + defns_of(items.drop_first()),
            _ => defns_of(items.drop_first()),
        }
    }
}

/// Whether the item at `k` reads as a definition.
pub open spec fn is_defn_item(items: Seq<SExpr>, k: int) -> bool {
    spec_try_parse_defn(items[k]) matches Ok(Some(_))
}

proof fn lemma_items_structure(items: Seq<SExpr>, defns: Seq<DefinitionV>, main: Option<ExprV>)
    ensures
        spec_parse_items(items, defns, main) matches Ok(p) ==> {
            &&& p.defns == defns + defns_of(items)
            &&& main matches Some(m) ==> p.main == m && forall|j: int|
                0 <= j < items.len() ==> #[trigger] is_defn_item(items, j)
            &&& main is None ==> exists|k: int|
                0 <= k < items.len() && !is_defn_item(items, k) && p.main == spec_parse_expr(
                    items[k],
                )->Ok_0 && forall|j: int| 0 <= j < items.len() && j != k ==> #[trigger] is_defn_item(items, j)
        },
    decreases items.len(),
{
    if items.len() == 0 {
        assert(defns + Seq::<DefinitionV>::empty() =~= defns);
    } else {
        let rest = items.drop_first();
        assert forall|j: int| 0 < j < items.len() implies #[trigger] is_defn_item(items, j) == is_defn_item(rest, j - 1) by {
            assert(rest[j - 1] == items[j]);
        }
        match spec_try_parse_defn(items[0]) {
            Ok(Some(d)) => {
                lemma_items_structure(rest, defns.push(d), main);
                assert(defns.push(d) + defns_of(rest) =~= defns + (seq![d] + defns_of(rest)));
                match spec_parse_items(items, defns, main) {
                    Ok(p) => {
                        if main is None {
                            let k0 = choose|k: int|
                                0 <= k < rest.len() && !is_defn_item(rest, k) && p.main
                                    == spec_parse_expr(rest[k])->Ok_0 && forall|j: int|
                                    0 <= j < rest.len() && j != k ==> #[trigger] is_defn_item(rest, j);
                            assert(rest[k0] == items[k0 + 1]);
                            assert(is_defn_item(items, 0));
                            assert forall|j: int| 0 <= j < items.len() && j != k0 + 1 implies #[trigger] is_defn_item(items, j) by {
                                if j > 0 {
                                    assert(is_defn_item(rest, j - 1));
                                }
                            }
                            assert(!is_defn_item(items, k0 + 1));
                        } else {
                            assert(is_defn_item(items, 0));
                            assert forall|j: int| 0 <= j < items.len() implies #[trigger] is_defn_item(items, j) by {
                                if j > 0 {
                                    assert(is_defn_item(rest, j - 1));
                                }
                            }
                        }
                    },
                    Err(_) => {},
                }
            },
            Ok(None) => {
                if main is None {
                    match spec_parse_expr(items[0]) {
                        Ok(m) => {
                            lemma_items_structure(rest, defns, Some(m));
                            match spec_parse_items(items, defns, main) {
                                Ok(p) => {
                                    assert(!is_defn_item(items, 0));
                                    assert forall|j: int| 0 <= j < items.len() && j != 0 implies #[trigger] is_defn_item(items, j) by {
                                        assert(is_defn_item(rest, j - 1));
                                    }
                                },
                                Err(_) => {},
                            }
                        },
                        Err(_) => {},
                    }
                }
            },
            Err(_) => {},
        }
    }
}

/// Law: a program that the parser accepts is a list of items in which the
/// definitions are, in order, the items that read as definitions, and the
/// main expression is what the one other item reads as.
pub proof fn law_program_items(s: SExpr)
    ensures
        spec_parse_program(s) matches Ok(p) ==> s matches SExpr::List(items) && {
            &&& p.defns == defns_of(items@)
            &&& exists|k: int|
                0 <= k < items@.len() && !is_defn_item(items@, k) && p.main == spec_parse_expr(
                    items@[k],
                )->Ok_0 && forall|j: int|
                    0 <= j < items@.len() && j != k ==> #[trigger] is_defn_item(items@, j)
        },
{
    match s {
        SExpr::List(items) => {
            lemma_items_structure(items@, Seq::empty(), None);
            assert(Seq::<DefinitionV>::empty() + defns_of(items@) =~= defns_of(items@));
        },
        _ => {},
    }
}

/// Each item reads: as a definition, or else as an expression.
pub open spec fn items_read(items: Seq<SExpr>) -> bool {
    forall|k: int|
        0 <= k < items.len() ==> match #[trigger] spec_try_parse_defn(items[k]) {
            Ok(Some(_)) => true,
            Ok(None) => spec_parse_expr(items[k]) is Ok,
            Err(_) => false,
        }
}

/// The number of items that do not read as definitions.
pub open spec fn main_count(items: Seq<SExpr>) -> nat
    decreases items.len(),
{
    if items.len() == 0 {
        0
    } else {
        (if is_defn_item(items, 0) {
            0nat
        } else {
            1nat
        }) + main_count(items.drop_first())
    }
}

proof fn lemma_items_accepted(items: Seq<SExpr>, defns: Seq<DefinitionV>, main: Option<ExprV>)
    requires
        items_read(items),
    ensures
        main is None ==> {
            &&& spec_parse_items(items, defns, main) is Ok <==> main_count(items) == 1
            &&& main_count(items) == 0 ==> spec_parse_items(items, defns, main) == Err::<ProgramV, Fault>(
                Fault::NoMain,
            )
            &&& main_count(items) >= 2 ==> spec_parse_items(items, defns, main) == Err::<ProgramV, Fault>(
                Fault::MultipleMain,
            )
        },
        main is Some ==> {
            &&& spec_parse_items(items, defns, main) is Ok <==> main_count(items) == 0
            &&& main_count(items) >= 1 ==> spec_parse_items(items, defns, main) == Err::<ProgramV, Fault>(
                Fault::MultipleMain,
            )
        },
    decreases items.len(),
{
    if items.len() > 0 {
        let rest = items.drop_first();
        assert forall|k: int| 0 <= k < rest.len() implies match #[trigger] spec_try_parse_defn(rest[k]) {
            Ok(Some(_)) => true,
            Ok(None) => spec_parse_expr(rest[k]) is Ok,
            Err(_) => false,
        } by {
            assert(rest[k] == items[k + 1]);
            assert(match spec_try_parse_defn(items[k + 1]) {
                Ok(Some(_)) => true,
                Ok(None) => spec_parse_expr(items[k + 1]) is Ok,
                Err(_) => false,
            });
        }
        assert(match spec_try_parse_defn(items[0]) {
            Ok(Some(_)) => true,
            Ok(None) => spec_parse_expr(items[0]) is Ok,
            Err(_) => false,
        });
        match spec_try_parse_defn(items[0]) {
            Ok(Some(d)) => {
                lemma_items_accepted(rest, defns.push(d), main);
            },
            Ok(None) => {
                if main is None {
                    let m = spec_parse_expr(items[0])->Ok_0;
                    lemma_items_accepted(rest, defns, Some(m));
                }
            },
            Err(_) => {},
        }
    }
}

/// Law: a list whose items each read (as a definition, or else as an
/// expression) is accepted as a program exactly when one item does not read
/// as a definition; with none it is refused for having no main expression,
/// with more than one for having several. Anything but a list is refused.
pub proof fn law_program_accepted(s: SExpr)
    ensures
        !(s is List) ==> spec_parse_program(s) == Err::<ProgramV, Fault>(Fault::InvalidProgram),
        s matches SExpr::List(items) ==> (items_read(items@) ==> {
            &&& spec_parse_program(s) is Ok <==> main_count(items@) == 1
            &&& main_count(items@) == 0 ==> spec_parse_program(s) == Err::<ProgramV, Fault>(Fault::NoMain)
            &&& main_count(items@) >= 2 ==> spec_parse_program(s) == Err::<ProgramV, Fault>(
                Fault::MultipleMain,
            )
        }),
{
    match s {
        SExpr::List(items) => {
            if items_read(items@) {
                lemma_items_accepted(items@, Seq::empty(), None);
            }
        },
        _ => {},
    }
}

} // verus!
