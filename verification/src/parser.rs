//! From S-expressions to the abstract syntax of Adder programs.
use vstd::prelude::*;
use vstd::string::*;
use crate::ast::{
    binds_view, defns_view, expr_view, exprs_view, names_view, lemma_binds_view_push, lemma_exprs_view_push, Definition,
    DefinitionV, Expr, ExprV, Op1, Op2, Program, ProgramV,
};
use crate::error::{agrees, CompileError, Fault};
use crate::ident::{is_valid_identifier, valid_identifier};
use crate::sexpr::{read_sexp, sexp_reading, Atom, SExpr};
use crate::text::same_text;

verus! {

/// The unary operator that a name stands for.
pub open spec fn unary_op(op: Seq<char>) -> Option<Op1> {
    if op == "add1"@ {
        Some(Op1::Add1)
    } else if op == "sub1"@ {
        Some(Op1::Sub1)
    } else if op == "negate"@ {
        Some(Op1::Negate)
    } else if op == "isnum"@ {
        Some(Op1::IsNum)
    } else if op == "isbool"@ {
        Some(Op1::IsBool)
    } else if op == "print"@ {
        Some(Op1::Print)
    } else {
        None
    }
}

/// The binary operator that a name stands for.
pub open spec fn binary_op(op: Seq<char>) -> Option<Op2> {
    if op == "+"@ {
        Some(Op2::Plus)
    } else if op == "-"@ {
        Some(Op2::Minus)
    } else if op == "*"@ {
        Some(Op2::Times)
    } else if op == "<"@ {
        Some(Op2::Less)
    } else if op == ">"@ {
        Some(Op2::Greater)
    } else if op == "<="@ {
        Some(Op2::LessEq)
    } else if op == ">="@ {
        Some(Op2::GreaterEq)
    } else if op == "="@ {
        Some(Op2::Equal)
    } else {
        None
    }
}

/// The expression that an S-expression denotes, or why there is none.
pub open spec fn spec_parse_expr(s: SExpr) -> Result<ExprV, Fault>
    decreases s,
{
    match s {
        SExpr::Atom(Atom::I(n)) => {
            if i32::MIN <= n <= i32::MAX {
                Ok(ExprV::Num(n as i32))
            } else {
                Err(Fault::InvalidInteger)
            }
        },
        SExpr::Atom(Atom::S(name)) => {
            if name@ == "true"@ {
                Ok(ExprV::Bool(true))
            } else if name@ == "false"@ {
                Ok(ExprV::Bool(false))
            } else if name@ == "input"@ {
                Ok(ExprV::Input)
            } else if valid_identifier(name@) {
                Ok(ExprV::Id(name@))
            } else {
                Err(Fault::InvalidIdentifier(name@))
            }
        },
        SExpr::Atom(Atom::F) => Err(Fault::InvalidExpression),
        SExpr::List(v) => {
            let n = v@.len();
            if n == 0 {
                Err(Fault::EmptyList)
            } else {
                match v@[0] {
                    SExpr::Atom(Atom::S(op)) => {
                        if unary_op(op@) is Some {
                            if n != 2 {
                                Err(Fault::UnaryArity)
                            } else {
                                match spec_parse_expr(v@[1]) {
                                    Ok(x) => Ok(ExprV::UnOp(unary_op(op@)->0, Box::new(x))),
                                    Err(f) => Err(f),
                                }
                            }
                        } else if binary_op(op@) is Some {
                            if n != 3 {
                                Err(Fault::BinaryArity)
                            } else {
                                match spec_parse_expr(v@[1]) {
                                    Ok(x) => match spec_parse_expr(v@[2]) {
                                        Ok(y) => Ok(
                                            ExprV::BinOp(binary_op(op@)->0, Box::new(x), Box::new(y)),
                                        ),
                                        Err(f) => Err(f),
                                    },
                                    Err(f) => Err(f),
                                }
                            }
                        } else if op@ == "let"@ {
                            if n != 3 {
                                Err(Fault::LetArity)
                            } else {
                                match v@[1] {
                                    SExpr::List(b) => {
                                        if b@.len() == 0 {
                                            Err(Fault::EmptyBindings)
                                        } else {
                                            match spec_parse_binds(b@) {
                                                Ok(bs) => match spec_parse_expr(v@[2]) {
                                                    Ok(body) => Ok(ExprV::Let(bs, Box::new(body))),
                                                    Err(f) => Err(f),
                                                },
                                                Err(f) => Err(f),
                                            }
                                        }
                                    },
                                    _ => Err(Fault::BindingsFormat),
                                }
                            }
                        } else if op@ == "if"@ {
                            if n != 4 {
                                Err(Fault::IfArity)
                            } else {
                                match spec_parse_expr(v@[1]) {
                                    Ok(c) => match spec_parse_expr(v@[2]) {
                                        Ok(t) => match spec_parse_expr(v@[3]) {
                                            Ok(f) => Ok(
                                                ExprV::If(Box::new(c), Box::new(t), Box::new(f)),
                                            ),
                                            Err(x) => Err(x),
                                        },
                                        Err(x) => Err(x),
                                    },
                                    Err(x) => Err(x),
                                }
                            }
                        } else if op@ == "block"@ {
                            if n < 2 {
                                Err(Fault::BlockArity)
                            } else {
                                match spec_parse_exprs(v@.drop_first()) {
                                    Ok(es) => Ok(ExprV::Block(es)),
                                    Err(f) => Err(f),
                                }
                            }
                        } else if op@ == "loop"@ {
                            if n != 2 {
                                Err(Fault::LoopArity)
                            } else {
                                match spec_parse_expr(v@[1]) {
                                    Ok(x) => Ok(ExprV::Loop(Box::new(x))),
                                    Err(f) => Err(f),
                                }
                            }
                        } else if op@ == "break"@ {
                            if n != 2 {
                                Err(Fault::BreakArity)
                            } else {
                                match spec_parse_expr(v@[1]) {
                                    Ok(x) => Ok(ExprV::Break(Box::new(x))),
                                    Err(f) => Err(f),
                                }
                            }
                        } else if op@ == "set!"@ {
                            if n != 3 {
                                Err(Fault::SetArity)
                            } else {
                                match v@[1] {
                                    SExpr::Atom(Atom::S(target)) => {
                                        if valid_identifier(target@) {
                                            match spec_parse_expr(v@[2]) {
                                                Ok(x) => Ok(ExprV::Assign(target@, Box::new(x))),
                                                Err(f) => Err(f),
                                            }
                                        } else {
                                            Err(Fault::SetIdentifier)
                                        }
                                    },
                                    _ => Err(Fault::SetIdentifier),
                                }
                            }
                        } else if valid_identifier(op@) {
                            match spec_parse_exprs(v@.drop_first()) {
                                Ok(args) => Ok(ExprV::Call(op@, args)),
                                Err(f) => Err(f),
                            }
                        } else {
                            Err(Fault::InvalidOperation(op@))
                        }
                    },
                    _ => Err(Fault::ExpressionFormat),
                }
            }
        },
    }
}

/// The expressions that a list of S-expressions denotes, in order; the first
/// refusal, if any.
pub open spec fn spec_parse_exprs(xs: Seq<SExpr>) -> Result<Seq<ExprV>, Fault>
    decreases xs,
{
    if xs.len() == 0 {
        Ok(Seq::empty())
    } else {
        match spec_parse_expr(xs[0]) {
            Ok(x) => match spec_parse_exprs(xs.drop_first()) {
                Ok(rest) => Ok(seq![x] + rest),
                Err(f) => Err(f),
            },
            Err(f) => Err(f),
        }
    }
}

/// The binding `(name expr)` that an S-expression denotes.
pub open spec fn spec_parse_bind(s: SExpr) -> Result<(Seq<char>, ExprV), Fault>
    decreases s,
{
    match s {
        SExpr::List(pair) => {
            if pair@.len() == 2 {
                match pair@[0] {
                    SExpr::Atom(Atom::S(name)) => {
                        if !valid_identifier(name@) {
                            Err(Fault::BindingName)
                        } else {
                            match spec_parse_expr(pair@[1]) {
                                Ok(x) => Ok((name@, x)),
                                Err(f) => Err(f),
                            }
                        }
                    },
                    _ => Err(Fault::BindElement),
                }
            } else {
                Err(Fault::BindElement)
            }
        },
        _ => Err(Fault::BindingFormat),
    }
}

/// The bindings that a list of S-expressions denotes, in order.
pub open spec fn spec_parse_binds(xs: Seq<SExpr>) -> Result<Seq<(Seq<char>, ExprV)>, Fault>
    decreases xs,
{
    if xs.len() == 0 {
        Ok(Seq::empty())
    } else {
        match spec_parse_bind(xs[0]) {
            Ok(b) => match spec_parse_binds(xs.drop_first()) {
                Ok(rest) => Ok(seq![b] + rest),
                Err(f) => Err(f),
            },
            Err(f) => Err(f),
        }
    }
}

/// Whether an S-expression is the atom `fun`.
pub open spec fn is_fun_keyword(s: SExpr) -> bool {
    s matches SExpr::Atom(Atom::S(w)) && w@ == "fun"@
}

/// The parameter names that a list of S-expressions denotes, after the names
/// in `seen`; the first refusal in order: not a name, not a valid
/// identifier, or a name already seen.
pub open spec fn spec_parse_params(ps: Seq<SExpr>, seen: Seq<Seq<char>>) -> Result<
    Seq<Seq<char>>,
    Fault,
>
    decreases ps.len(),
{
    if ps.len() == 0 {
        Ok(seen)
    } else {
        match ps[0] {
            SExpr::Atom(Atom::S(p)) => {
                if !valid_identifier(p@) {
                    Err(Fault::ParameterName(p@))
                } else if seen.contains(p@) {
                    Err(Fault::DuplicateParameter(p@))
                } else {
                    spec_parse_params(ps.drop_first(), seen.push(p@))
                }
            },
            _ => Err(Fault::ParameterFormat),
        }
    }
}

/// The definition that an S-expression `(fun (name params..) body)` denotes;
/// `None` where the S-expression does not have that shape.
pub open spec fn spec_try_parse_defn(s: SExpr) -> Result<Option<DefinitionV>, Fault> {
    match s {
        SExpr::List(v) => {
            if v@.len() == 3 && is_fun_keyword(v@[0]) && v@[1] is List {
                let sig = v@[1]->List_0@;
                if sig.len() >= 1 && sig[0] matches SExpr::Atom(Atom::S(name)) {
                    let name = sig[0]->Atom_0->S_0@;
                    if !valid_identifier(name) {
                        Err(Fault::FunctionName(name))
                    } else {
                        match spec_parse_params(sig.drop_first(), Seq::empty()) {
                            Ok(params) => match spec_parse_expr(v@[2]) {
                                Ok(body) => Ok(Some(DefinitionV { name, params, body })),
                                Err(f) => Err(f),
                            },
                            Err(f) => Err(f),
                        }
                    }
                } else {
                    Err(Fault::FunctionSignature)
                }
            } else {
                Ok(None)
            }
        },
        _ => Ok(None),
    }
}

/// The program that the items `items` denote, after the definitions `defns`
/// and the main expression `main` read so far: each item is a definition, or
/// else the one main expression.
pub open spec fn spec_parse_items(
    items: Seq<SExpr>,
    defns: Seq<DefinitionV>,
    main: Option<ExprV>,
) -> Result<ProgramV, Fault>
    decreases items.len(),
{
    if items.len() == 0 {
        match main {
            Some(m) => Ok(ProgramV { defns, main: m }),
            None => Err(Fault::NoMain),
        }
    } else {
        match spec_try_parse_defn(items[0]) {
            Err(f) => Err(f),
            Ok(Some(d)) => spec_parse_items(items.drop_first(), defns.push(d), main),
            Ok(None) => {
                if main is None {
                    match spec_parse_expr(items[0]) {
                        Ok(m) => spec_parse_items(items.drop_first(), defns, Some(m)),
                        Err(f) => Err(f),
                    }
                } else {
                    Err(Fault::MultipleMain)
                }
            },
        }
    }
}

/// The program that an S-expression denotes: a list of items.
pub open spec fn spec_parse_program(s: SExpr) -> Result<ProgramV, Fault> {
    match s {
        SExpr::List(items) => spec_parse_items(items@, Seq::empty(), None),
        _ => Err(Fault::InvalidProgram),
    }
}

/// The text that is read for a source text: the source inside one list.
pub open spec fn wrapped_source(text: Seq<char>) -> Seq<char> {
    "(\n"@ + text + "\n)"@
}

/// The program of a source text, or why there is none.
pub open spec fn spec_parse_source(text: Seq<char>) -> Result<ProgramV, Fault> {
    match sexp_reading(wrapped_source(text)) {
        Some(s) => spec_parse_program(s),
        None => Err(Fault::InvalidSexp),
    }
}

fn unary_of(op: &str) -> (r: Option<Op1>)
    ensures
        r == unary_op(op@),
{
    if same_text(op, "add1") {
        Some(Op1::Add1)
    } else if same_text(op, "sub1") {
        Some(Op1::Sub1)
    } else if same_text(op, "negate") {
        Some(Op1::Negate)
    } else if same_text(op, "isnum") {
        Some(Op1::IsNum)
    } else if same_text(op, "isbool") {
        Some(Op1::IsBool)
    } else if same_text(op, "print") {
        Some(Op1::Print)
    } else {
        None
    }
}

fn binary_of(op: &str) -> (r: Option<Op2>)
    ensures
        r == binary_op(op@),
{
    if same_text(op, "+") {
        Some(Op2::Plus)
    } else if same_text(op, "-") {
        Some(Op2::Minus)
    } else if same_text(op, "*") {
        Some(Op2::Times)
    } else if same_text(op, "<") {
        Some(Op2::Less)
    } else if same_text(op, ">") {
        Some(Op2::Greater)
    } else if same_text(op, "<=") {
        Some(Op2::LessEq)
    } else if same_text(op, ">=") {
        Some(Op2::GreaterEq)
    } else if same_text(op, "=") {
        Some(Op2::Equal)
    } else {
        None
    }
}

/// Parses the S-expressions `xs[from..]` as expressions, in order.
fn parse_exprs(xs: &Vec<SExpr>, from: usize) -> (r: Result<Vec<Expr>, CompileError<String>>)
    requires
        from <= xs@.len(),
    ensures
        match spec_parse_exprs(xs@.skip(from as int)) {
            Ok(es) => r matches Ok(v) && exprs_view(v@) == es,
            Err(f) => r matches Err(x) && x@ == f,
        },
    decreases xs@, 0nat,
{
    let mut out: Vec<Expr> = Vec::new();
    let mut i = from;
    while i < xs.len()
        invariant
            from <= i <= xs@.len(),
            spec_parse_exprs(xs@.skip(from as int)) == match spec_parse_exprs(xs@.skip(i as int)) {
                Ok(rest) => Ok(exprs_view(out@) + rest),
                Err(f) => Err(f),
            },
        decreases xs@.len() - i,
    {
        let ghost rest = xs@.skip(i as int);
        assert(rest[0] == xs@[i as int]);
        assert(rest.drop_first() =~= xs@.skip(i + 1));
        let e = checked_parse_expr(&xs[i])?;
        proof {
            lemma_exprs_view_push(out@, e);
            match spec_parse_exprs(xs@.skip(i + 1)) {
                Ok(tail) => {
                    assert(exprs_view(out@) + (seq![expr_view(e)] + tail) =~= exprs_view(out@).push(
                        expr_view(e),
                    ) + tail);
                },
                Err(_) => {},
            }
        }
        out.push(e);
        i = i + 1;
    }
    assert(xs@.skip(i as int) =~= Seq::<SExpr>::empty());
    assert(exprs_view(out@) + Seq::<ExprV>::empty() =~= exprs_view(out@));
    Ok(out)
}

/// Parses a binding `(name expr)` of a `let`, or reports why it is malformed.
pub fn checked_parse_bind(s: &SExpr) -> (r: Result<(String, Expr), CompileError<String>>)
    ensures
        agrees(r, spec_parse_bind(*s)),
    decreases *s, 0nat,
{
    match s {
        SExpr::List(pair) => {
            if pair.len() == 2 {
                match &pair[0] {
                    SExpr::Atom(Atom::S(name)) => {
                        if !is_valid_identifier(name.as_str()) {
                            return Err(CompileError::BindingName);
                        }
                        let e = checked_parse_expr(&pair[1])?;
                        Ok((name.clone(), e))
                    },
                    _ => Err(CompileError::BindElement),
                }
            } else {
                Err(CompileError::BindElement)
            }
        },
        _ => Err(CompileError::BindingFormat),
    }
}

/// Parses the bindings of a `let`, in order.
fn parse_binds(xs: &Vec<SExpr>) -> (r: Result<Vec<(String, Expr)>, CompileError<String>>)
    ensures
        match spec_parse_binds(xs@) {
            Ok(bs) => r matches Ok(v) && binds_view(v@) == bs,
            Err(f) => r matches Err(x) && x@ == f,
        },
    decreases xs@, 0nat,
{
    let mut out: Vec<(String, Expr)> = Vec::new();
    let mut i: usize = 0;
    assert(xs@.skip(0) =~= xs@);
    while i < xs.len()
        invariant
            i <= xs@.len(),
            spec_parse_binds(xs@) == match spec_parse_binds(xs@.skip(i as int)) {
                Ok(rest) => Ok(binds_view(out@) + rest),
                Err(f) => Err(f),
            },
        decreases xs@.len() - i,
    {
        let ghost rest = xs@.skip(i as int);
        assert(rest[0] == xs@[i as int]);
        assert(rest.drop_first() =~= xs@.skip(i + 1));
        let b = checked_parse_bind(&xs[i])?;
        proof {
            lemma_binds_view_push(out@, b);
            match spec_parse_binds(xs@.skip(i + 1)) {
                Ok(tail) => {
                    assert(binds_view(out@) + (seq![(b.0@, expr_view(b.1))] + tail)
                        =~= binds_view(out@).push((b.0@, expr_view(b.1))) + tail);
                },
                Err(_) => {},
            }
        }
        out.push(b);
        i = i + 1;
    }
    assert(xs@.skip(i as int) =~= Seq::<SExpr>::empty());
    assert(binds_view(out@) + Seq::<(Seq<char>, ExprV)>::empty() =~= binds_view(out@));
    Ok(out)
}

/// Parses an expression, or reports why it is malformed.
pub fn checked_parse_expr(s: &SExpr) -> (r: Result<Expr, CompileError<String>>)
    ensures
        agrees(r, spec_parse_expr(*s)),
    decreases *s, 1nat,
{
    match s {
        SExpr::Atom(Atom::I(n)) => {
            if i32::MIN as i64 <= *n && *n <= i32::MAX as i64 {
                Ok(Expr::Num(*n as i32))
            } else {
                Err(CompileError::InvalidInteger)
            }
        },
        SExpr::Atom(Atom::S(name)) => {
            if same_text(name.as_str(), "true") {
                Ok(Expr::Bool(true))
            } else if same_text(name.as_str(), "false") {
                Ok(Expr::Bool(false))
            } else if same_text(name.as_str(), "input") {
                Ok(Expr::Input)
            } else if is_valid_identifier(name.as_str()) {
                Ok(Expr::Id(name.clone()))
            } else {
                Err(CompileError::InvalidIdentifier(name.clone()))
            }
        },
        SExpr::Atom(Atom::F) => Err(CompileError::InvalidExpression),
        SExpr::List(v) => {
            let n = v.len();
            if n == 0 {
                return Err(CompileError::EmptyList);
            }
            match &v[0] {
                SExpr::Atom(Atom::S(op)) => {
                    let ops = op.as_str();
                    if let Some(u) = unary_of(ops) {
                        if n != 2 {
                            return Err(CompileError::UnaryArity);
                        }
                        let x = checked_parse_expr(&v[1])?;
                        Ok(Expr::UnOp(u, Box::new(x)))
                    } else if let Some(b) = binary_of(ops) {
                        if n != 3 {
                            return Err(CompileError::BinaryArity);
                        }
                        let x = checked_parse_expr(&v[1])?;
                        let y = checked_parse_expr(&v[2])?;
                        Ok(Expr::BinOp(b, Box::new(x), Box::new(y)))
                    } else if same_text(ops, "let") {
                        if n != 3 {
                            return Err(CompileError::LetArity);
                        }
                        match &v[1] {
                            SExpr::List(b) => {
                                if b.len() == 0 {
                                    return Err(CompileError::EmptyBindings);
                                }
                                let bs = parse_binds(b)?;
                                let body = checked_parse_expr(&v[2])?;
                                Ok(Expr::Let(bs, Box::new(body)))
                            },
                            _ => Err(CompileError::BindingsFormat),
                        }
                    } else if same_text(ops, "if") {
                        if n != 4 {
                            return Err(CompileError::IfArity);
                        }
                        let c = checked_parse_expr(&v[1])?;
                        let t = checked_parse_expr(&v[2])?;
                        let f = checked_parse_expr(&v[3])?;
                        Ok(Expr::If(Box::new(c), Box::new(t), Box::new(f)))
                    } else if same_text(ops, "block") {
                        if n < 2 {
                            return Err(CompileError::BlockArity);
                        }
                        assert(v@.skip(1) =~= v@.drop_first());
                        let es = parse_exprs(v, 1)?;
                        Ok(Expr::Block(es))
                    } else if same_text(ops, "loop") {
                        if n != 2 {
                            return Err(CompileError::LoopArity);
                        }
                        let x = checked_parse_expr(&v[1])?;
                        Ok(Expr::Loop(Box::new(x)))
                    } else if same_text(ops, "break") {
                        if n != 2 {
                            return Err(CompileError::BreakArity);
                        }
                        let x = checked_parse_expr(&v[1])?;
                        Ok(Expr::Break(Box::new(x)))
                    } else if same_text(ops, "set!") {
                        if n != 3 {
                            return Err(CompileError::SetArity);
                        }
                        let target = match &v[1] {
                            SExpr::Atom(Atom::S(t)) => {
                                if is_valid_identifier(t.as_str()) {
                                    t.clone()
                                } else {
                                    return Err(CompileError::SetIdentifier);
                                }
                            },
                            _ => {
                                return Err(CompileError::SetIdentifier);
                            },
                        };
                        let x = checked_parse_expr(&v[2])?;
                        Ok(Expr::Assign(target, Box::new(x)))
                    } else if is_valid_identifier(ops) {
                        assert(v@.skip(1) =~= v@.drop_first());
                        let args = parse_exprs(v, 1)?;
                        Ok(Expr::Call(op.clone(), args))
                    } else {
                        Err(CompileError::InvalidOperation(op.clone()))
                    }
                },
                _ => Err(CompileError::ExpressionFormat),
            }
        },
    }
}

/// Reads the parameters `ps[1..]` of a signature, in order.
fn parse_params(ps: &Vec<SExpr>) -> (r: Result<Vec<String>, CompileError<String>>)
    requires
        ps@.len() >= 1,
    ensures
        match spec_parse_params(ps@.drop_first(), Seq::empty()) {
            Ok(names) => r matches Ok(v) && names_view(v@) == names,
            Err(f) => r matches Err(x) && x@ == f,
        },
{
    let mut names: Vec<String> = Vec::new();
    let mut i: usize = 1;
    assert(ps@.skip(1) =~= ps@.drop_first());
    assert(names_view(names@) =~= Seq::<Seq<char>>::empty());
    while i < ps.len()
        invariant
            1 <= i <= ps@.len(),
            spec_parse_params(ps@.drop_first(), Seq::empty()) == spec_parse_params(
                ps@.skip(i as int),
                names_view(names@),
            ),
        decreases ps@.len() - i,
    {
        let ghost rest = ps@.skip(i as int);
        assert(rest[0] == ps@[i as int]);
        assert(rest.drop_first() =~= ps@.skip(i + 1));
        match &ps[i] {
            SExpr::Atom(Atom::S(p)) => {
                if !is_valid_identifier(p.as_str()) {
                    return Err(CompileError::ParameterName(p.clone()));
                }
                if contains_name(&names, p) {
                    return Err(CompileError::DuplicateParameter(p.clone()));
                }
                let ghost before = names@;
                names.push(p.clone());
                assert(names_view(names@) =~= names_view(before).push(p@));
            },
            _ => {
                return Err(CompileError::ParameterFormat);
            },
        }
        i = i + 1;
    }
    assert(ps@.skip(i as int) =~= Seq::<SExpr>::empty());
    Ok(names)
}

/// Whether `names` holds `name`.
pub fn contains_name(names: &Vec<String>, name: &String) -> (r: bool)
    ensures
        r == names_view(names@).contains(name@),
{
    let mut i: usize = 0;
    while i < names.len()
        invariant
            i <= names@.len(),
            forall|j: int| 0 <= j < i ==> names@[j]@ != name@,
        decreases names@.len() - i,
    {
        if names[i] == *name {
            assert(names_view(names@)[i as int] == name@);
            return true;
        }
        i = i + 1;
    }
    proof {
        if names_view(names@).contains(name@) {
            let k = choose|k: int| 0 <= k < names_view(names@).len() && names_view(names@)[k] == name@;
            assert(names@[k]@ == name@);
        }
    }
    false
}

/// Reads a function definition `(fun (name params..) body)`; `Ok(None)` where
/// the S-expression does not have that shape, an error where it has that shape
/// but is malformed.
pub fn checked_try_parse_defn(s: &SExpr) -> (r: Result<Option<Definition>, CompileError<String>>)
    ensures
        match spec_try_parse_defn(*s) {
            Ok(Some(d)) => r matches Ok(Some(x)) && x@ == d,
            Ok(None) => r matches Ok(None),
            Err(f) => r matches Err(x) && x@ == f,
        },
{
    match s {
        SExpr::List(v) => {
            if v.len() != 3 {
                return Ok(None);
            }
            let is_fun = match &v[0] {
                SExpr::Atom(Atom::S(w)) => same_text(w.as_str(), "fun"),
                _ => false,
            };
            if !is_fun {
                return Ok(None);
            }
            match &v[1] {
                SExpr::List(sig) => {
                    if sig.len() == 0 {
                        return Err(CompileError::FunctionSignature);
                    }
                    match &sig[0] {
                        SExpr::Atom(Atom::S(name)) => {
                            if !is_valid_identifier(name.as_str()) {
                                return Err(CompileError::FunctionName(name.clone()));
                            }
                            let params = parse_params(sig)?;
                            let body = checked_parse_expr(&v[2])?;
                            Ok(Some(Definition { name: name.clone(), params, body }))
                        },
                        _ => Err(CompileError::FunctionSignature),
                    }
                },
                _ => Ok(None),
            }
        },
        _ => Ok(None),
    }
}

/// Reads a program: a list whose items are definitions and one main
/// expression; or reports why it is malformed.
pub fn checked_parse_program(s: &SExpr) -> (r: Result<Program, CompileError<String>>)
    ensures
        agrees(r, spec_parse_program(*s)),
{
    match s {
        SExpr::List(items) => {
            let mut defns: Vec<Definition> = Vec::new();
            let mut main_expr: Option<Expr> = None;
            let mut i: usize = 0;
            assert(items@.skip(0) =~= items@);
            assert(defns_view(defns@) =~= Seq::<DefinitionV>::empty());
            while i < items.len()
                invariant
                    i <= items@.len(),
                    spec_parse_program(*s) == spec_parse_items(
                        items@.skip(i as int),
                        defns_view(defns@),
                        match main_expr {
                            Some(m) => Some(m@),
                            None => None,
                        },
                    ),
                    s == SExpr::List(*items),
                decreases items@.len() - i,
            {
                let ghost rest = items@.skip(i as int);
                assert(rest[0] == items@[i as int]);
                assert(rest.drop_first() =~= items@.skip(i + 1));
                let item = &items[i];
                match checked_try_parse_defn(item)? {
                    Some(defn) => {
                        let ghost before = defns@;
                        defns.push(defn);
                        assert(defns_view(defns@) =~= defns_view(before).push(defn@));
                    },
                    None => {
                        if main_expr.is_none() {
                            let m = checked_parse_expr(item)?;
                            main_expr = Some(m);
                        } else {
                            return Err(CompileError::MultipleMain);
                        }
                    },
                }
                i = i + 1;
            }
            assert(items@.skip(i as int) =~= Seq::<SExpr>::empty());
            match main_expr {
                Some(m) => Ok(Program { defns, main: m }),
                None => Err(CompileError::NoMain),
            }
        },
        _ => Err(CompileError::InvalidProgram),
    }
}

/// Reads the program of a source text: the text is read as the items of one
/// list, as S-expressions by the `sexp` crate, and these as a program.
pub fn parse_source(text: &str) -> (r: Result<Program, CompileError<String>>)
    ensures
        agrees(r, spec_parse_source(text@)),
{
    let mut wrapped = String::from_str("(\n");
    wrapped.append(text);
    wrapped.append("\n)");
    assert(wrapped@ =~= wrapped_source(text@));
    match read_sexp(wrapped.as_str()) {
        Some(s) => checked_parse_program(&s),
        None => Err(CompileError::InvalidSexp),
    }
}

/// Parses a well-formed expression: one whose parse succeeds.
pub fn parse_expr(s: &SExpr) -> (r: Expr)
    requires
        spec_parse_expr(*s) is Ok,
    ensures
        r@ == spec_parse_expr(*s)->Ok_0,
{
    match checked_parse_expr(s) {
        Ok(e) => e,
        Err(_) => vstd::pervasive::unreached(),
    }
}

/// Parses a well-formed binding `(name expr)` of a `let`.
pub fn parse_bind(s: &SExpr) -> (r: (String, Expr))
    requires
        spec_parse_bind(*s) is Ok,
    ensures
        r@ == spec_parse_bind(*s)->Ok_0,
{
    match checked_parse_bind(s) {
        Ok(b) => b,
        Err(_) => vstd::pervasive::unreached(),
    }
}

/// Reads a function definition `(fun (name params..) body)`, where the
/// S-expression is one, well-formed, or does not have that shape (`None`).
pub fn try_parse_defn(s: &SExpr) -> (r: Option<Definition>)
    requires
        spec_try_parse_defn(*s) is Ok,
    ensures
        match spec_try_parse_defn(*s)->Ok_0 {
            Some(d) => r matches Some(x) && x@ == d,
            None => r is None,
        },
{
    match checked_try_parse_defn(s) {
        Ok(d) => d,
        Err(_) => vstd::pervasive::unreached(),
    }
}

/// Reads a well-formed program: a list whose items are well-formed
/// definitions and exactly one well-formed main expression.
pub fn parse_program(s: &SExpr) -> (r: Program)
    requires
        spec_parse_program(*s) is Ok,
    ensures
        r@ == spec_parse_program(*s)->Ok_0,
{
    match checked_parse_program(s) {
        Ok(p) => p,
        Err(_) => vstd::pervasive::unreached(),
    }
}

} // verus!
