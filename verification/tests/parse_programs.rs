use adder::ast::{Expr, Op1, Op2};
use adder::error::CompileError;
use adder::ident::is_valid_identifier;
use adder::parser::{checked_parse_expr, checked_parse_program, parse_expr, parse_source};
use adder::sexpr::{Atom, SExpr};

#[test]
fn identifiers() {
    assert!(is_valid_identifier("x"));
    assert!(is_valid_identifier("_a-b1"));
    assert!(is_valid_identifier("Abc"));
    assert!(!is_valid_identifier("1x"));
    assert!(!is_valid_identifier(""));
    assert!(!is_valid_identifier("a.b"));
    assert!(!is_valid_identifier("-a"));
    for w in ["let", "add1", "sub1", "negate", "isnum", "isbool", "print", "true", "false", "input", "if", "block", "loop", "break", "set!", "fun"] {
        assert!(!is_valid_identifier(w), "{} is reserved", w);
    }
}

#[test]
fn reads_a_number() {
    let p = parse_source("5").unwrap();
    assert!(p.defns.is_empty());
    assert!(matches!(p.main, Expr::Num(5)));
}

#[test]
fn reads_operators() {
    let p = parse_source("(add1 x)").unwrap();
    assert!(matches!(p.main, Expr::UnOp(Op1::Add1, ref x) if matches!(**x, Expr::Id(ref n) if n == "x")));
    let p = parse_source("(<= 1 2)").unwrap();
    assert!(matches!(p.main, Expr::BinOp(Op2::LessEq, _, _)));
    let p = parse_source("(block 1 true input)").unwrap();
    assert!(matches!(p.main, Expr::Block(ref es) if es.len() == 3 && matches!(es[1], Expr::Bool(true)) && matches!(es[2], Expr::Input)));
}

#[test]
fn reads_a_definition() {
    let p = parse_source("(fun (f x y) (+ x y)) (f 1 2)").unwrap();
    assert_eq!(p.defns.len(), 1);
    assert_eq!(p.defns[0].name, "f");
    assert_eq!(p.defns[0].params, vec!["x".to_string(), "y".to_string()]);
    assert!(matches!(p.main, Expr::Call(ref f, ref args) if f == "f" && args.len() == 2));
}

#[test]
fn definition_after_main_is_read() {
    let p = parse_source("1 (fun (f) 2)").unwrap();
    assert_eq!(p.defns.len(), 1);
    assert!(matches!(p.main, Expr::Num(1)));
}

fn refused(src: &str) -> CompileError<String> {
    match parse_source(src) {
        Ok(_) => panic!("{} was read", src),
        Err(e) => e,
    }
}

#[test]
fn malformed_text_is_refused() {
    assert!(matches!(refused("("), CompileError::InvalidSexp));
    assert!(matches!(refused(")"), CompileError::InvalidSexp));
}

#[test]
fn program_must_be_a_list() {
    assert!(matches!(checked_parse_program(&SExpr::Atom(Atom::I(1))), Err(CompileError::InvalidProgram)));
}

#[test]
fn main_expression_rules() {
    assert!(matches!(refused("1 2"), CompileError::MultipleMain));
    assert!(matches!(refused("(fun (f) 1)"), CompileError::NoMain));
}

#[test]
fn atom_errors() {
    assert!(matches!(refused("3000000000"), CompileError::InvalidInteger));
    assert!(matches!(refused("1.5"), CompileError::InvalidExpression));
    assert!(matches!(refused("let"), CompileError::InvalidIdentifier(ref n) if n == "let"));
    assert!(matches!(refused("a.b"), CompileError::InvalidIdentifier(ref n) if n == "a.b"));
}

#[test]
fn list_errors() {
    assert!(matches!(refused("()"), CompileError::EmptyList));
    assert!(matches!(refused("(1 2)"), CompileError::ExpressionFormat));
    assert!(matches!(refused("((add1) 2)"), CompileError::ExpressionFormat));
    assert!(matches!(refused("(add1)"), CompileError::UnaryArity));
    assert!(matches!(refused("(+ 1)"), CompileError::BinaryArity));
    assert!(matches!(refused("(let ((x 1)))"), CompileError::LetArity));
    assert!(matches!(refused("(let x 1)"), CompileError::BindingsFormat));
    assert!(matches!(refused("(let () 1)"), CompileError::EmptyBindings));
    assert!(matches!(refused("(let (x) 1)"), CompileError::BindingFormat));
    assert!(matches!(refused("(let ((x)) 1)"), CompileError::BindElement));
    assert!(matches!(refused("(let ((1 2)) 1)"), CompileError::BindElement));
    assert!(matches!(refused("(let ((true 2)) 1)"), CompileError::BindingName));
    assert!(matches!(refused("(if 1 2)"), CompileError::IfArity));
    assert!(matches!(refused("(block)"), CompileError::BlockArity));
    assert!(matches!(refused("(loop)"), CompileError::LoopArity));
    assert!(matches!(refused("(break 1 2)"), CompileError::BreakArity));
    assert!(matches!(refused("(set! x)"), CompileError::SetArity));
    assert!(matches!(refused("(set! 1 2)"), CompileError::SetIdentifier));
    assert!(matches!(refused("(set! let 2)"), CompileError::SetIdentifier));
    assert!(matches!(refused("(fun 1)"), CompileError::InvalidOperation(ref n) if n == "fun"));
    assert!(matches!(refused("(a.b 1)"), CompileError::InvalidOperation(ref n) if n == "a.b"));
}

#[test]
fn first_error_in_order_wins() {
    assert!(matches!(refused("(+ (add1) ())"), CompileError::UnaryArity));
    assert!(matches!(refused("(block 1 () (add1))"), CompileError::EmptyList));
}

#[test]
fn definition_errors() {
    assert!(matches!(refused("(fun () 1) 5"), CompileError::FunctionSignature));
    assert!(matches!(refused("(fun (1 x) 1) 5"), CompileError::FunctionSignature));
    assert!(matches!(refused("(fun (let x) 1) 5"), CompileError::FunctionName(ref n) if n == "let"));
    assert!(matches!(refused("(fun (f 1) 1) 5"), CompileError::ParameterFormat));
    assert!(matches!(refused("(fun (f let) 1) 5"), CompileError::ParameterName(ref n) if n == "let"));
    assert!(matches!(refused("(fun (f x x) x) 5"), CompileError::DuplicateParameter(ref n) if n == "x"));
}

#[test]
fn parse_expr_on_built_sexpr() {
    let s = SExpr::List(vec![SExpr::Atom(Atom::S("sub1".to_string())), SExpr::Atom(Atom::I(4))]);
    assert!(matches!(parse_expr(&s), Expr::UnOp(Op1::Sub1, ref x) if matches!(**x, Expr::Num(4))));
    assert!(matches!(checked_parse_expr(&SExpr::Atom(Atom::F)), Err(CompileError::InvalidExpression)));
}
