use adder::ast::{Expr, Op1, Op2};
use adder::compiler::{compile_expr, compile_program, max_locals};
use adder::parser::parse_source;
use adder::assembly::code_string;

fn boxed(e: Expr) -> Box<Expr> {
    Box::new(e)
}

fn count(text: &str, piece: &str) -> usize {
    text.matches(piece).count()
}

#[test]
fn max_locals_covers_each_part() {
    let deep = Expr::BinOp(Op2::Times, boxed(Expr::Num(1)), boxed(Expr::Num(2)));
    let part = max_locals(&deep);
    assert_eq!(part, 1);
    // A binary operation's second operand needs one slot more.
    let outer = Expr::BinOp(Op2::Minus, boxed(Expr::Num(0)), boxed(deep));
    assert_eq!(max_locals(&outer), part + 1);
    // A unary operation needs what its operand needs.
    let neg = Expr::UnOp(Op1::Negate, boxed(outer));
    assert_eq!(max_locals(&neg), part + 1);
    // A call's second argument is compiled one slot on.
    let call = Expr::Call(
        "f".to_string(),
        vec![Expr::Num(1), Expr::BinOp(Op2::Plus, boxed(Expr::Num(2)), boxed(Expr::Num(3)))],
    );
    assert_eq!(max_locals(&call), 2);
}

#[test]
fn definitions_are_the_items_that_read_as_definitions() {
    let p = parse_source("(fun (f) 1) (+ 1 2) (fun (g x) x)").unwrap();
    let names: Vec<&str> = p.defns.iter().map(|d| d.name.as_str()).collect();
    assert_eq!(names, vec!["f", "g"]);
    assert!(matches!(p.main, Expr::BinOp(Op2::Plus, _, _)));
}

#[test]
fn each_label_number_is_placed_once() {
    let env = im::HashMap::new();
    let funs = im::HashMap::new();
    let mut l: i32 = 0;
    let e = Expr::If(
        boxed(Expr::Bool(true)),
        boxed(Expr::Loop(boxed(Expr::Break(boxed(Expr::Num(1)))))),
        boxed(Expr::BinOp(Op2::Less, boxed(Expr::Num(1)), boxed(Expr::Num(2)))),
    );
    let text = code_string(&compile_expr(&e, &env, &funs, 1, &mut l, &None));
    assert_eq!(l, 6);
    for placed in ["if_else_0:", "if_end_1:", "loop_start_2:", "loop_end_3:", "cmp_true_4:", "cmp_end_5:"] {
        assert_eq!(count(&text, placed), 1, "{}", placed);
    }
}

#[test]
fn program_text_in_order_with_labels_apart() {
    let p = parse_source("(fun (f x) (if x 1 2)) (fun (g y) (if y 3 4)) (if (f true) (g false) 5)").unwrap();
    let text = compile_program(&p);
    let f = text.find("fun_f:").unwrap();
    let g = text.find("fun_g:").unwrap();
    let entry = text.find("our_code_starts_here:").unwrap();
    assert!(text.starts_with("section .text\n"));
    assert!(f < g && g < entry);
    assert!(text.ends_with("call snek_error\n"));
    for placed in ["if_else_0:", "if_end_1:", "if_else_2:", "if_end_3:", "if_else_4:", "if_end_5:"] {
        assert_eq!(count(&text, placed), 1, "{}", placed);
    }
    // The labels of `f` lie in its text, those of `g` in its own.
    assert!(text[f..g].contains("if_else_0:"));
    assert!(text[g..entry].contains("if_else_2:"));
    assert!(text[entry..].contains("if_else_4:"));
}

#[test]
fn well_formed_programs_compile() {
    let sources = [
        "(fun (f x y) (let ((a x) (b y)) (block (set! a (+ a b)) a))) (f 1 2)",
        "(fun (g n) (loop (if (< n 1) (break n) (set! n (sub1 n))))) (g 3)",
        "(let ((x 1)) (let ((x 2)) x))",
        "(fun (h) 7) (+ (h) input)",
    ];
    for src in sources {
        assert!(adder::compiler::compile_source(src).is_ok(), "{}", src);
    }
}

#[test]
fn temporaries_lie_from_the_first_free_slot() {
    let env = im::HashMap::new();
    let funs = im::HashMap::new();
    let mut l: i32 = 0;
    let e = Expr::BinOp(
        Op2::Plus,
        boxed(Expr::Num(1)),
        boxed(Expr::BinOp(Op2::Plus, boxed(Expr::Num(2)), boxed(Expr::Num(3)))),
    );
    assert_eq!(max_locals(&e), 2);
    let text = code_string(&compile_expr(&e, &env, &funs, 3, &mut l, &None));
    assert!(text.contains("mov [rbp - 24], rax"));
    assert!(text.contains("mov [rbp - 32], rax"));
    assert!(!text.contains("[rbp - 16]"));
    assert!(!text.contains("[rbp - 40]"));
}

#[test]
fn any_first_slot_is_taken_as_given() {
    let env = im::HashMap::new();
    let funs = im::HashMap::new();
    let mut l: i32 = 0;
    let e = Expr::BinOp(Op2::Plus, boxed(Expr::Num(1)), boxed(Expr::Num(2)));
    let text = code_string(&compile_expr(&e, &env, &funs, 0, &mut l, &None));
    assert!(text.starts_with("mov rax, 2\nmov [rbp - 0], rax\nmov rax, 4\n"));
}
