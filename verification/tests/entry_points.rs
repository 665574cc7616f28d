use adder::assembly::{code_string, Label, LabelKind};
use adder::ast::{Definition, Expr, Op2, Program};
use adder::compiler::{compile_defn, compile_expr, compile_program, max_locals, new_label};
use adder::parser::{parse_bind, parse_program, try_parse_defn};
use adder::sexpr::{Atom, SExpr};

fn word(s: &str) -> SExpr {
    SExpr::Atom(Atom::S(s.to_string()))
}

fn num(n: i64) -> SExpr {
    SExpr::Atom(Atom::I(n))
}

fn boxed(e: Expr) -> Box<Expr> {
    Box::new(e)
}

#[test]
fn labels_count_up() {
    let mut l: i32 = 3;
    let a = new_label(&mut l, LabelKind::LoopStart);
    let b = new_label(&mut l, LabelKind::LoopEnd);
    assert_eq!(a, Label { kind: LabelKind::LoopStart, id: 3 });
    assert_eq!(b, Label { kind: LabelKind::LoopEnd, id: 4 });
    assert_eq!(l, 5);
}

#[test]
fn loop_code_takes_two_labels() {
    let env = im::HashMap::new();
    let funs = im::HashMap::new();
    let mut l: i32 = 7;
    let e = Expr::Loop(boxed(Expr::Break(boxed(Expr::Num(1)))));
    let code = compile_expr(&e, &env, &funs, 1, &mut l, &None);
    assert_eq!(
        code_string(&code),
        "loop_start_7:\nmov rax, 2\njmp loop_end_8\njmp loop_start_7\nloop_end_8:"
    );
    assert_eq!(l, 9);
}

#[test]
fn variables_load_from_their_slots() {
    let mut env = im::HashMap::new();
    env.insert("x".to_string(), -8);
    env.insert("p".to_string(), 16);
    let funs = im::HashMap::new();
    let mut l: i32 = 0;
    let x = compile_expr(&Expr::Id("x".to_string()), &env, &funs, 1, &mut l, &None);
    let p = compile_expr(&Expr::Id("p".to_string()), &env, &funs, 1, &mut l, &None);
    assert_eq!(code_string(&x), "mov rax, [rbp - 8]");
    assert_eq!(code_string(&p), "mov rax, [rbp + 16]");
    assert_eq!(l, 0);
}

#[test]
fn slots_of_nested_operations_and_lets() {
    let nested = Expr::BinOp(
        Op2::Plus,
        boxed(Expr::Num(1)),
        boxed(Expr::BinOp(Op2::Plus, boxed(Expr::Num(2)), boxed(Expr::Num(3)))),
    );
    assert_eq!(max_locals(&nested), 2);
    let lets = Expr::Let(
        vec![("x".to_string(), Expr::Num(1)), ("y".to_string(), Expr::Num(2))],
        boxed(Expr::Id("x".to_string())),
    );
    assert_eq!(max_locals(&lets), 2);
    assert_eq!(max_locals(&Expr::Input), 0);
}

#[test]
fn one_definition_text() {
    let defn = Definition { name: "f".to_string(), params: vec!["x".to_string()], body: Expr::Id("x".to_string()) };
    let mut funs = im::HashMap::new();
    funs.insert("f".to_string(), 1usize);
    let mut l: i32 = 0;
    let text = compile_defn(&defn, &funs, &mut l);
    assert_eq!(
        text,
        "fun_f:\n  push rbp\n  mov rbp, rsp\n  sub rsp, 16\n  mov rax, [rbp + 16]\n  mov rsp, rbp\n  pop rbp\n  ret"
    );
    assert_eq!(l, 0);
}

#[test]
fn program_of_one_constant() {
    let prog = Program { defns: vec![], main: Expr::Num(5) };
    let expected = "section .text\nglobal our_code_starts_here\nextern snek_error\nextern snek_print\n\nour_code_starts_here:\n\nmov r15, rdi\n\npush rbp\n\nmov rbp, rsp\n\nsub rsp, 16\n\nmov rax, 10\n\nmov rsp, rbp\n\npop rbp\n\nret\n\ninvalid_argument_error:\n  mov rdi, 1\n  push rbp\n  call snek_error\n\noverflow_error:\n  mov rdi, 2\n  push rbp\n  call snek_error\n";
    assert_eq!(compile_program(&prog), expected);
}

#[test]
fn binding_pair() {
    let (name, e) = parse_bind(&SExpr::List(vec![word("x"), num(5)]));
    assert_eq!(name, "x");
    assert!(matches!(e, Expr::Num(5)));
}

#[test]
fn definition_or_not() {
    let fun = SExpr::List(vec![word("fun"), SExpr::List(vec![word("f"), word("x")]), word("x")]);
    match try_parse_defn(&fun) {
        Some(d) => {
            assert_eq!(d.name, "f");
            assert_eq!(d.params, vec!["x".to_string()]);
            assert!(matches!(d.body, Expr::Id(ref n) if n == "x"));
        },
        None => panic!("a definition was expected"),
    }
    assert!(try_parse_defn(&SExpr::List(vec![num(1), num(2), num(3)])).is_none());
    assert!(try_parse_defn(&num(4)).is_none());
}

#[test]
fn program_items() {
    let defn = SExpr::List(vec![word("fun"), SExpr::List(vec![word("f")]), num(1)]);
    let call = SExpr::List(vec![word("f")]);
    let p = parse_program(&SExpr::List(vec![defn, call]));
    assert_eq!(p.defns.len(), 1);
    assert_eq!(p.defns[0].name, "f");
    assert!(p.defns[0].params.is_empty());
    assert!(matches!(p.main, Expr::Call(ref n, ref args) if n == "f" && args.is_empty()));
}
