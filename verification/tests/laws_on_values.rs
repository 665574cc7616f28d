use adder::ast::Expr;
use adder::compiler::compile_source;
use adder::runtime::{parse_input, value_text};

#[test]
fn input_round_trip() {
    for n in [0i64, 1, -1, 42, -42, 123456789, -987654321, (1i64 << 62) - 1, -(1i64 << 62)] {
        let text = n.to_string();
        let v = parse_input(&text);
        assert_eq!(value_text(v), text);
    }
}

#[test]
fn boolean_round_trip() {
    assert_eq!(value_text(parse_input("true")), "true");
    assert_eq!(value_text(parse_input("false")), "false");
}

#[test]
fn constant_encoding_matches_runtime() {
    for n in [0i64, 7, -7, 1073741823, -1073741824, 1073741824, 2147483647, -2147483648] {
        let text = compile_source(&n.to_string()).unwrap();
        let line = format!("\nmov rax, {}\n", parse_input(&n.to_string()));
        assert!(text.contains(&line), "{}", n);
    }
}

#[test]
fn labels_are_placed_once_and_jumps_land() {
    let text = compile_source(
        "(fun (f x) (if (< x 1) (loop (break x)) (= x 2))) (if (f 1) (loop (if true (break 1) (break 2))) 3)",
    )
    .unwrap();
    let lines: Vec<&str> = text.lines().map(|l| l.trim()).collect();
    let placed: Vec<&str> = lines.iter().filter(|l| l.ends_with(':')).map(|l| &l[..l.len() - 1]).collect();
    let mut sorted = placed.clone();
    sorted.sort();
    sorted.dedup();
    assert_eq!(sorted.len(), placed.len());
    for l in &lines {
        for j in ["je ", "jmp ", "jl ", "jg ", "jle ", "jge "] {
            if let Some(target) = l.strip_prefix(j) {
                assert!(placed.contains(&target), "{} has no label", target);
            }
        }
    }
}

#[test]
fn temporaries_stay_in_the_frame() {
    // Deep nesting of binary operators: each level takes one more slot.
    let text = compile_source("(+ 1 (+ 2 (+ 3 (+ 4 5))))").unwrap();
    assert!(text.contains("sub rsp, 48"));
    assert!(text.contains("mov [rbp - 32], rax"));
    assert!(!text.contains("mov [rbp - 40], rax"));
}

fn names_of(e: &Expr, out: &mut Vec<String>) {
    match e {
        Expr::Id(n) => out.push(n.clone()),
        Expr::Let(bs, body) => {
            for (n, v) in bs {
                out.push(n.clone());
                names_of(v, out);
            }
            names_of(body, out);
        }
        Expr::UnOp(_, x) | Expr::Loop(x) | Expr::Break(x) => names_of(x, out),
        Expr::BinOp(_, x, y) => {
            names_of(x, out);
            names_of(y, out);
        }
        Expr::If(c, t, f) => {
            names_of(c, out);
            names_of(t, out);
            names_of(f, out);
        }
        Expr::Block(es) => es.iter().for_each(|x| names_of(x, out)),
        Expr::Assign(n, x) => {
            out.push(n.clone());
            names_of(x, out);
        }
        Expr::Call(f, args) => {
            out.push(f.clone());
            args.iter().for_each(|x| names_of(x, out));
        }
        _ => {}
    }
}

#[test]
fn parsed_names_are_identifiers() {
    let p = adder::parser::parse_source(
        "(fun (f-1 a _b) (let ((c (+ a _b))) (block (set! c 1) (g c)))) (fun (g x) x) (f-1 true input)",
    )
    .unwrap();
    let mut names = Vec::new();
    for d in &p.defns {
        names.push(d.name.clone());
        names.extend(d.params.iter().cloned());
        names_of(&d.body, &mut names);
        let mut ps = d.params.clone();
        ps.sort();
        ps.dedup();
        assert_eq!(ps.len(), d.params.len());
    }
    names_of(&p.main, &mut names);
    assert!(names.len() >= 10);
    for n in &names {
        assert!(adder::ident::is_valid_identifier(n), "{}", n);
    }
}
