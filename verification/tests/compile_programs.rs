use adder::compiler::compile_source;
use adder::error::CompileError;

const HEADER: &str = "section .text\nglobal our_code_starts_here\nextern snek_error\nextern snek_print\n\n";
const FOOTER: &str = "\n\ninvalid_argument_error:\n  mov rdi, 1\n  push rbp\n  call snek_error\n\noverflow_error:\n  mov rdi, 2\n  push rbp\n  call snek_error\n";

/// The expected text of a program: the functions, then the entry with a frame
/// of `frame` bytes around the main code.
fn program(defns: &[&str], frame: u32, main: &str) -> String {
    let mut pieces: Vec<String> = defns.iter().map(|d| d.to_string()).collect();
    pieces.push("our_code_starts_here:".to_string());
    pieces.push("mov r15, rdi".to_string());
    pieces.push("push rbp".to_string());
    pieces.push("mov rbp, rsp".to_string());
    pieces.push(format!("sub rsp, {}", frame));
    pieces.push(main.to_string());
    pieces.push("mov rsp, rbp".to_string());
    pieces.push("pop rbp".to_string());
    pieces.push("ret".to_string());
    format!("{}{}{}", HEADER, pieces.join("\n\n"), FOOTER)
}

fn compiled(src: &str) -> String {
    match compile_source(src) {
        Ok(text) => text,
        Err(e) => panic!("unexpected error: {}", e.message()),
    }
}

#[test]
fn number_constant() {
    assert_eq!(compiled("5"), program(&[], 16, "mov rax, 10"));
}

#[test]
fn negative_number_constant() {
    assert_eq!(compiled("-7"), program(&[], 16, "mov rax, -14"));
}

#[test]
fn boolean_and_input_constants() {
    assert_eq!(compiled("true"), program(&[], 16, "mov rax, 3"));
    assert_eq!(compiled("false"), program(&[], 16, "mov rax, 1"));
    assert_eq!(compiled("input"), program(&[], 16, "mov rax, r15"));
}

#[test]
fn add1_checks_and_adds() {
    assert_eq!(
        compiled("(add1 5)"),
        program(
            &[],
            16,
            "mov rax, 10\nmov rbx, rax\nand rbx, 1\ncmp rbx, 0\njne invalid_argument_error\nadd rax, 2\njo overflow_error"
        )
    );
}

#[test]
fn negate_multiplies_by_minus_one() {
    assert_eq!(
        compiled("(negate 2)"),
        program(
            &[],
            16,
            "mov rax, 4\nmov rbx, rax\nand rbx, 1\ncmp rbx, 0\njne invalid_argument_error\nimul rax, -1\njo overflow_error"
        )
    );
}

#[test]
fn type_tests() {
    assert_eq!(compiled("(isnum 1)"), program(&[], 16, "mov rax, 2\nand rax, 1\nshl rax, 1\nxor rax, 3"));
    assert_eq!(compiled("(isbool 1)"), program(&[], 16, "mov rax, 2\nand rax, 1\nshl rax, 1\nadd rax, 1"));
    assert_eq!(compiled("(print 1)"), program(&[], 16, "mov rax, 2\nmov rdi, rax\ncall snek_print"));
}

#[test]
fn plus_uses_one_temporary() {
    assert_eq!(
        compiled("(+ 1 2)"),
        program(
            &[],
            16,
            "mov rax, 2\nmov [rbp - 8], rax\nmov rax, 4\nmov rbx, rax\nor rbx, [rbp - 8]\ntest rbx, 1\njnz invalid_argument_error\nadd rax, [rbp - 8]\njo overflow_error"
        )
    );
}

#[test]
fn minus_and_times() {
    assert_eq!(
        compiled("(- 5 2)"),
        program(
            &[],
            16,
            "mov rax, 10\nmov [rbp - 8], rax\nmov rax, 4\nmov rbx, rax\nor rbx, [rbp - 8]\ntest rbx, 1\njnz invalid_argument_error\nmov r8, rax\nmov rax, [rbp - 8]\nsub rax, r8\njo overflow_error"
        )
    );
    assert_eq!(
        compiled("(* 3 2)"),
        program(
            &[],
            16,
            "mov rax, 6\nmov [rbp - 8], rax\nmov rax, 4\nmov rbx, rax\nor rbx, [rbp - 8]\ntest rbx, 1\njnz invalid_argument_error\nmov r8, rax\nmov rax, [rbp - 8]\nsar rax, 1\nimul rax, r8\njo overflow_error"
        )
    );
}

#[test]
fn nested_plus_uses_two_temporaries() {
    // (+ 1 (+ 2 3)): the inner sum saves at slot 2; the frame has 2 + 1 = 3
    // slots, rounded up to 4.
    let text = compiled("(+ 1 (+ 2 3))");
    assert!(text.contains("mov [rbp - 16], rax"));
    assert!(text.contains("sub rsp, 32"));
}

#[test]
fn comparison_with_labels() {
    assert_eq!(
        compiled("(< 1 2)"),
        program(
            &[],
            16,
            "mov rax, 2\nmov [rbp - 8], rax\nmov rax, 4\nmov rbx, rax\nor rbx, [rbp - 8]\ntest rbx, 1\njnz invalid_argument_error\nmov r8, rax\nmov rax, [rbp - 8]\ncmp rax, r8\njl cmp_true_0\nmov rax, 1\njmp cmp_end_1\ncmp_true_0:\nmov rax, 3\ncmp_end_1:"
        )
    );
}

#[test]
fn equality_checks_types_match() {
    assert_eq!(
        compiled("(= 1 true)"),
        program(
            &[],
            16,
            "mov rax, 2\nmov [rbp - 8], rax\nmov rax, 3\nmov r8, rax\nmov r9, [rbp - 8]\nmov r10, r8\nxor r10, r9\ntest r10, 1\njnz invalid_argument_error\ncmp r9, r8\nje cmp_true_0\nmov rax, 1\njmp cmp_end_1\ncmp_true_0:\nmov rax, 3\ncmp_end_1:"
        )
    );
}

#[test]
fn let_binds_a_slot() {
    assert_eq!(
        compiled("(let ((x 5)) x)"),
        program(&[], 16, "mov rax, 10\nmov [rbp - 8], rax\nmov rax, [rbp - 8]")
    );
}

#[test]
fn if_with_labels() {
    assert_eq!(
        compiled("(if true 1 2)"),
        program(
            &[],
            16,
            "mov rax, 3\ncmp rax, 1\nje if_else_0\nmov rax, 2\njmp if_end_1\nif_else_0:\nmov rax, 4\nif_end_1:"
        )
    );
}

#[test]
fn loop_and_break() {
    assert_eq!(
        compiled("(loop (break 1))"),
        program(&[], 16, "loop_start_0:\nmov rax, 2\njmp loop_end_1\njmp loop_start_0\nloop_end_1:")
    );
}

#[test]
fn block_and_set() {
    assert_eq!(
        compiled("(let ((x 1)) (block (set! x 2) x))"),
        program(&[], 16, "mov rax, 2\nmov [rbp - 8], rax\nmov rax, 4\nmov [rbp - 8], rax\nmov rax, [rbp - 8]")
    );
}

#[test]
fn function_definition_and_call() {
    let defn = "fun_f:\n  push rbp\n  mov rbp, rsp\n  sub rsp, 16\n  mov rax, [rbp + 16]\nmov rbx, rax\nand rbx, 1\ncmp rbx, 0\njne invalid_argument_error\nadd rax, 2\njo overflow_error\n  mov rsp, rbp\n  pop rbp\n  ret";
    let main = "mov rax, 6\nmov [rbp - 8], rax\nsub rsp, 8\nmov rax, [rbp - 8]\npush rax\ncall fun_f\nadd rsp, 16";
    assert_eq!(compiled("(fun (f x) (add1 x)) (f 3)"), program(&[defn], 16, main));
}

#[test]
fn call_with_two_arguments_needs_no_alignment() {
    let text = compiled("(fun (g a b) (+ a b)) (g 1 2)");
    assert!(text.contains("mov rax, [rbp + 16]"));
    assert!(text.contains("mov rax, [rbp + 24]"));
    assert!(text.contains("mov rax, [rbp - 16]\npush rax\nmov rax, [rbp - 8]\npush rax\ncall fun_g\nadd rsp, 16"));
    assert!(!text.contains("sub rsp, 8\n"));
}

#[test]
fn labels_continue_across_functions() {
    let text = compiled("(fun (f x) (if x 1 2)) (if true 3 4)");
    assert!(text.contains("if_else_0:"));
    assert!(text.contains("if_end_1:"));
    assert!(text.contains("if_else_2:"));
    assert!(text.contains("if_end_3:"));
}

#[test]
fn empty_source_has_no_main() {
    assert!(matches!(compile_source(""), Err(CompileError::NoMain)));
}

#[test]
fn unbound_variable_is_refused() {
    assert!(matches!(compile_source("x"), Err(CompileError::UnboundVariable(ref n)) if n == "x"));
    assert!(matches!(compile_source("(set! y 1)"), Err(CompileError::UnboundVariable(ref n)) if n == "y"));
}

#[test]
fn undefined_function_is_refused() {
    assert!(matches!(compile_source("(f 1)"), Err(CompileError::UndefinedFunction(ref n)) if n == "f"));
}

#[test]
fn wrong_arity_is_refused() {
    let r = compile_source("(fun (f x) x) (f)");
    assert!(matches!(r, Err(CompileError::ArityMismatch(ref n, 1, 0)) if n == "f"));
    assert_eq!(r.unwrap_err().message(), "Function f expected 1 arguments, got 0");
}

#[test]
fn duplicate_function_is_refused() {
    assert!(matches!(
        compile_source("(fun (f) 1) (fun (f) 2) 1"),
        Err(CompileError::DuplicateFunction(ref n)) if n == "f"
    ));
}

#[test]
fn break_outside_loop_is_refused() {
    assert!(matches!(compile_source("(break 1)"), Err(CompileError::BreakOutsideLoop)));
}

#[test]
fn duplicate_binding_is_refused() {
    assert!(matches!(compile_source("(let ((x 1) (x 2)) x)"), Err(CompileError::DuplicateBinding)));
}

#[test]
fn every_i32_constant_compiles() {
    assert_eq!(compiled("1073741824"), program(&[], 16, "mov rax, 2147483648"));
    assert_eq!(compiled("-1073741825"), program(&[], 16, "mov rax, -2147483650"));
    assert_eq!(compiled("2147483647"), program(&[], 16, "mov rax, 4294967294"));
    assert_eq!(compiled("-2147483648"), program(&[], 16, "mov rax, -4294967296"));
}

#[test]
fn error_messages() {
    assert_eq!(CompileError::UnboundVariable("x".to_string()).message(), "Unbound variable identifier x");
    assert_eq!(CompileError::<String>::InvalidSexp.message(), "Invalid");
    assert_eq!(CompileError::<String>::BreakOutsideLoop.message(), "break outside of loop");
    assert_eq!(CompileError::DuplicateFunction("g".to_string()).message(), "Duplicate function: g");
}
