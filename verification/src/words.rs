//! The words of the language: which characters make an identifier, which
//! names are kept, and which operator each operator word stands for.
use vstd::prelude::*;
use vstd::string::*;
use crate::ast::{ExprV, Op1, Op2};
use crate::error::Fault;
use crate::ident::{is_ident_rest, is_reserved, valid_identifier};
use crate::parser::{binary_op, spec_parse_expr, unary_op};
use crate::sexpr::{Atom, SExpr};

verus! {

/// Law: a name is a valid identifier exactly when it is not kept by the
/// language, is not empty, starts with an ASCII letter or `_`, and goes on
/// with ASCII letters, ASCII digits, `_` or `-`; the kept names are the
/// language's keywords and operator words that are names.
pub proof fn law_identifier_characters(s: Seq<char>)
    ensures
        valid_identifier(s) <==> {
            &&& !is_reserved(s)
            &&& s.len() > 0
            &&& ('a' <= s[0] && s[0] <= 'z') || ('A' <= s[0] && s[0] <= 'Z') || s[0] == '_'
            &&& forall|i: int|
                1 <= i < s.len() ==> ('a' <= #[trigger] s[i] && s[i] <= 'z') || ('A' <= s[i] && s[i] <= 'Z')
                    || ('0' <= s[i] && s[i] <= '9') || s[i] == '_' || s[i] == '-'
        },
        is_reserved(s) <==> (s == "let"@ || s == "add1"@ || s == "sub1"@ || s == "negate"@ || s == "isnum"@
            || s == "isbool"@ || s == "print"@ || s == "true"@ || s == "false"@ || s == "input"@ || s
            == "if"@ || s == "block"@ || s == "loop"@ || s == "break"@ || s == "set!"@ || s == "fun"@),
{
    let rest_ok = forall|i: int|
        1 <= i < s.len() ==> ('a' <= #[trigger] s[i] && s[i] <= 'z') || ('A' <= s[i] && s[i] <= 'Z')
            || ('0' <= s[i] && s[i] <= '9') || s[i] == '_' || s[i] == '-';
    if valid_identifier(s) {
        assert forall|i: int| 1 <= i < s.len() implies ('a' <= #[trigger] s[i] && s[i] <= 'z') || ('A' <= s[i]
            && s[i] <= 'Z') || ('0' <= s[i] && s[i] <= '9') || s[i] == '_' || s[i] == '-' by {
            assert(is_ident_rest(s[i]));
        }
    }
    if rest_ok {
        assert forall|i: int| 1 <= i < s.len() implies #[trigger] is_ident_rest(s[i]) by {
            assert(('a' <= s[i] && s[i] <= 'z') || ('A' <= s[i] && s[i] <= 'Z') || ('0' <= s[i] && s[i] <= '9')
                || s[i] == '_' || s[i] == '-');
        }
    }
}

/// The S-expression is a list of `n` items whose first is the word `w`.
pub open spec fn headed_by(s: SExpr, n: int, w: Seq<char>) -> bool {
    s matches SExpr::List(v) && (v@.len() == n && (v@[0] matches SExpr::Atom(Atom::S(h)) && h@ == w))
}

/// The item at `i` of a list.
pub open spec fn item(s: SExpr, i: int) -> SExpr {
    s->List_0@[i]
}

proof fn lemma_binary_word(s: SExpr, w: Seq<char>, op: Op2)
    requires
        headed_by(s, 3, w),
        unary_op(w) is None,
        binary_op(w) == Some(op),
        spec_parse_expr(item(s, 1)) is Ok,
        spec_parse_expr(item(s, 2)) is Ok,
    ensures
        spec_parse_expr(s) == Ok::<ExprV, Fault>(
            ExprV::BinOp(
                op,
                Box::new(spec_parse_expr(item(s, 1))->Ok_0),
                Box::new(spec_parse_expr(item(s, 2))->Ok_0),
            ),
        ),
{
}

proof fn lemma_unary_word(s: SExpr, w: Seq<char>, op: Op1)
    requires
        headed_by(s, 2, w),
        unary_op(w) == Some(op),
        spec_parse_expr(item(s, 1)) is Ok,
    ensures
        spec_parse_expr(s) == Ok::<ExprV, Fault>(ExprV::UnOp(op, Box::new(spec_parse_expr(item(s, 1))->Ok_0))),
{
}

/// Law: each binary operator word stands for its own operator: `+` for
/// addition, `-` for subtraction, `*` for multiplication, `<`, `>`, `<=`,
/// `>=` for less, greater, less-or-equal and greater-or-equal, `=` for
/// equality; the operands are read in order.
pub proof fn law_binary_words(s: SExpr)
    ensures
        spec_parse_expr(item(s, 1)) is Ok && spec_parse_expr(item(s, 2)) is Ok ==> {
            let a = Box::new(spec_parse_expr(item(s, 1))->Ok_0);
            let b = Box::new(spec_parse_expr(item(s, 2))->Ok_0);
            &&& headed_by(s, 3, "+"@) ==> spec_parse_expr(s) == Ok::<ExprV, Fault>(ExprV::BinOp(Op2::Plus, a, b))
            &&& headed_by(s, 3, "-"@) ==> spec_parse_expr(s) == Ok::<ExprV, Fault>(ExprV::BinOp(Op2::Minus, a, b))
            &&& headed_by(s, 3, "*"@) ==> spec_parse_expr(s) == Ok::<ExprV, Fault>(ExprV::BinOp(Op2::Times, a, b))
            &&& headed_by(s, 3, "<"@) ==> spec_parse_expr(s) == Ok::<ExprV, Fault>(ExprV::BinOp(Op2::Less, a, b))
            &&& headed_by(s, 3, ">"@) ==> spec_parse_expr(s) == Ok::<ExprV, Fault>(ExprV::BinOp(Op2::Greater, a, b))
            &&& headed_by(s, 3, "<="@) ==> spec_parse_expr(s) == Ok::<ExprV, Fault>(ExprV::BinOp(Op2::LessEq, a, b))
            &&& headed_by(s, 3, ">="@) ==> spec_parse_expr(s) == Ok::<ExprV, Fault>(
                ExprV::BinOp(Op2::GreaterEq, a, b),
            )
            &&& headed_by(s, 3, "="@) ==> spec_parse_expr(s) == Ok::<ExprV, Fault>(ExprV::BinOp(Op2::Equal, a, b))
        },
{
    reveal_strlit("+");
    reveal_strlit("-");
    reveal_strlit("*");
    reveal_strlit("<");
    reveal_strlit(">");
    reveal_strlit("<=");
    reveal_strlit(">=");
    reveal_strlit("=");
    reveal_strlit("add1");
    reveal_strlit("sub1");
    reveal_strlit("negate");
    reveal_strlit("isnum");
    reveal_strlit("isbool");
    reveal_strlit("print");
    assert("+"@.len() == 1 && "+"@[0] == '+');
    assert("-"@.len() == 1 && "-"@[0] == '-');
    assert("*"@.len() == 1 && "*"@[0] == '*');
    assert("<"@.len() == 1 && "<"@[0] == '<');
    assert(">"@.len() == 1 && ">"@[0] == '>');
    assert("<="@.len() == 2 && "<="@[0] == '<');
    assert(">="@.len() == 2 && ">="@[0] == '>');
    assert("="@.len() == 1 && "="@[0] == '=');
    assert("add1"@.len() == 4 && "add1"@[0] == 'a');
    assert("sub1"@.len() == 4 && "sub1"@[0] == 's');
    assert("negate"@.len() == 6 && "negate"@[0] == 'n');
    assert("isnum"@.len() == 5 && "isnum"@[0] == 'i');
    assert("isbool"@.len() == 6 && "isbool"@[0] == 'i');
    assert("print"@.len() == 5 && "print"@[0] == 'p');
    assert("isnum"@[2] == 'n' && "isbool"@[2] == 'b');
    assert("<="@[1] == '=' && ">="@[1] == '=');
    if spec_parse_expr(item(s, 1)) is Ok && spec_parse_expr(item(s, 2)) is Ok {
        if headed_by(s, 3, "+"@) {
            lemma_binary_word(s, "+"@, Op2::Plus);
        }
        if headed_by(s, 3, "-"@) {
            lemma_binary_word(s, "-"@, Op2::Minus);
        }
        if headed_by(s, 3, "*"@) {
            lemma_binary_word(s, "*"@, Op2::Times);
        }
        if headed_by(s, 3, "<"@) {
            lemma_binary_word(s, "<"@, Op2::Less);
        }
        if headed_by(s, 3, ">"@) {
            lemma_binary_word(s, ">"@, Op2::Greater);
        }
        if headed_by(s, 3, "<="@) {
            lemma_binary_word(s, "<="@, Op2::LessEq);
        }
        if headed_by(s, 3, ">="@) {
            lemma_binary_word(s, ">="@, Op2::GreaterEq);
        }
        if headed_by(s, 3, "="@) {
            lemma_binary_word(s, "="@, Op2::Equal);
        }
    }
}

/// Law: each unary operator word stands for its own operator: `add1`,
/// `sub1`, `negate`, `isnum`, `isbool` and `print`.
pub proof fn law_unary_words(s: SExpr)
    ensures
        spec_parse_expr(item(s, 1)) is Ok ==> {
            let a = Box::new(spec_parse_expr(item(s, 1))->Ok_0);
            &&& headed_by(s, 2, "add1"@) ==> spec_parse_expr(s) == Ok::<ExprV, Fault>(ExprV::UnOp(Op1::Add1, a))
            &&& headed_by(s, 2, "sub1"@) ==> spec_parse_expr(s) == Ok::<ExprV, Fault>(ExprV::UnOp(Op1::Sub1, a))
            &&& headed_by(s, 2, "negate"@) ==> spec_parse_expr(s) == Ok::<ExprV, Fault>(ExprV::UnOp(Op1::Negate, a))
            &&& headed_by(s, 2, "isnum"@) ==> spec_parse_expr(s) == Ok::<ExprV, Fault>(ExprV::UnOp(Op1::IsNum, a))
            &&& headed_by(s, 2, "isbool"@) ==> spec_parse_expr(s) == Ok::<ExprV, Fault>(ExprV::UnOp(Op1::IsBool, a))
            &&& headed_by(s, 2, "print"@) ==> spec_parse_expr(s) == Ok::<ExprV, Fault>(ExprV::UnOp(Op1::Print, a))
        },
{
    reveal_strlit("add1");
    reveal_strlit("sub1");
    reveal_strlit("negate");
    reveal_strlit("isnum");
    reveal_strlit("isbool");
    reveal_strlit("print");
    assert("add1"@.len() == 4 && "add1"@[0] == 'a');
    assert("sub1"@.len() == 4 && "sub1"@[0] == 's');
    assert("negate"@.len() == 6 && "negate"@[0] == 'n');
    assert("isnum"@.len() == 5 && "isnum"@[0] == 'i');
    assert("isbool"@.len() == 6 && "isbool"@[0] == 'i');
    assert("print"@.len() == 5 && "print"@[0] == 'p');
    assert("isnum"@[2] == 'n' && "isbool"@[2] == 'b');
    if spec_parse_expr(item(s, 1)) is Ok {
        if headed_by(s, 2, "add1"@) {
            lemma_unary_word(s, "add1"@, Op1::Add1);
        }
        if headed_by(s, 2, "sub1"@) {
            lemma_unary_word(s, "sub1"@, Op1::Sub1);
        }
        if headed_by(s, 2, "negate"@) {
            lemma_unary_word(s, "negate"@, Op1::Negate);
        }
        if headed_by(s, 2, "isnum"@) {
            lemma_unary_word(s, "isnum"@, Op1::IsNum);
        }
        if headed_by(s, 2, "isbool"@) {
            lemma_unary_word(s, "isbool"@, Op1::IsBool);
        }
        if headed_by(s, 2, "print"@) {
            lemma_unary_word(s, "print"@, Op1::Print);
        }
    }
}

} // verus!
