//! Identifiers of the Adder language.
use vstd::prelude::*;
use crate::text::same_text;

verus! {

/// The words that the language keeps for itself.
pub open spec fn is_reserved(s: Seq<char>) -> bool {
    ||| s == "let"@
    ||| s == "add1"@
    ||| s == "sub1"@
    ||| s == "negate"@
    ||| s == "isnum"@
    ||| s == "isbool"@
    ||| s == "print"@
    ||| s == "true"@
    ||| s == "false"@
    ||| s == "input"@
    ||| s == "if"@
    ||| s == "block"@
    ||| s == "loop"@
    ||| s == "break"@
    ||| s == "set!"@
    ||| s == "fun"@
}

/// An ASCII letter.
pub open spec fn is_ascii_letter(c: char) -> bool {
    ('a' <= c && c <= 'z') || ('A' <= c && c <= 'Z')
}

/// An ASCII digit.
pub open spec fn is_ascii_digit(c: char) -> bool {
    '0' <= c && c <= '9'
}

/// A character that may follow the first one of an identifier.
pub open spec fn is_ident_rest(c: char) -> bool {
    is_ascii_letter(c) || is_ascii_digit(c) || c == '_' || c == '-'
}

/// A valid identifier: not reserved, non-empty, starting with an ASCII letter
/// or `_`, and going on with ASCII letters, digits, `_` or `-`.
pub open spec fn valid_identifier(s: Seq<char>) -> bool {
    &&& !is_reserved(s)
    &&& s.len() > 0
    &&& (is_ascii_letter(s[0]) || s[0] == '_')
    &&& forall|i: int| 1 <= i < s.len() ==> #[trigger] is_ident_rest(s[i])
}

fn reserved(name: &str) -> (r: bool)
    ensures
        r == is_reserved(name@),
{
    same_text(name, "let") || same_text(name, "add1") || same_text(name, "sub1")
        || same_text(name, "negate") || same_text(name, "isnum") || same_text(name, "isbool")
        || same_text(name, "print") || same_text(name, "true") || same_text(name, "false")
        || same_text(name, "input") || same_text(name, "if") || same_text(name, "block")
        || same_text(name, "loop") || same_text(name, "break") || same_text(name, "set!")
        || same_text(name, "fun")
}

/// Whether `name` may name a variable or a function.
pub fn is_valid_identifier(name: &str) -> (r: bool)
    ensures
        r == valid_identifier(name@),
{
    if reserved(name) {
        return false;
    }
    let n = name.unicode_len();
    if n == 0 {
        return false;
    }
    let first = name.get_char(0);
    if !(('a' <= first && first <= 'z') || ('A' <= first && first <= 'Z')) && first != '_' {
        return false;
    }
    let mut i: usize = 1;
    while i < n
        invariant
            n == name@.len(),
            1 <= i <= n,
            forall|j: int| 1 <= j < i ==> #[trigger] is_ident_rest(name@[j]),
        decreases n - i,
    {
        let c = name.get_char(i);
        let ok = ('a' <= c && c <= 'z') || ('A' <= c && c <= 'Z') || ('0' <= c && c <= '9')
            || c == '_' || c == '-';
        if !ok {
            assert(!is_ident_rest(name@[i as int]));
            return false;
        }
        i = i + 1;
    }
    true
}

} // verus!
