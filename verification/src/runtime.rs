//! The decisions of the runtime that runs compiled programs: how it reads its
//! input, how it shows the result, and what it reports for an error code.
//! Values are tagged: a number `n` is `2 * n`, `true` is 3 and `false` is 1.
use vstd::prelude::*;
use vstd::string::*;
use crate::ident::is_ascii_digit;
use crate::text::{append_decimal, decimal, same_text};

verus! {

/// The value of a sequence of decimal digits.
pub open spec fn digits_value(s: Seq<char>) -> int
    decreases s.len(),
{
    if s.len() == 0 {
        0
    } else {
        digits_value(s.drop_last()) * 10 + (s.last() as int - 48)
    }
}

/// A non-empty sequence of ASCII decimal digits.
pub open spec fn all_digits(s: Seq<char>) -> bool {
    s.len() > 0 && forall|i: int| 0 <= i < s.len() ==> #[trigger] is_ascii_digit(s[i])
}

/// The integer that a text writes: an optional `+` or `-`, then one or more
/// ASCII digits.
pub open spec fn signed_value(s: Seq<char>) -> Option<int> {
    if s.len() > 0 && s[0] == '-' {
        if all_digits(s.drop_first()) {
            Some(-digits_value(s.drop_first()))
        } else {
            None
        }
    } else if s.len() > 0 && s[0] == '+' {
        if all_digits(s.drop_first()) {
            Some(digits_value(s.drop_first()))
        } else {
            None
        }
    } else if all_digits(s) {
        Some(digits_value(s))
    } else {
        None
    }
}

/// What `str::parse::<i64>` gives for a text: its integer, where the text
/// writes one that fits in an `i64`.
pub open spec fn i64_of_text(s: Seq<char>) -> Option<i64> {
    match signed_value(s) {
        Some(v) => {
            if i64::MIN <= v <= i64::MAX {
                Some(v as i64)
            } else {
                None
            }
        },
        None => None,
    }
}

/// A bound on the digits' value that the reader keeps: past it, the value
/// leaves the `i64` range whatever follows.
pub open spec fn value_cap() -> int {
    0x1_0000_0000_0000_0000
}

/// The value of digits, held at [`value_cap`] once it gets there.
pub open spec fn capped(v: int) -> int {
    if v < value_cap() {
        v
    } else {
        value_cap()
    }
}

/// Reads a decimal `i64` as `str::parse::<i64>` does: an optional `+` or
/// `-`, then one or more ASCII digits, whose value must fit; `None` for any
/// other text.
fn parse_i64(text: &str) -> (r: Option<i64>)
    ensures
        r == i64_of_text(text@),
{
    let n: usize = text.unicode_len();
    if n == 0 {
        return None;
    }
    let c0 = text.get_char(0);
    let negative = c0 == '-';
    let start: usize = if c0 == '-' || c0 == '+' {
        1
    } else {
        0
    };
    let ghost s = text@;
    let ghost body = if start == 1 {
        s.drop_first()
    } else {
        s
    };
    assert(body =~= s.subrange(start as int, n as int));
    if start == n {
        return None;
    }
    let mut mag: u128 = 0;
    let mut i: usize = start;
    assert(s.subrange(start as int, start as int) =~= Seq::<char>::empty());
    while i < n
        invariant
            n == s.len(),
            s == text@,
            start <= i <= n,
            start <= 1,
            body == s.subrange(start as int, n as int),
            body == (if start == 1 {
                s.drop_first()
            } else {
                s
            }),
            s.len() > 0,
            (start == 1) == (s[0] == '-' || s[0] == '+'),
            negative == (s[0] == '-'),
            forall|j: int| start <= j < i ==> #[trigger] is_ascii_digit(s[j]),
            digits_value(s.subrange(start as int, i as int)) >= 0,
            mag == capped(digits_value(s.subrange(start as int, i as int))),
        decreases n - i,
    {
        let c = text.get_char(i);
        if !('0' <= c && c <= '9') {
            proof {
                assert(body[i - start] == s[i as int]);
                assert(!is_ascii_digit(body[i - start]));
            }
            return None;
        }
        let d: u128 = (c as u32 - 48) as u128;
        let ghost before = s.subrange(start as int, i as int);
        let ghost after = s.subrange(start as int, i + 1);
        assert(after.drop_last() =~= before);
        assert(after.last() == c);
        mag = if mag * 10 + d < 0x1_0000_0000_0000_0000 {
            mag * 10 + d
        } else {
            0x1_0000_0000_0000_0000
        };
        i = i + 1;
    }
    proof {
        assert(s.subrange(start as int, n as int) =~= body);
        assert forall|j: int| 0 <= j < body.len() implies #[trigger] is_ascii_digit(body[j]) by {
            assert(body[j] == s[j + start]);
        }
        assert(all_digits(body));
    }
    if negative {
        if mag > 0x8000_0000_0000_0000 {
            None
        } else {
            let v: i128 = -(mag as i128);
            Some(v as i64)
        }
    } else if mag > 0x7fff_ffff_ffff_ffff {
        None
    } else {
        Some(mag as i64)
    }
}

/// The tagged value of a number: the number shifted left by one bit.
pub open spec fn tag_number(n: i64) -> i64 {
    n << 1
}

/// The tagged value of the runtime's input text: `true`, `false`, or a
/// number.
pub open spec fn spec_parse_input(s: Seq<char>) -> Option<i64> {
    if s == "true"@ {
        Some(3)
    } else if s == "false"@ {
        Some(1)
    } else {
        match i64_of_text(s) {
            Some(n) => Some(tag_number(n)),
            None => None,
        }
    }
}

/// Reads the runtime's input: `true`, `false` or a decimal `i64`, as a
/// tagged value; `None` for any other text.
pub fn checked_parse_input(input: &str) -> (r: Option<i64>)
    ensures
        r == spec_parse_input(input@),
{
    if same_text(input, "true") {
        return Some(3);
    } else if same_text(input, "false") {
        return Some(1);
    }
    match parse_i64(input) {
        Some(n) => Some(n << 1),
        None => None,
    }
}

/// Reads a valid input of the runtime (`true`, `false` or a decimal `i64`) as
/// a tagged value.
pub fn parse_input(input: &str) -> (r: i64)
    requires
        spec_parse_input(input@) is Some,
    ensures
        r == spec_parse_input(input@)->0,
{
    match checked_parse_input(input) {
        Some(v) => v,
        None => vstd::pervasive::unreached(),
    }
}

/// The text that the runtime shows for a tagged value: the number of an even
/// value, `true`, `false`, or an unknown value.
pub open spec fn spec_value_text(i: i64) -> Seq<char> {
    if i & 1 == 0 {
        decimal((i >> 1) as int)
    } else if i == 3 {
        "true"@
    } else if i == 1 {
        "false"@
    } else {
        "Unknown value: "@ + decimal(i as int)
    }
}

/// The text that the runtime shows for the tagged value `i`.
pub fn value_text(i: i64) -> (r: String)
    ensures
        r@ == spec_value_text(i),
{
    if i & 1 == 0 {
        let mut out = String::new();
        append_decimal(&mut out, i >> 1);
        assert(out@ =~= decimal((i >> 1) as int));
        out
    } else if i == 3 {
        String::from_str("true")
    } else if i == 1 {
        String::from_str("false")
    } else {
        let mut out = String::from_str("Unknown value: ");
        append_decimal(&mut out, i);
        out
    }
}

/// The message that the runtime reports for an error code of compiled code.
pub open spec fn spec_error_text(errcode: i64) -> Seq<char> {
    if errcode == 1 {
        "invalid argument"@
    } else if errcode == 2 {
        "overflow"@
    } else {
        "an error occurred "@ + decimal(errcode as int)
    }
}

/// The message for an error code: 1 is an argument of the wrong type, 2 an
/// arithmetic overflow.
pub fn error_text(errcode: i64) -> (r: String)
    ensures
        r@ == spec_error_text(errcode),
{
    if errcode == 1 {
        String::from_str("invalid argument")
    } else if errcode == 2 {
        String::from_str("overflow")
    } else {
        let mut out = String::from_str("an error occurred ");
        append_decimal(&mut out, errcode);
        out
    }
}

} // verus!
