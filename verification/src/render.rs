//! Textual rendering helpers: joining element texts with a separator and
//! writing the bound in decimal.

use itertools::Itertools;
use vstd::prelude::*;
use vstd::string::StringExecFns;

verus! {

/// `parts` in order, with `sep` between consecutive parts.
pub open spec fn join_of(parts: Seq<Seq<char>>, sep: Seq<char>) -> Seq<char>
    decreases parts.len(),
{
    if parts.len() == 0 {
        Seq::empty()
    } else if parts.len() == 1 {
        parts[0]
    } else {
        parts[0] + sep + join_of(parts.drop_first(), sep)
    }
}

/// Relies on itertools' `Itertools::format`: it writes the items in order
/// with the separator between consecutive items, and `Display` for `String`
/// writes the string itself.
#[verifier::external_body]
fn join_with(parts: &Vec<String>, sep: &str) -> (r: String)
    ensures
        r@ == join_of(parts@.map_values(|p: String| p@), sep@),
{
    format!("{}", parts.iter().format(sep))
}

/// The decimal digit characters of `n`, most significant first.
pub open spec fn spec_decimal(n: nat) -> Seq<char>
    decreases n,
{
    if n < 10 {
        seq![digit_char(n)]
    } else {
        spec_decimal(n / 10) + seq![digit_char(n % 10)]
    }
}

/// The character for one decimal digit.
pub open spec fn digit_char(d: nat) -> char {
    if d == 0 {
        '0'
    } else if d == 1 {
        '1'
    } else if d == 2 {
        '2'
    } else if d == 3 {
        '3'
    } else if d == 4 {
        '4'
    } else if d == 5 {
        '5'
    } else if d == 6 {
        '6'
    } else if d == 7 {
        '7'
    } else if d == 8 {
        '8'
    } else {
        '9'
    }
}

/// One decimal digit as text.
fn digit_str(d: usize) -> (r: &'static str)
    requires
        d < 10,
    ensures
        r@ == seq![digit_char(d as nat)],
{
    proof {
        reveal_strlit("0");
        reveal_strlit("1");
        reveal_strlit("2");
        reveal_strlit("3");
        reveal_strlit("4");
        reveal_strlit("5");
        reveal_strlit("6");
        reveal_strlit("7");
        reveal_strlit("8");
        reveal_strlit("9");
    }
    let r = match d {
        0 => "0",
        1 => "1",
        2 => "2",
        3 => "3",
        4 => "4",
        5 => "5",
        6 => "6",
        7 => "7",
        8 => "8",
        _ => "9",
    };
    assert(r@ =~= seq![digit_char(d as nat)]);
    r
}

/// `n` written in decimal.
pub fn decimal_string(n: usize) -> (r: String)
    ensures
        r@ == spec_decimal(n as nat),
    decreases n,
{
    if n < 10 {
        let d = digit_str(n);
        let r = String::from_str(d);
        assert(r@ =~= spec_decimal(n as nat));
        r
    } else {
        let mut r = decimal_string(n / 10);
        r.append(digit_str(n % 10));
        assert(r@ =~= spec_decimal(n as nat));
        r
    }
}

/// The rendered text of a container whose elements read as `parts`: the
/// parts joined with a comma inside a container literal, with the bound
/// appended when one is set.
pub open spec fn spec_render(parts: Seq<Seq<char>>, bound: Option<usize>) -> Seq<char> {
    "deque(["@ + join_of(parts, ", "@) + "]"@ + (match bound {
        Some(b) => ", maxlen="@ + spec_decimal(b as nat),
        None => Seq::<char>::empty(),
    }) + ")"@
}

/// Assembles the rendered text from the element texts and the bound.
pub fn render(parts: &Vec<String>, bound: Option<usize>) -> (r: String)
    ensures
        r@ == spec_render(parts@.map_values(|p: String| p@), bound),
{
    let joined = join_with(parts, ", ");
    let mut out = String::from_str("deque([");
    out.append(joined.as_str());
    out.append("]");
    match bound {
        Some(b) => {
            out.append(", maxlen=");
            let digits = decimal_string(b);
            out.append(digits.as_str());
        },
        None => {},
    }
    out.append(")");
    assert(out@ =~= spec_render(parts@.map_values(|p: String| p@), bound));
    out
}

} // verus!
