//! Small facts and operations on text: comparison, decimal numbers,
//! joining with a separator, and terminal colouring.
use vstd::prelude::*;
use owo_colors::OwoColorize;

verus! {

/// Compares two string slices character by character.
pub fn same_text(a: &str, b: &str) -> (res: bool)
    ensures
        res == (a@ == b@),
{
    let x = String::from_str(a);
    let y = String::from_str(b);
    x == y
}

/// The character of a decimal digit.
pub open spec fn digit_char(d: nat) -> char
    recommends
        d < 10,
{
    (48 + d) as char
}

/// The decimal digits of a natural number, most significant first.
pub open spec fn nat_digits(n: nat) -> Seq<char>
    decreases n,
{
    if n < 10 {
        seq![digit_char(n)]
    } else {
        nat_digits(n / 10).push(digit_char(n % 10))
    }
}

/// The decimal text of an integer, with a leading `-` for negative values.
pub open spec fn decimal_text(i: int) -> Seq<char> {
    if i < 0 {
        seq!['-'] + nat_digits((-i) as nat)
    } else {
        nat_digits(i as nat)
    }
}

fn digit_text(d: u64) -> (res: &'static str)
    requires
        d < 10,
    ensures
        res@ == seq![digit_char(d as nat)],
{
    proof {
        reveal_strlit("0");
        reveal_strlit("1");
        reveal_strlit("2");
        reveal_strlit("3");
        reveal_strlit("4");
        reveal_strlit("5");
        reveal_strlit("6");
        reveal_strlit("7");
        reveal_strlit("8");
        reveal_strlit("9");
    }
    if d == 0 {
        "0"
    } else if d == 1 {
        "1"
    } else if d == 2 {
        "2"
    } else if d == 3 {
        "3"
    } else if d == 4 {
        "4"
    } else if d == 5 {
        "5"
    } else if d == 6 {
        "6"
    } else if d == 7 {
        "7"
    } else if d == 8 {
        "8"
    } else {
        "9"
    }
}

fn natural_text(n: u64) -> (res: String)
    ensures
        res@ == nat_digits(n as nat),
    decreases n,
{
    if n < 10 {
        String::from_str(digit_text(n))
    } else {
        let mut s = natural_text(n / 10);
        s.append(digit_text(n % 10));
        s
    }
}

/// Writes an integer in decimal, as `Display` does for `i64`.
pub fn decimal_string(i: i64) -> (res: String)
    ensures
        res@ == decimal_text(i as int),
{
    if i < 0 {
        let wide: i128 = i as i128;
        let magnitude: u64 = (0 - wide) as u64;
        let digits = natural_text(magnitude);
        let mut s = String::from_str("-");
        proof {
            reveal_strlit("-");
        }
        s.append(digits.as_str());
        s
    } else {
        natural_text(i as u64)
    }
}

/// The items of `list` joined by `sep`.
pub open spec fn joined(list: Seq<Seq<char>>, sep: Seq<char>) -> Seq<char>
    decreases list.len(),
{
    if list.len() == 0 {
        seq![]
    } else if list.len() == 1 {
        list[0]
    } else {
        joined(list.drop_last(), sep) + sep + list.last()
    }
}

/// Joins the strings of `list`, placing `sep` between neighbours.
pub fn join_strings(list: &Vec<String>, sep: &str) -> (res: String)
    ensures
        res@ == joined(list@.map_values(|s: String| s@), sep@),
{
    let ghost views = list@.map_values(|s: String| s@);
    let mut res = String::new();
    let mut i: usize = 0;
    while i < list.len()
        invariant
            i <= list.len(),
            views == list@.map_values(|s: String| s@),
            res@ == joined(views.take(i as int), sep@),
        decreases list.len() - i,
    {
        if i != 0 {
            res.append(sep);
        }
        res.append(list[i].as_str());
        assert(views.take(i + 1).drop_last() =~= views.take(i as int));
        i = i + 1;
    }
    assert(views.take(list.len() as int) =~= views);
    res
}

/// The escape sequence that sets the foreground colour with the given
/// two-digit ANSI code, followed by `text` and the sequence that restores
/// the default foreground colour.
pub open spec fn painted(tens: char, units: char, text: Seq<char>) -> Seq<char> {
    seq!['\x1b', '[', tens, units, 'm'] + text + seq!['\x1b', '[', '3', '9', 'm']
}

/// Calls `OwoColorize::bright_yellow` of `owo_colors` and displays the result:
/// the text between the escape codes of ANSI colour 93 and of the default
/// foreground colour 39.
#[verifier::external_body]
pub(crate) fn bright_yellow(text: &str) -> (res: String)
    ensures
        res@ == painted('9', '3', text@),
{
    format!("{}", text.bright_yellow())
}

/// Calls `OwoColorize::bright_cyan` of `owo_colors` and displays the result:
/// the text between the escape codes of ANSI colour 96 and of the default
/// foreground colour 39.
#[verifier::external_body]
pub(crate) fn bright_cyan(text: &str) -> (res: String)
    ensures
        res@ == painted('9', '6', text@),
{
    format!("{}", text.bright_cyan())
}

/// Calls `OwoColorize::bright_green` of `owo_colors` and displays the result:
/// the text between the escape codes of ANSI colour 92 and of the default
/// foreground colour 39.
#[verifier::external_body]
pub(crate) fn bright_green(text: &str) -> (res: String)
    ensures
        res@ == painted('9', '2', text@),
{
    format!("{}", text.bright_green())
}

/// Calls `OwoColorize::bright_red` of `owo_colors` and displays the result:
/// the text between the escape codes of ANSI colour 91 and of the default
/// foreground colour 39.
#[verifier::external_body]
pub(crate) fn bright_red(text: &str) -> (res: String)
    ensures
        res@ == painted('9', '1', text@),
{
    format!("{}", text.bright_red())
}

} // verus!
