//! String operations of std that the library relies on.

use vstd::prelude::*;
use vstd::string::StringExecFns;
use crate::context::names_view;
use crate::numeral::decimal;

verus! {

/// Whether two strings hold the same characters.
///
/// Calls `str::eq`, which compares the two strings byte by byte.
#[verifier::external_body]
pub(crate) fn str_equal(a: &str, b: &str) -> (r: bool)
    ensures
        r == (a@ == b@),
{
    a == b
}

/// The pieces of a text between the occurrences of a separator: one piece
/// more than there are separators, empty where two separators meet or the
/// text begins or ends with one.
pub open spec fn split_on(s: Seq<char>, sep: char) -> Seq<Seq<char>>
    decreases s.len(),
{
    if s.len() == 0 {
        seq![Seq::empty()]
    } else {
        let before = split_on(s.drop_last(), sep);
        if s.last() == sep {
            before.push(Seq::empty())
        } else {
            before.update(before.len() - 1, before.last().push(s.last()))
        }
    }
}

/// The pieces of `s` between the occurrences of `sep`, each as a string of
/// its own.
///
/// Calls `str::split`, which yields the substrings between the matches of
/// the separator, empty ones included, and copies each.
#[verifier::external_body]
pub(crate) fn split(s: &str, sep: char) -> (parts: Vec<String>)
    ensures
        names_view(parts@) == split_on(s@, sep),
{
    s.split(sep).map(ToOwned::to_owned).collect()
}

/// The decimal numeral of `i`.
///
/// Calls `to_string` on the number, which writes it with std's `Display`
/// for `usize`: the decimal digits, without sign or padding.
#[verifier::external_body]
fn decimal_string(i: usize) -> (s: String)
    ensures
        s@ == decimal(i as nat),
{
    i.to_string()
}

/// The label of the output column at position `i`, counted from one:
/// `column` and the decimal numeral of `i`.
pub fn column_label(i: usize) -> (s: String)
    ensures
        s@ == "column"@ + decimal(i as nat),
{
    let mut label = String::from_str("column");
    let digits = decimal_string(i);
    label.append(digits.as_str());
    label
}

} // verus!
