use unicode_segmentation::UnicodeSegmentation;
use vstd::prelude::*;

verus! {

/// The grapheme-cluster segmentation of a character sequence: the extended
/// grapheme clusters, in order. Which clusters a sequence of characters forms
/// is fixed by Unicode's segmentation rules and depends on the characters
/// alone.
pub uninterp spec fn graphemes_of(s: Seq<char>) -> Seq<Seq<char>>;

/// Relies on unicode_segmentation's `UnicodeSegmentation::graphemes` with
/// extended clusters: the returned clusters partition the input string in
/// order, and no cluster is empty.
#[verifier::external_body]
pub(crate) fn split_graphemes(s: &str) -> (r: Vec<String>)
    ensures
        r.deep_view() == graphemes_of(s@),
        r.deep_view().flatten() == s@,
        forall|i: int| 0 <= i < r.deep_view().len() ==> r.deep_view()[i].len() > 0,
{
    s.graphemes(true).map(|g| g.to_string()).collect()
}

/// Relies on std's `String::from` for `char`: the returned string holds
/// exactly that one character.
#[verifier::external_body]
pub(crate) fn char_to_string(c: char) -> (r: String)
    ensures
        r@ == seq![c],
{
    String::from(c)
}

/// A cluster consisting of exactly the one character `c`.
pub open spec fn cluster_is(cl: Seq<char>, c: char) -> bool {
    cl.len() == 1 && cl[0] == c
}

pub(crate) fn cluster_is_char(cl: &String, c: char) -> (r: bool)
    ensures
        r == cluster_is(cl@, c),
{
    cl.as_str().unicode_len() == 1 && cl.as_str().get_char(0) == c
}

pub open spec fn is_ascii_whitespace_char(c: char) -> bool {
    c == ' ' || c == '\t' || c == '\n' || c == '\r' || c == '\u{c}'
}

pub open spec fn is_ascii_punctuation_char(c: char) -> bool {
    (33 <= c as u32 && c as u32 <= 47) || (58 <= c as u32 && c as u32 <= 64) || (91 <= c as u32
        && c as u32 <= 96) || (123 <= c as u32 && c as u32 <= 126)
}

pub open spec fn is_ascii_digit_char(c: char) -> bool {
    48 <= c as u32 && c as u32 <= 57
}

pub open spec fn is_ascii_alphanumeric_char(c: char) -> bool {
    is_ascii_digit_char(c) || (65 <= c as u32 && c as u32 <= 90) || (97 <= c as u32 && c as u32
        <= 122)
}

/// A cluster that counts as a separator for number highlighting: one
/// character, ASCII whitespace or ASCII punctuation.
pub open spec fn sep_cluster(cl: Seq<char>) -> bool {
    cl.len() == 1 && (is_ascii_whitespace_char(cl[0]) || is_ascii_punctuation_char(cl[0]))
}

/// A cluster that ends a word for keyword matching: one character, ASCII
/// whitespace or ASCII punctuation other than underscore.
pub open spec fn boundary_cluster(cl: Seq<char>) -> bool {
    cl.len() == 1 && (is_ascii_whitespace_char(cl[0]) || (is_ascii_punctuation_char(cl[0]) && cl[0]
        != '_'))
}

pub open spec fn digit_cluster(cl: Seq<char>) -> bool {
    cl.len() == 1 && is_ascii_digit_char(cl[0])
}

pub open spec fn alnum_cluster(cl: Seq<char>) -> bool {
    cl.len() == 1 && is_ascii_alphanumeric_char(cl[0])
}

pub(crate) fn is_sep_cluster(cl: &String) -> (r: bool)
    ensures
        r == sep_cluster(cl@),
{
    if cl.as_str().unicode_len() != 1 {
        return false;
    }
    let u = cl.as_str().get_char(0) as u32;
    u == 32 || u == 9 || u == 10 || u == 13 || u == 12 || (33 <= u && u <= 47) || (58 <= u && u
        <= 64) || (91 <= u && u <= 96) || (123 <= u && u <= 126)
}

pub(crate) fn is_boundary_cluster(cl: &String) -> (r: bool)
    ensures
        r == boundary_cluster(cl@),
{
    if cl.as_str().unicode_len() != 1 {
        return false;
    }
    let c = cl.as_str().get_char(0);
    let u = c as u32;
    u == 32 || u == 9 || u == 10 || u == 13 || u == 12 || (((33 <= u && u <= 47) || (58 <= u && u
        <= 64) || (91 <= u && u <= 96) || (123 <= u && u <= 126)) && c != '_')
}

pub(crate) fn is_digit_cluster(cl: &String) -> (r: bool)
    ensures
        r == digit_cluster(cl@),
{
    if cl.as_str().unicode_len() != 1 {
        return false;
    }
    let u = cl.as_str().get_char(0) as u32;
    48 <= u && u <= 57
}

pub(crate) fn is_alnum_cluster(cl: &String) -> (r: bool)
    ensures
        r == alnum_cluster(cl@),
{
    if cl.as_str().unicode_len() != 1 {
        return false;
    }
    let u = cl.as_str().get_char(0) as u32;
    (48 <= u && u <= 57) || (65 <= u && u <= 90) || (97 <= u && u <= 122)
}

} // verus!
