use vstd::prelude::*;
use regex::Regex;

verus! {

/// Name for what the regular expression `\[(\w*)\s*(.+)]` of the `regex` crate
/// captures in `linea` (its leftmost-first match): the texts of its first and
/// second group, or nothing when it does not match.
pub uninterp spec fn captura_campo(linea: Seq<char>) -> Option<(Seq<char>, Seq<char>)>;

/// Name for what `Regex::replace` gives when it removes the leftmost-first
/// match of `^\s*(\d+\.+\s*)?` (the leading whitespace and move number) from
/// `texto`.
pub uninterp spec fn sin_numero_jugada(texto: Seq<char>) -> Seq<char>;

/// Calls `Regex::captures` of the `regex` crate with the pattern
/// `\[(\w*)\s*(.+)]` on `linea`, and hands out the texts of groups 1 and 2.
/// Claimed: the result is the named capture `captura_campo(linea)`, and the
/// second group is not empty (it is `.+`, one character or more).
/// Not stated: what the captures are on a given line, which the crate's
/// Unicode classes `\w` and `\s` decide.
#[verifier::external_body]
pub(crate) fn captura_linea_cabecera(linea: &str) -> (r: Option<(String, String)>)
    ensures
        r matches Some((k, v)) ==> captura_campo(linea@) == Some((k@, v@)) && v@.len() >= 1,
        r is None ==> captura_campo(linea@) is None,
{
    let re = Regex::new(r"\[(\w*)\s*(.+)]").unwrap();
    match re.captures(linea) {
        Some(c) => Some((c[1].to_string(), c[2].to_string())),
        None => None,
    }
}

/// Calls `Regex::replace` of the `regex` crate with the pattern
/// `^\s*(\d+\.+\s*)?` and an empty replacement on `texto`.
/// Claimed: the result is the named `sin_numero_jugada(texto)`, and it is a
/// suffix of `texto` (the pattern is anchored at the start, and `replace`
/// removes the first match only).
/// Not stated: how long the removed prefix is, which the crate's Unicode
/// classes `\s` and `\d` decide.
#[verifier::external_body]
pub(crate) fn quita_numero_jugada(texto: &str) -> (r: String)
    ensures
        r@ == sin_numero_jugada(texto@),
        r@.len() <= texto@.len(),
        r@ == texto@.skip(texto@.len() - r@.len()),
{
    let re = Regex::new(r"^\s*(\d+\.+\s*)?").unwrap();
    re.replace(texto, "").into_owned()
}

} // verus!
