//! vim-surround: which bracket pair or quote a surround char stands for.

use vstd::prelude::*;

use crate::action::Object;

verus! {

/// The `(open, close)` literals a surround char inserts. Every pair wraps
/// tightly; `b` / `B` alias `)` / `}`.
pub open spec fn spec_pair_for(ch: char) -> Option<(Seq<char>, Seq<char>)> {
    if ch == '(' || ch == ')' || ch == 'b' {
        Some(("("@, ")"@))
    } else if ch == '{' || ch == '}' || ch == 'B' {
        Some(("{"@, "}"@))
    } else if ch == '[' || ch == ']' {
        Some(("["@, "]"@))
    } else if ch == '<' || ch == '>' {
        Some(("<"@, ">"@))
    } else if ch == '"' {
        Some(("\""@, "\""@))
    } else if ch == '\'' {
        Some(("'"@, "'"@))
    } else if ch == '`' {
        Some(("`"@, "`"@))
    } else {
        None
    }
}

fn pair(open: &str, close: &str) -> (r: (String, String))
    ensures
        r.0@ == open@,
        r.1@ == close@,
{
    (open.to_string(), close.to_string())
}

/// The literal pair to insert for a surround char.
pub fn pair_for(ch: char) -> (r: Option<(String, String)>)
    ensures
        match spec_pair_for(ch) {
            Some(p) => r matches Some(q) && q.0@ == p.0 && q.1@ == p.1,
            None => r is None,
        },
{
    if ch == '(' || ch == ')' || ch == 'b' {
        Some(pair("(", ")"))
    } else if ch == '{' || ch == '}' || ch == 'B' {
        Some(pair("{", "}"))
    } else if ch == '[' || ch == ']' {
        Some(pair("[", "]"))
    } else if ch == '<' || ch == '>' {
        Some(pair("<", ">"))
    } else if ch == '"' {
        Some(pair("\"", "\""))
    } else if ch == '\'' {
        Some(pair("'", "'"))
    } else if ch == '`' {
        Some(pair("`", "`"))
    } else {
        None
    }
}

/// The text object that finds the existing pair a surround char names;
/// both sides of an asymmetric bracket name the same object.
pub open spec fn spec_object_for(ch: char) -> Option<Object> {
    if ch == '(' || ch == ')' || ch == 'b' {
        Some(Object::Paren)
    } else if ch == '{' || ch == '}' || ch == 'B' {
        Some(Object::Brace)
    } else if ch == '[' || ch == ']' {
        Some(Object::Bracket)
    } else if ch == '<' || ch == '>' {
        Some(Object::AngleBracket)
    } else if ch == '"' {
        Some(Object::DoubleQuote)
    } else if ch == '\'' {
        Some(Object::SingleQuote)
    } else if ch == '`' {
        Some(Object::Backtick)
    } else {
        None
    }
}

/// The text object locating the pair a surround char names.
pub fn object_for(ch: char) -> (r: Option<Object>)
    ensures
        r == spec_object_for(ch),
{
    if ch == '(' || ch == ')' || ch == 'b' {
        Some(Object::Paren)
    } else if ch == '{' || ch == '}' || ch == 'B' {
        Some(Object::Brace)
    } else if ch == '[' || ch == ']' {
        Some(Object::Bracket)
    } else if ch == '<' || ch == '>' {
        Some(Object::AngleBracket)
    } else if ch == '"' {
        Some(Object::DoubleQuote)
    } else if ch == '\'' {
        Some(Object::SingleQuote)
    } else if ch == '`' {
        Some(Object::Backtick)
    } else {
        None
    }
}

/// The pair a surround char inserts is exactly the pair its text object
/// finds: every char that names one names the other.
pub proof fn law_pair_and_object_agree(ch: char)
    ensures
        (spec_pair_for(ch) is Some) == (spec_object_for(ch) is Some),
{
}

} // verus!
