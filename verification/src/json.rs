//! Reading JSON text, as a specification: the meaning of the JSON the
//! report writes.
//!
//! The reader covers the part of JSON the report uses: white space, `true`
//! and `false`, strings with the standard escapes except `\u`, arrays and
//! objects. Every text it accepts is JSON and denotes the value it returns.
use vstd::prelude::*;

verus! {

/// A JSON value: a boolean, a string, an array, or an object as the list of
/// its members in order.
pub enum JsonValue {
    Bool(bool),
    Str(Seq<char>),
    Array(Seq<JsonValue>),
    Object(Seq<(Seq<char>, JsonValue)>),
}

/// JSON's white space: space, line feed, carriage return and tab.
pub open spec fn is_json_space(c: char) -> bool {
    c == ' ' || c == '\n' || c == '\r' || c == '\t'
}

/// The text with its leading JSON white space removed.
pub open spec fn skip_space(s: Seq<char>) -> Seq<char>
    decreases s.len(),
{
    if s.len() > 0 && is_json_space(s[0]) {
        skip_space(s.drop_first())
    } else {
        s
    }
}

/// The character a backslash escape stands for, for the escapes other than
/// `\u`.
pub open spec fn unescape(c: char) -> Option<char> {
    if c == '"' {
        Some('"')
    } else if c == '\\' {
        Some('\\')
    } else if c == '/' {
        Some('/')
    } else if c == 'b' {
        Some('\u{8}')
    } else if c == 'f' {
        Some('\u{c}')
    } else if c == 'n' {
        Some('\n')
    } else if c == 'r' {
        Some('\r')
    } else if c == 't' {
        Some('\t')
    } else {
        None
    }
}

/// Reads the rest of a string after its opening quote: its characters and
/// the text after the closing quote. Control characters must be escaped.
pub open spec fn parse_string_body(s: Seq<char>) -> Option<(Seq<char>, Seq<char>)>
    decreases s.len(),
{
    if s.len() == 0 {
        None
    } else if s[0] == '"' {
        Some((Seq::empty(), s.drop_first()))
    } else if s[0] == '\\' {
        if s.len() < 2 {
            None
        } else {
            match unescape(s[1]) {
                None => None,
                Some(c) => match parse_string_body(s.skip(2)) {
                    None => None,
                    Some(p) => Some((seq![c] + p.0, p.1)),
                },
            }
        }
    } else if (s[0] as u32) < 0x20 {
        None
    } else {
        match parse_string_body(s.drop_first()) {
            None => None,
            Some(p) => Some((seq![s[0]] + p.0, p.1)),
        }
    }
}

/// Reads a string at the start of a text.
pub open spec fn parse_string(s: Seq<char>) -> Option<(Seq<char>, Seq<char>)> {
    if s.len() > 0 && s[0] == '"' {
        parse_string_body(s.drop_first())
    } else {
        None
    }
}

/// The letters of `true`.
pub open spec fn true_text() -> Seq<char> {
    seq!['t', 'r', 'u', 'e']
}

/// The letters of `false`.
pub open spec fn false_text() -> Seq<char> {
    seq!['f', 'a', 'l', 's', 'e']
}

/// Reads a value at the start of a text, arrays and objects nested at most
/// `depth` deep, and gives the text after it.
pub open spec fn parse_value(s: Seq<char>, depth: nat) -> Option<(JsonValue, Seq<char>)>
    decreases depth, s.len(), 0nat,
{
    if s.len() == 0 {
        None
    } else if s[0] == '"' {
        match parse_string(s) {
            None => None,
            Some(p) => Some((JsonValue::Str(p.0), p.1)),
        }
    } else if s.len() >= 4 && s.take(4) == true_text() {
        Some((JsonValue::Bool(true), s.skip(4)))
    } else if s.len() >= 5 && s.take(5) == false_text() {
        Some((JsonValue::Bool(false), s.skip(5)))
    } else if depth == 0 {
        None
    } else if s[0] == '[' {
        let t = skip_space(s.drop_first());
        if t.len() > 0 && t[0] == ']' {
            Some((JsonValue::Array(Seq::empty()), t.drop_first()))
        } else {
            match parse_elements(t, (depth - 1) as nat) {
                None => None,
                Some(p) => Some((JsonValue::Array(p.0), p.1)),
            }
        }
    } else if s[0] == '{' {
        let t = skip_space(s.drop_first());
        if t.len() > 0 && t[0] == '}' {
            Some((JsonValue::Object(Seq::empty()), t.drop_first()))
        } else {
            match parse_members(t, (depth - 1) as nat) {
                None => None,
                Some(p) => Some((JsonValue::Object(p.0), p.1)),
            }
        }
    } else {
        None
    }
}

/// Reads the elements of an array, from its first element to its closing
/// bracket, and gives the text after the bracket.
pub open spec fn parse_elements(s: Seq<char>, depth: nat) -> Option<(Seq<JsonValue>, Seq<char>)>
    decreases depth, s.len(), 1nat,
{
    match parse_value(s, depth) {
        None => None,
        Some(first) => {
            let after = skip_space(first.1);
            if after.len() > 0 && after[0] == ']' {
                Some((seq![first.0], after.drop_first()))
            } else if after.len() > 0 && after[0] == ',' {
                let next = skip_space(after.drop_first());
                // A read always moves forward.
                if next.len() < s.len() {
                    match parse_elements(next, depth) {
                        None => None,
                        Some(rest) => Some((seq![first.0] + rest.0, rest.1)),
                    }
                } else {
                    None
                }
            } else {
                None
            }
        },
    }
}

/// Reads the members of an object, from its first key to its closing brace,
/// and gives the text after the brace.
pub open spec fn parse_members(s: Seq<char>, depth: nat) -> Option<
    (Seq<(Seq<char>, JsonValue)>, Seq<char>),
>
    decreases depth, s.len(), 1nat,
{
    match parse_string(s) {
        None => None,
        Some(key) => {
            let colon = skip_space(key.1);
            if colon.len() > 0 && colon[0] == ':' {
                let value_text = skip_space(colon.drop_first());
                // A read always moves forward.
                if value_text.len() < s.len() {
                    match parse_value(value_text, depth) {
                        None => None,
                        Some(value) => {
                            let after = skip_space(value.1);
                            if after.len() > 0 && after[0] == '}' {
                                Some((seq![(key.0, value.0)], after.drop_first()))
                            } else if after.len() > 0 && after[0] == ',' {
                                let next = skip_space(after.drop_first());
                                if next.len() < s.len() {
                                    match parse_members(next, depth) {
                                        None => None,
                                        Some(rest) => Some(
                                            (seq![(key.0, value.0)] + rest.0, rest.1),
                                        ),
                                    }
                                } else {
                                    None
                                }
                            } else {
                                None
                            }
                        },
                    }
                } else {
                    None
                }
            } else {
                None
            }
        },
    }
}

/// The value a whole JSON text denotes, arrays and objects nested at most
/// `depth` deep, if the text is one value with nothing but white space
/// around it.
pub open spec fn json_document(text: Seq<char>, depth: nat) -> Option<JsonValue> {
    match parse_value(skip_space(text), depth) {
        Some(p) => if skip_space(p.1).len() == 0 {
            Some(p.0)
        } else {
            None
        },
        None => None,
    }
}

/// Skipping white space passes over a run of it.
pub proof fn lemma_skip_space_prefix(spaces: Seq<char>, rest: Seq<char>)
    requires
        forall|i: int| 0 <= i < spaces.len() ==> is_json_space(#[trigger] spaces[i]),
    ensures
        skip_space(spaces + rest) == skip_space(rest),
    decreases spaces.len(),
{
    if spaces.len() > 0 {
        let whole = spaces + rest;
        assert(whole[0] == spaces[0]);
        assert(whole.drop_first() =~= spaces.drop_first() + rest);
        let tail = spaces.drop_first();
        assert forall|i: int| 0 <= i < tail.len() implies is_json_space(#[trigger] tail[i]) by {
            assert(tail[i] == spaces[i + 1]);
        }
        lemma_skip_space_prefix(tail, rest);
    } else {
        assert(spaces + rest =~= rest);
    }
}

} // verus!
