//! The grammar, as mathematics.
//!
//! Each production is a specification function over the input `Seq<char>`
//! and a cursor position.  It returns the parsed model value (or the first
//! structural error) together with the position of the first unconsumed
//! character.  The executable parser is proved to compute exactly these
//! functions.
//!
//! Positions inside the mutually recursive productions run through `clampi`,
//! which keeps them inside `[lo, s.len()]`; along real parses the clamp is
//! the identity, and it lets the recursion's termination measure be read off
//! the definitions alone.

use vstd::prelude::*;
use crate::chars::is_json_ws;
use crate::chars::is_number_char;
use crate::chars::is_escape_code;
use crate::chars::unescape;
use crate::chars::valid_number;
use crate::value::Json;
use crate::value::JsonError;

verus! {

/// `j` clamped into `[lo, s.len()]`.
pub open spec fn clampi(s: Seq<char>, j: int, lo: int) -> int {
    if j < lo {
        lo
    } else if j > s.len() {
        s.len() as int
    } else {
        j
    }
}

/// The end of the whitespace run that starts at `i`.
pub open spec fn ws_end(s: Seq<char>, i: int) -> int
    decreases s.len() - i,
        when 0 <= i <= s.len()
{
    if i < s.len() && is_json_ws(s[i]) {
        ws_end(s, i + 1)
    } else {
        i
    }
}

pub proof fn lemma_ws_end(s: Seq<char>, i: int)
    requires
        0 <= i <= s.len(),
    ensures
        i <= ws_end(s, i) <= s.len(),
        forall|k: int| i <= k < ws_end(s, i) ==> is_json_ws(s[k]),
        ws_end(s, i) < s.len() ==> !is_json_ws(s[ws_end(s, i)]),
    decreases s.len() - i,
{
    if i < s.len() && is_json_ws(s[i]) {
        lemma_ws_end(s, i + 1);
    }
}

/// The string production after its opening quote: characters accumulate
/// into `acc` until an unescaped quote; a backslash introduces one of the
/// eight escape codes.  Exhaustion before a closing quote ends the string
/// with what has accumulated.
pub open spec fn string_rest(s: Seq<char>, i: int, acc: Seq<char>) -> (Result<
    Seq<char>,
    JsonError,
>, int)
    decreases s.len() - i,
        when 0 <= i <= s.len()
{
    if i >= s.len() {
        (Ok(acc), i)
    } else if s[i] == '"' {
        (Ok(acc), i + 1)
    } else if s[i] == '\\' {
        if i + 1 < s.len() {
            if is_escape_code(s[i + 1]) {
                string_rest(s, i + 2, acc.push(unescape(s[i + 1])))
            } else {
                (Err(JsonError::UnexpectedToken), i + 2)
            }
        } else {
            (Err(JsonError::UnexpectedEnd), i + 1)
        }
    } else {
        string_rest(s, i + 1, acc.push(s[i]))
    }
}

pub proof fn lemma_string_rest(s: Seq<char>, i: int, acc: Seq<char>)
    requires
        0 <= i <= s.len(),
    ensures
        i <= string_rest(s, i, acc).1 <= s.len(),
    decreases s.len() - i,
{
    if i >= s.len() {
    } else if s[i] == '"' {
    } else if s[i] == '\\' {
        if i + 1 < s.len() && is_escape_code(s[i + 1]) {
            lemma_string_rest(s, i + 2, acc.push(unescape(s[i + 1])));
        }
    } else {
        lemma_string_rest(s, i + 1, acc.push(s[i]));
    }
}

/// The end of the run of number characters that starts at `i`.
pub open spec fn num_end(s: Seq<char>, i: int) -> int
    decreases s.len() - i,
        when 0 <= i <= s.len()
{
    if i < s.len() && is_number_char(s[i]) {
        num_end(s, i + 1)
    } else {
        i
    }
}

/// A position with the properties of `num_end` is `num_end`.
pub proof fn lemma_num_end_is(s: Seq<char>, i: int, j: int)
    requires
        0 <= i <= j <= s.len(),
        forall|k: int| i <= k < j ==> is_number_char(s[k]),
        j < s.len() ==> !is_number_char(s[j]),
    ensures
        num_end(s, i) == j,
    decreases j - i,
{
    if i < j {
        lemma_num_end_is(s, i + 1, j);
    }
}

/// A position with the properties of `key_end` is `key_end`.
pub proof fn lemma_key_end_is(s: Seq<char>, i: int, j: int)
    requires
        0 <= i <= j <= s.len(),
        forall|k: int| i <= k < j ==> !is_json_ws(s[k]) && s[k] != ':',
        j < s.len() ==> (is_json_ws(s[j]) || s[j] == ':'),
    ensures
        key_end(s, i) == j,
    decreases j - i,
{
    if i < j {
        lemma_key_end_is(s, i + 1, j);
    }
}

/// The number production: accumulate every consecutive number character,
/// then accept the literal if it is well-formed.
pub open spec fn parse_number_at(s: Seq<char>, i: int) -> (Result<Json, JsonError>, int) {
    let j = num_end(s, i);
    let lit = s.subrange(i, j);
    if valid_number(lit) {
        (Ok(Json::Number(lit)), j)
    } else {
        (Err(JsonError::InvalidNumber), j)
    }
}

/// The boolean production: consume four characters (fewer if the input
/// ends), expect `true`, or `fals` followed by one more character `e`.
pub open spec fn parse_bool_at(s: Seq<char>, i: int) -> (Result<Json, JsonError>, int) {
    let j = if i + 4 <= s.len() {
        i + 4
    } else {
        s.len() as int
    };
    let w = s.subrange(i, j);
    if w == seq!['t', 'r', 'u', 'e'] {
        (Ok(Json::Bool(true)), j)
    } else if w == seq!['f', 'a', 'l', 's'] {
        if j < s.len() {
            if s[j] == 'e' {
                (Ok(Json::Bool(false)), j + 1)
            } else {
                (Err(JsonError::UnexpectedToken), j + 1)
            }
        } else {
            (Err(JsonError::UnexpectedToken), j)
        }
    } else {
        (Err(JsonError::UnexpectedToken), j)
    }
}

/// The null production: consume four characters (fewer if the input ends)
/// and expect `null`.
pub open spec fn parse_null_at(s: Seq<char>, i: int) -> (Result<Json, JsonError>, int) {
    let j = if i + 4 <= s.len() {
        i + 4
    } else {
        s.len() as int
    };
    let w = s.subrange(i, j);
    if w == seq!['n', 'u', 'l', 'l'] {
        (Ok(Json::Null), j)
    } else {
        (Err(JsonError::UnexpectedToken), j)
    }
}

/// The end of an unquoted key that starts at `i`: the key runs until
/// whitespace or a colon.
pub open spec fn key_end(s: Seq<char>, i: int) -> int
    decreases s.len() - i,
        when 0 <= i <= s.len()
{
    if i < s.len() && !is_json_ws(s[i]) && s[i] != ':' {
        key_end(s, i + 1)
    } else {
        i
    }
}

pub proof fn lemma_key_end(s: Seq<char>, i: int)
    requires
        0 <= i <= s.len(),
    ensures
        i <= key_end(s, i) <= s.len(),
        forall|k: int| i <= k < key_end(s, i) ==> !is_json_ws(s[k]) && s[k] != ':',
        key_end(s, i) < s.len() ==> (is_json_ws(s[key_end(s, i)]) || s[key_end(s, i)] == ':'),
    decreases s.len() - i,
{
    if i < s.len() && !is_json_ws(s[i]) && s[i] != ':' {
        lemma_key_end(s, i + 1);
    }
}

/// The key production: a quoted key is a standard string; anything else
/// accumulates an unquoted key up to whitespace or a colon.
pub open spec fn parse_key_at(s: Seq<char>, i: int) -> (Result<Seq<char>, JsonError>, int) {
    if i >= s.len() {
        (Err(JsonError::UnexpectedEnd), i)
    } else if s[i] == '"' {
        string_rest(s, i + 1, Seq::empty())
    } else {
        let j = key_end(s, i);
        (Ok(s.subrange(i, j)), j)
    }
}

pub proof fn lemma_parse_key_at(s: Seq<char>, i: int)
    requires
        0 <= i <= s.len(),
    ensures
        i <= parse_key_at(s, i).1 <= s.len(),
{
    if i >= s.len() {
    } else if s[i] == '"' {
        lemma_string_rest(s, i + 1, Seq::empty());
    } else {
        lemma_key_end(s, i);
    }
}

/// The value dispatcher: peek one character and choose the production.
pub open spec fn parse_value_at(s: Seq<char>, i: int) -> (Result<Json, JsonError>, int)
    decreases s.len() - i, 3int,
        when 0 <= i <= s.len()
{
    if i >= s.len() {
        (Err(JsonError::UnexpectedEnd), i)
    } else if s[i] == '{' {
        parse_items_at(s, i + 1, Seq::empty())
    } else if s[i] == '[' {
        parse_elems_at(s, i + 1, Seq::empty())
    } else if s[i] == '"' {
        let r = string_rest(s, i + 1, Seq::empty());
        (
            match r.0 {
                Ok(cs) => Ok(Json::String(cs)),
                Err(e) => Err(e),
            },
            r.1,
        )
    } else if s[i] == 't' || s[i] == 'f' {
        parse_bool_at(s, i)
    } else if s[i] == 'n' {
        parse_null_at(s, i)
    } else {
        parse_number_at(s, i)
    }
}

/// The object production after its opening brace: pairs accumulate into
/// `acc` until the closing brace.
pub open spec fn parse_items_at(s: Seq<char>, i: int, acc: Seq<(Seq<char>, Json)>) -> (Result<
    Json,
    JsonError,
>, int)
    decreases s.len() - i, 4int,
        when 0 <= i <= s.len()
{
    let j0 = clampi(s, ws_end(s, i), i);
    if j0 < s.len() && s[j0] == '}' {
        (Ok(Json::Object(acc)), j0 + 1)
    } else {
        let kr = parse_key_at(s, j0);
        let j1 = clampi(s, kr.1, j0);
        match kr.0 {
            Err(e) => (Err(e), kr.1),
            Ok(key) => {
                let j2 = clampi(s, ws_end(s, j1), j1);
                if j2 < s.len() {
                    if s[j2] == ':' {
                        let jw = clampi(s, ws_end(s, j2 + 1), j2 + 1);
                        let vr = parse_value_at(s, jw);
                        match vr.0 {
                            Err(e) => (Err(e), vr.1),
                            Ok(v) => {
                                let j3 = clampi(s, vr.1, jw);
                                let j4 = clampi(s, ws_end(s, j3), j3);
                                if j4 < s.len() {
                                    if s[j4] == ',' {
                                        parse_items_at(s, j4 + 1, acc.push((key, v)))
                                    } else if s[j4] == '}' {
                                        (Ok(Json::Object(acc.push((key, v)))), j4 + 1)
                                    } else {
                                        (Err(JsonError::UnexpectedToken), j4 + 1)
                                    }
                                } else {
                                    (Err(JsonError::UnexpectedToken), j4)
                                }
                            },
                        }
                    } else {
                        (Err(JsonError::UnexpectedToken), j2 + 1)
                    }
                } else {
                    (Err(JsonError::UnexpectedToken), j2)
                }
            },
        }
    }
}

/// The array production after its opening bracket: elements accumulate
/// into `acc` until the closing bracket.
pub open spec fn parse_elems_at(s: Seq<char>, i: int, acc: Seq<Json>) -> (Result<
    Json,
    JsonError,
>, int)
    decreases s.len() - i, 4int,
        when 0 <= i <= s.len()
{
    let j0 = clampi(s, ws_end(s, i), i);
    if j0 < s.len() && s[j0] == ']' {
        (Ok(Json::Array(acc)), j0 + 1)
    } else {
        let vr = parse_value_at(s, j0);
        match vr.0 {
            Err(e) => (Err(e), vr.1),
            Ok(v) => {
                let j1 = clampi(s, vr.1, j0);
                let j2 = clampi(s, ws_end(s, j1), j1);
                if j2 < s.len() {
                    if s[j2] == ',' {
                        parse_elems_at(s, j2 + 1, acc.push(v))
                    } else if s[j2] == ']' {
                        (Ok(Json::Array(acc.push(v))), j2 + 1)
                    } else {
                        (Err(JsonError::UnexpectedToken), j2 + 1)
                    }
                } else {
                    (Err(JsonError::UnexpectedToken), j2)
                }
            },
        }
    }
}

/// What `parse_json` computes: the first complete value of the input,
/// trailing characters ignored.
pub open spec fn spec_parse_json(s: Seq<char>) -> Result<Json, JsonError> {
    parse_value_at(s, 0).0
}

} // verus!
