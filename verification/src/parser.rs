//! The executable parser: a single-pass recursive descent over a peekable
//! character cursor.
//!
//! Every production is proved to compute the corresponding specification
//! function of `grammar` — the same result and the same final cursor
//! position — so `parse_json` returns exactly `spec_parse_json` of its
//! input.

use vstd::prelude::*;
use crate::chars::is_ws_char;
use crate::chars::is_num_char;
use crate::chars::is_valid_number_chars;
use crate::chars::unescape;
use crate::chars::is_escape_code;
use crate::grammar::ws_end;
use crate::grammar::string_rest;
use crate::grammar::num_end;
use crate::grammar::key_end;
use crate::grammar::parse_number_at;
use crate::grammar::parse_bool_at;
use crate::grammar::parse_null_at;
use crate::grammar::parse_key_at;
use crate::grammar::parse_value_at;
use crate::grammar::parse_items_at;
use crate::grammar::parse_elems_at;
use crate::grammar::spec_parse_json;
use crate::grammar::lemma_ws_end;
use crate::grammar::lemma_parse_key_at;
use crate::value::Json;
use crate::value::JsonValue;
use crate::value::JsonError;
use crate::value::pairs_model;
use crate::value::elems_model;

verus! {

/// Relies on `str::chars`: the characters of the slice, in order.
#[verifier::external_body]
fn chars_of(s: &str) -> (v: Vec<char>)
    ensures
        v@ == s@,
{
    s.chars().collect()
}

/// Relies on `FromIterator` for `String`: the characters collect in order.
#[verifier::external_body]
fn string_from_chars(v: &Vec<char>) -> (s: String)
    ensures
        s@ == v@,
{
    v.iter().collect()
}

/// The single-pass, peekable position tracker over the input's characters.
pub struct Cursor {
    pub text: Vec<char>,
    pub pos: usize,
}

impl Cursor {
    /// The cursor position never passes the end of the text.
    pub open spec fn wf(self) -> bool {
        self.pos <= self.text@.len()
    }

    /// A cursor at the start of `text`.
    pub fn new(text: Vec<char>) -> (c: Cursor)
        ensures
            c.wf(),
            c.text@ == text@,
            c.pos == 0,
    {
        Cursor { text, pos: 0 }
    }

    /// The next unconsumed character, if any, without consuming it.
    pub fn peek(&self) -> (r: Option<char>)
        requires
            self.wf(),
        ensures
            self.pos < self.text@.len() ==> r == Some(self.text@[self.pos as int]),
            self.pos >= self.text@.len() ==> r is None,
    {
        if self.pos < self.text.len() {
            Some(self.text[self.pos])
        } else {
            None
        }
    }

    /// Consume and return the next character, if any.
    pub fn next(&mut self) -> (r: Option<char>)
        requires
            old(self).wf(),
        ensures
            final(self).wf(),
            final(self).text@ == old(self).text@,
            old(self).pos < old(self).text@.len() ==> r == Some(
                old(self).text@[old(self).pos as int],
            ) && final(self).pos == old(self).pos + 1,
            old(self).pos >= old(self).text@.len() ==> r is None && final(self).pos == old(
                self,
            ).pos,
    {
        if self.pos < self.text.len() {
            let ch = self.text[self.pos];
            self.pos = self.pos + 1;
            Some(ch)
        } else {
            None
        }
    }
}

/// The model of a production's result.
pub open spec fn res_model(r: Result<JsonValue, JsonError>) -> Result<Json, JsonError> {
    match r {
        Ok(v) => Ok(v.model()),
        Err(e) => Err(e),
    }
}

/// The model of the key production's result.
pub open spec fn key_res_model(r: Result<String, JsonError>) -> Result<Seq<char>, JsonError> {
    match r {
        Ok(k) => Ok(k@),
        Err(e) => Err(e),
    }
}

/// Advance the cursor over any run of whitespace.
#[verifier::loop_isolation(false)]
pub fn consume_whitespace(c: &mut Cursor)
    requires
        old(c).wf(),
    ensures
        final(c).wf(),
        final(c).text@ == old(c).text@,
        old(c).pos <= final(c).pos,
        final(c).pos as int == ws_end(old(c).text@, old(c).pos as int),
{
    let ghost s = c.text@;
    let ghost p0 = c.pos as int;
    loop
        invariant
            c.wf(),
            c.text@ == s,
            p0 <= c.pos as int <= s.len(),
            ws_end(s, p0) == ws_end(s, c.pos as int),
        decreases s.len() - c.pos,
    {
        match c.peek() {
            Some(ch) => {
                if is_ws_char(ch) {
                    c.next();
                } else {
                    return ;
                }
            },
            None => {
                return ;
            },
        }
    }
}

/// The string production: consume the opening quote, then accumulate until
/// an unescaped closing quote, decoding the eight escape codes.
#[verifier::loop_isolation(false)]
pub fn parse_string(c: &mut Cursor) -> (r: Result<JsonValue, JsonError>)
    requires
        old(c).wf(),
        old(c).pos < old(c).text@.len(),
        old(c).text@[old(c).pos as int] == '"',
    ensures
        final(c).wf(),
        final(c).text@ == old(c).text@,
        old(c).pos <= final(c).pos,
        ({
            let sr = string_rest(old(c).text@, old(c).pos + 1, Seq::empty());
            &&& final(c).pos as int == sr.1
            &&& res_model(r) == (match sr.0 {
                Ok(cs) => Ok::<Json, JsonError>(Json::String(cs)),
                Err(e) => Err::<Json, JsonError>(e),
            })
        }),
{
    let ghost s = c.text@;
    let ghost p0 = c.pos + 1int;
    c.next();
    let mut buf: Vec<char> = Vec::new();
    loop
        invariant
            c.wf(),
            c.text@ == s,
            p0 <= c.pos as int <= s.len(),
            string_rest(s, p0, Seq::empty()) == string_rest(s, c.pos as int, buf@),
        decreases s.len() - c.pos,
    {
        match c.peek() {
            None => {
                return Ok(JsonValue::String(string_from_chars(&buf)));
            },
            Some(ch) => {
                if ch == '"' {
                    c.next();
                    return Ok(JsonValue::String(string_from_chars(&buf)));
                } else if ch == '\\' {
                    c.next();
                    match c.next() {
                        None => {
                            return Err(JsonError::UnexpectedEnd);
                        },
                        Some(e) => {
                            let mapped: char = if e == '"' {
                                '"'
                            } else if e == '\\' {
                                '\\'
                            } else if e == '/' {
                                '/'
                            } else if e == 'b' {
                                '\u{8}'
                            } else if e == 'f' {
                                '\u{c}'
                            } else if e == 'n' {
                                '\n'
                            } else if e == 'r' {
                                '\r'
                            } else if e == 't' {
                                '\t'
                            } else {
                                return Err(JsonError::UnexpectedToken);
                            };
                            proof {
                                assert(is_escape_code(e) && mapped == unescape(e));
                            }
                            buf.push(mapped);
                        },
                    }
                } else {
                    buf.push(ch);
                    c.next();
                }
            },
        }
    }
}

/// The number production: accumulate every consecutive number character,
/// then accept the literal if it is well-formed.
#[verifier::loop_isolation(false)]
pub fn parse_number(c: &mut Cursor) -> (r: Result<JsonValue, JsonError>)
    requires
        old(c).wf(),
    ensures
        final(c).wf(),
        final(c).text@ == old(c).text@,
        old(c).pos <= final(c).pos,
        final(c).pos as int == parse_number_at(old(c).text@, old(c).pos as int).1,
        res_model(r) == parse_number_at(old(c).text@, old(c).pos as int).0,
{
    let ghost s = c.text@;
    let ghost p0 = c.pos as int;
    let mut buf: Vec<char> = Vec::new();
    loop
        invariant
            c.wf(),
            c.text@ == s,
            p0 <= c.pos as int <= s.len(),
            buf@ == s.subrange(p0, c.pos as int),
            num_end(s, p0) == num_end(s, c.pos as int),
        decreases s.len() - c.pos,
    {
        match c.peek() {
            Some(ch) => {
                if is_num_char(ch) {
                    buf.push(ch);
                    c.next();
                    proof {
                        assert(buf@ =~= s.subrange(p0, c.pos as int));
                    }
                } else {
                    break ;
                }
            },
            None => {
                break ;
            },
        }
    }
    if is_valid_number_chars(&buf) {
        Ok(JsonValue::Number(string_from_chars(&buf)))
    } else {
        Err(JsonError::InvalidNumber)
    }
}

/// The boolean production: consume four characters and compare with
/// `true`, or with `fals` followed by one more character `e`.
pub fn parse_bool(c: &mut Cursor) -> (r: Result<JsonValue, JsonError>)
    requires
        old(c).wf(),
    ensures
        final(c).wf(),
        final(c).text@ == old(c).text@,
        old(c).pos <= final(c).pos,
        final(c).pos as int == parse_bool_at(old(c).text@, old(c).pos as int).1,
        res_model(r) == parse_bool_at(old(c).text@, old(c).pos as int).0,
{
    let ghost s = c.text@;
    let ghost p0 = c.pos as int;
    let a0 = c.next();
    let a1 = c.next();
    let a2 = c.next();
    let a3 = c.next();
    let ghost j = if p0 + 4 <= s.len() {
        p0 + 4
    } else {
        s.len() as int
    };
    let ghost w = s.subrange(p0, j);
    proof {
        if p0 + 4 <= s.len() {
            assert(w =~= seq![s[p0], s[p0 + 1], s[p0 + 2], s[p0 + 3]]);
        } else {
            assert(w.len() < 4);
            assert(seq!['t', 'r', 'u', 'e'].len() == 4);
            assert(seq!['f', 'a', 'l', 's'].len() == 4);
        }
    }
    if let (Some(c0), Some(c1), Some(c2), Some(c3)) = (a0, a1, a2, a3) {
        if c0 == 't' && c1 == 'r' && c2 == 'u' && c3 == 'e' {
            proof {
                assert(w =~= seq!['t', 'r', 'u', 'e']);
            }
            return Ok(JsonValue::Bool(true));
        }
        if c0 == 'f' && c1 == 'a' && c2 == 'l' && c3 == 's' {
            proof {
                assert(w =~= seq!['f', 'a', 'l', 's']);
            }
            return match c.next() {
                Some(e) => {
                    if e == 'e' {
                        Ok(JsonValue::Bool(false))
                    } else {
                        Err(JsonError::UnexpectedToken)
                    }
                },
                None => Err(JsonError::UnexpectedToken),
            };
        }
        proof {
            if w == seq!['t', 'r', 'u', 'e'] {
                assert(c0 == 't' && c1 == 'r' && c2 == 'u' && c3 == 'e');
            }
            if w == seq!['f', 'a', 'l', 's'] {
                assert(c0 == 'f' && c1 == 'a' && c2 == 'l' && c3 == 's');
            }
        }
        return Err(JsonError::UnexpectedToken);
    } else {
        return Err(JsonError::UnexpectedToken);
    }
}

/// The null production: consume four characters and compare with `null`.
pub fn parse_null(c: &mut Cursor) -> (r: Result<JsonValue, JsonError>)
    requires
        old(c).wf(),
    ensures
        final(c).wf(),
        final(c).text@ == old(c).text@,
        old(c).pos <= final(c).pos,
        final(c).pos as int == parse_null_at(old(c).text@, old(c).pos as int).1,
        res_model(r) == parse_null_at(old(c).text@, old(c).pos as int).0,
{
    let ghost s = c.text@;
    let ghost p0 = c.pos as int;
    let a0 = c.next();
    let a1 = c.next();
    let a2 = c.next();
    let a3 = c.next();
    let ghost j = if p0 + 4 <= s.len() {
        p0 + 4
    } else {
        s.len() as int
    };
    let ghost w = s.subrange(p0, j);
    proof {
        if p0 + 4 <= s.len() {
            assert(w =~= seq![s[p0], s[p0 + 1], s[p0 + 2], s[p0 + 3]]);
        } else {
            assert(w.len() < 4);
            assert(seq!['n', 'u', 'l', 'l'].len() == 4);
        }
    }
    if let (Some(c0), Some(c1), Some(c2), Some(c3)) = (a0, a1, a2, a3) {
        if c0 == 'n' && c1 == 'u' && c2 == 'l' && c3 == 'l' {
            proof {
                assert(w =~= seq!['n', 'u', 'l', 'l']);
            }
            return Ok(JsonValue::Null);
        }
        proof {
            if w == seq!['n', 'u', 'l', 'l'] {
                assert(c0 == 'n' && c1 == 'u' && c2 == 'l' && c3 == 'l');
            }
        }
        return Err(JsonError::UnexpectedToken);
    } else {
        return Err(JsonError::UnexpectedToken);
    }
}

/// The key production: a quoted key is a standard string; anything else
/// accumulates an unquoted key up to whitespace or a colon.
#[verifier::loop_isolation(false)]
pub fn parse_key(c: &mut Cursor) -> (r: Result<String, JsonError>)
    requires
        old(c).wf(),
    ensures
        final(c).wf(),
        final(c).text@ == old(c).text@,
        old(c).pos <= final(c).pos,
        final(c).pos as int == parse_key_at(old(c).text@, old(c).pos as int).1,
        key_res_model(r) == parse_key_at(old(c).text@, old(c).pos as int).0,
{
    let ghost s = c.text@;
    let ghost p0 = c.pos as int;
    match c.peek() {
        None => Err(JsonError::UnexpectedEnd),
        Some(ch) => {
            if ch == '"' {
                match parse_string(c) {
                    Err(e) => Err(e),
                    Ok(v) => match v {
                        JsonValue::String(st) => Ok(st),
                        JsonValue::Object(_) => Err(JsonError::UnexpectedToken),
                        JsonValue::Array(_) => Err(JsonError::UnexpectedToken),
                        JsonValue::Number(_) => Err(JsonError::UnexpectedToken),
                        JsonValue::Bool(_) => Err(JsonError::UnexpectedToken),
                        JsonValue::Null => Err(JsonError::UnexpectedToken),
                    },
                }
            } else {
                let mut buf: Vec<char> = Vec::new();
                loop
                    invariant
                        c.wf(),
                        c.text@ == s,
                        p0 <= c.pos as int <= s.len(),
                        buf@ == s.subrange(p0, c.pos as int),
                        key_end(s, p0) == key_end(s, c.pos as int),
                    decreases s.len() - c.pos,
                {
                    match c.peek() {
                        Some(k) => {
                            if is_ws_char(k) || k == ':' {
                                break ;
                            }
                            buf.push(k);
                            c.next();
                            proof {
                                assert(buf@ =~= s.subrange(p0, c.pos as int));
                            }
                        },
                        None => {
                            break ;
                        },
                    }
                }
                Ok(string_from_chars(&buf))
            }
        },
    }
}

/// The value dispatcher: peek one character and choose the production; an
/// exhausted cursor is `UnexpectedEnd`.
pub fn parse_value(c: &mut Cursor) -> (r: Result<JsonValue, JsonError>)
    requires
        old(c).wf(),
    ensures
        final(c).wf(),
        final(c).text@ == old(c).text@,
        old(c).pos <= final(c).pos,
        final(c).pos as int == parse_value_at(old(c).text@, old(c).pos as int).1,
        res_model(r) == parse_value_at(old(c).text@, old(c).pos as int).0,
    decreases c.text@.len() - c.pos, 3int,
{
    match c.peek() {
        None => Err(JsonError::UnexpectedEnd),
        Some(ch) => {
            if ch == '{' {
                parse_object(c)
            } else if ch == '[' {
                parse_array(c)
            } else if ch == '"' {
                parse_string(c)
            } else if ch == 't' || ch == 'f' {
                parse_bool(c)
            } else if ch == 'n' {
                parse_null(c)
            } else {
                parse_number(c)
            }
        },
    }
}

/// The object production: consume the opening brace, then pairs of key,
/// colon and value separated by commas, until the closing brace.
#[verifier::loop_isolation(false)]
pub fn parse_object(c: &mut Cursor) -> (r: Result<JsonValue, JsonError>)
    requires
        old(c).wf(),
        old(c).pos < old(c).text@.len(),
        old(c).text@[old(c).pos as int] == '{',
    ensures
        final(c).wf(),
        final(c).text@ == old(c).text@,
        old(c).pos <= final(c).pos,
        final(c).pos as int == parse_items_at(old(c).text@, old(c).pos + 1, Seq::empty()).1,
        res_model(r) == parse_items_at(old(c).text@, old(c).pos + 1, Seq::empty()).0,
    decreases c.text@.len() - c.pos, 2int,
{
    let ghost s = c.text@;
    let ghost p0 = c.pos + 1int;
    c.next();
    let mut object: Vec<(String, JsonValue)> = Vec::new();
    proof {
        assert(pairs_model(object@) =~= Seq::<(Seq<char>, Json)>::empty());
    }
    loop
        invariant
            c.wf(),
            c.text@ == s,
            p0 <= c.pos as int <= s.len(),
            parse_items_at(s, p0, Seq::empty()) == parse_items_at(
                s,
                c.pos as int,
                pairs_model(object@),
            ),
        decreases s.len() - c.pos,
    {
        let ghost ptop = c.pos as int;
        let ghost accm = pairs_model(object@);
        consume_whitespace(c);
        proof {
            lemma_ws_end(s, ptop);
        }
        let ghost j0 = c.pos as int;
        let at_close = match c.peek() {
            Some(ch) => ch == '}',
            None => false,
        };
        if at_close {
            c.next();
            return Ok(JsonValue::Object(object));
        }
        let key = match parse_key(c) {
            Ok(k) => k,
            Err(e) => {
                return Err(e);
            },
        };
        proof {
            lemma_parse_key_at(s, j0);
        }
        let ghost j1 = c.pos as int;
        consume_whitespace(c);
        proof {
            lemma_ws_end(s, j1);
        }
        let ghost j2 = c.pos as int;
        match c.next() {
            None => {
                return Err(JsonError::UnexpectedToken);
            },
            Some(ch) => {
                if ch != ':' {
                    return Err(JsonError::UnexpectedToken);
                }
            },
        }
        let ghost jcol = c.pos as int;
        consume_whitespace(c);
        proof {
            lemma_ws_end(s, jcol);
        }
        let value = match parse_value(c) {
            Ok(v) => v,
            Err(e) => {
                return Err(e);
            },
        };
        let ghost j3 = c.pos as int;
        let ghost keysnap = key@;
        let ghost valsnap = value.model();
        object.push((key, value));
        proof {
            assert(pairs_model(object@) =~= accm.push((keysnap, valsnap)));
        }
        consume_whitespace(c);
        proof {
            lemma_ws_end(s, j3);
        }
        match c.next() {
            None => {
                return Err(JsonError::UnexpectedToken);
            },
            Some(ch) => {
                if ch == ',' {
                } else if ch == '}' {
                    return Ok(JsonValue::Object(object));
                } else {
                    return Err(JsonError::UnexpectedToken);
                }
            },
        }
    }
}

/// The array production: consume the opening bracket, then values
/// separated by commas, until the closing bracket.
#[verifier::loop_isolation(false)]
pub fn parse_array(c: &mut Cursor) -> (r: Result<JsonValue, JsonError>)
    requires
        old(c).wf(),
        old(c).pos < old(c).text@.len(),
        old(c).text@[old(c).pos as int] == '[',
    ensures
        final(c).wf(),
        final(c).text@ == old(c).text@,
        old(c).pos <= final(c).pos,
        final(c).pos as int == parse_elems_at(old(c).text@, old(c).pos + 1, Seq::empty()).1,
        res_model(r) == parse_elems_at(old(c).text@, old(c).pos + 1, Seq::empty()).0,
    decreases c.text@.len() - c.pos, 2int,
{
    let ghost s = c.text@;
    let ghost p0 = c.pos + 1int;
    c.next();
    let mut array: Vec<JsonValue> = Vec::new();
    proof {
        assert(elems_model(array@) =~= Seq::<Json>::empty());
    }
    loop
        invariant
            c.wf(),
            c.text@ == s,
            p0 <= c.pos as int <= s.len(),
            parse_elems_at(s, p0, Seq::empty()) == parse_elems_at(
                s,
                c.pos as int,
                elems_model(array@),
            ),
        decreases s.len() - c.pos,
    {
        let ghost ptop = c.pos as int;
        let ghost accm = elems_model(array@);
        consume_whitespace(c);
        proof {
            lemma_ws_end(s, ptop);
        }
        let ghost j0 = c.pos as int;
        let at_close = match c.peek() {
            Some(ch) => ch == ']',
            None => false,
        };
        if at_close {
            c.next();
            return Ok(JsonValue::Array(array));
        }
        let value = match parse_value(c) {
            Ok(v) => v,
            Err(e) => {
                return Err(e);
            },
        };
        let ghost j1 = c.pos as int;
        let ghost valsnap = value.model();
        array.push(value);
        proof {
            assert(elems_model(array@) =~= accm.push(valsnap));
        }
        consume_whitespace(c);
        proof {
            lemma_ws_end(s, j1);
        }
        match c.next() {
            None => {
                return Err(JsonError::UnexpectedToken);
            },
            Some(ch) => {
                if ch == ',' {
                } else if ch == ']' {
                    return Ok(JsonValue::Array(array));
                } else {
                    return Err(JsonError::UnexpectedToken);
                }
            },
        }
    }
}

/// Parse the first complete JSON value of `input`; trailing characters are
/// ignored.  The result is exactly what the grammar specifies, value and
/// error alike.
pub fn parse_json(input: &str) -> (r: Result<JsonValue, JsonError>)
    ensures
        res_model(r) == spec_parse_json(input@),
{
    let text = chars_of(input);
    let mut c = Cursor::new(text);
    parse_value(&mut c)
}

} // verus!
