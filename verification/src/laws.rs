//! The laws the parser obeys, stated and proved.
//!
//! The central law is the round trip: serializing a well-formed value model
//! in standard JSON syntax — quoted keys, no trailing commas — and parsing
//! the result gives back exactly the value, with the whole document
//! consumed.  A second law pins the unquoted-key extension: a run of
//! characters free of whitespace and colons parses as a key verbatim.

use vstd::prelude::*;
use crate::chars::is_json_ws;
use crate::chars::is_digit_char;
use crate::chars::is_number_char;
use crate::chars::is_escape_code;
use crate::chars::unescape;
use crate::chars::valid_number;
use crate::chars::exp_idx;
use crate::chars::dot_idx;
use crate::chars::lemma_exp_idx;
use crate::chars::lemma_dot_idx;
use crate::grammar::ws_end;
use crate::grammar::string_rest;
use crate::grammar::parse_key_at;
use crate::grammar::parse_value_at;
use crate::grammar::parse_items_at;
use crate::grammar::parse_elems_at;
use crate::grammar::spec_parse_json;
use crate::grammar::lemma_num_end_is;
use crate::grammar::lemma_key_end_is;
use crate::value::Json;
use crate::value::JsonError;

verus! {

broadcast use vstd::seq::axiom_seq_index_decreases, vstd::seq::axiom_seq_subrange_decreases;

/// The serialized form of one string character: the seven characters with
/// escape codes are escaped, everything else stands for itself.
pub open spec fn esc_char(c: char) -> Seq<char> {
    if c == '"' {
        seq!['\\', '"']
    } else if c == '\\' {
        seq!['\\', '\\']
    } else if c == '\u{8}' {
        seq!['\\', 'b']
    } else if c == '\u{c}' {
        seq!['\\', 'f']
    } else if c == '\n' {
        seq!['\\', 'n']
    } else if c == '\r' {
        seq!['\\', 'r']
    } else if c == '\t' {
        seq!['\\', 't']
    } else {
        seq![c]
    }
}

/// The serialized body of a string.
pub open spec fn esc_string(cs: Seq<char>) -> Seq<char>
    decreases cs.len(),
{
    if cs.len() == 0 {
        Seq::empty()
    } else {
        esc_char(cs[0]) + esc_string(cs.skip(1))
    }
}

/// A quoted, escaped string.
pub open spec fn quote_text(cs: Seq<char>) -> Seq<char> {
    seq!['"'] + esc_string(cs) + seq!['"']
}

/// The standard serialized form of a value model: quoted keys, no
/// whitespace, no trailing commas.
pub open spec fn ser(m: Json) -> Seq<char>
    decreases m,
{
    match m {
        Json::Object(ps) => seq!['{'] + ser_pairs(ps) + seq!['}'],
        Json::Array(es) => seq!['['] + ser_elems(es) + seq![']'],
        Json::String(cs) => quote_text(cs),
        Json::Number(lit) => lit,
        Json::Bool(b) => if b {
            seq!['t', 'r', 'u', 'e']
        } else {
            seq!['f', 'a', 'l', 's', 'e']
        },
        Json::Null => seq!['n', 'u', 'l', 'l'],
    }
}

/// The serialized members of an object, comma-separated.
pub open spec fn ser_pairs(ps: Seq<(Seq<char>, Json)>) -> Seq<char>
    decreases ps,
{
    if ps.len() == 0 {
        Seq::empty()
    } else if ps.len() == 1 {
        quote_text(ps[0].0) + seq![':'] + ser(ps[0].1)
    } else {
        quote_text(ps[0].0) + seq![':'] + ser(ps[0].1) + seq![','] + ser_pairs(ps.skip(1))
    }
}

/// The serialized elements of an array, comma-separated.
pub open spec fn ser_elems(es: Seq<Json>) -> Seq<char>
    decreases es,
{
    if es.len() == 0 {
        Seq::empty()
    } else if es.len() == 1 {
        ser(es[0])
    } else {
        ser(es[0]) + seq![','] + ser_elems(es.skip(1))
    }
}

/// A well-formed value model: every numeric literal in it is well-formed.
pub open spec fn wf_json(m: Json) -> bool
    decreases m,
{
    match m {
        Json::Number(lit) => valid_number(lit),
        Json::Array(es) => forall|k: int| 0 <= k < es.len() ==> wf_json(#[trigger] es[k]),
        Json::Object(ps) => forall|k: int| 0 <= k < ps.len() ==> wf_json(#[trigger] ps[k].1),
        _ => true,
    }
}

/// Every character of a well-formed numeric literal is a number
/// character, and the literal is not empty.
proof fn lemma_valid_number_chars(s: Seq<char>)
    requires
        valid_number(s),
    ensures
        s.len() > 0,
        forall|k: int| 0 <= k < s.len() ==> is_number_char(#[trigger] s[k]),
{
    let n = s.len() as int;
    let b = if n > 0 && (s[0] == '+' || s[0] == '-') {
        1int
    } else {
        0int
    };
    lemma_exp_idx(s, b);
    let ke = exp_idx(s, b);
    lemma_dot_idx(s, b, ke);
    let kd = dot_idx(s, b, ke);
    assert forall|k: int| 0 <= k < s.len() implies is_number_char(#[trigger] s[k]) by {
        if k == 0 && b == 1 {
        } else if b <= k < kd {
            assert(is_digit_char(s[k]));
        } else if k == kd && kd < ke {
        } else if kd < k < ke {
            assert(is_digit_char(s[k]));
        } else if k == ke && ke < n {
        } else if ke < n {
            let be = if ke + 1 < n && (s[ke + 1] == '+' || s[ke + 1] == '-') {
                ke + 2
            } else {
                ke + 1
            };
            if k < be {
            } else {
                assert(is_digit_char(s[k]));
            }
        }
    }
}

/// Parsing the serialized body of a string, up to its closing quote,
/// appends exactly the string's characters to the accumulator.
proof fn lemma_string_rest_ser(s: Seq<char>, i: int, cs: Seq<char>, acc: Seq<char>)
    requires
        0 <= i,
        i + esc_string(cs).len() + 1 <= s.len(),
        s.subrange(i, i + esc_string(cs).len() as int) == esc_string(cs),
        s[i + esc_string(cs).len()] == '"',
    ensures
        string_rest(s, i, acc) == (Ok::<Seq<char>, JsonError>(acc + cs), i + esc_string(
            cs,
        ).len() + 1),
    decreases cs.len(),
{
    let w = esc_string(cs);
    if cs.len() == 0 {
        assert(acc + cs =~= acc);
    } else {
        let c = cs[0];
        let e0 = esc_char(c);
        let rest = esc_string(cs.skip(1));
        assert(w == e0 + rest);
        assert forall|k: int| 0 <= k < w.len() implies s[i + k] == w[k] by {
            assert(s.subrange(i, i + w.len() as int)[k] == s[i + k]);
        }
        if e0.len() == 2 {
            let x = e0[1];
            assert(e0[0] == '\\');
            assert(s[i + 0] == w[0]);
            assert(s[i + 1] == w[1]);
            assert(w[0] == e0[0]);
            assert(w[1] == e0[1]);
            assert(s[i] == '\\');
            assert(s[i + 1] == x);
            assert(is_escape_code(x) && unescape(x) == c);
            assert(s.subrange(i + 2, i + 2 + rest.len() as int) =~= rest) by {
                assert forall|k: int| 0 <= k < rest.len() implies s.subrange(
                    i + 2,
                    i + 2 + rest.len() as int,
                )[k] == rest[k] by {
                    assert(s[i + 2 + k] == w[2 + k]);
                    assert(w[2 + k] == rest[k]);
                }
            }
            lemma_string_rest_ser(s, i + 2, cs.skip(1), acc.push(c));
            assert(acc.push(c) + cs.skip(1) =~= acc + cs);
        } else {
            assert(e0 == seq![c]);
            assert(s[i + 0] == w[0]);
            assert(w[0] == e0[0]);
            assert(s[i] == c);
            assert(c != '"' && c != '\\');
            assert(s.subrange(i + 1, i + 1 + rest.len() as int) =~= rest) by {
                assert forall|k: int| 0 <= k < rest.len() implies s.subrange(
                    i + 1,
                    i + 1 + rest.len() as int,
                )[k] == rest[k] by {
                    assert(s[i + 1 + k] == w[1 + k]);
                    assert(w[1 + k] == rest[k]);
                }
            }
            lemma_string_rest_ser(s, i + 1, cs.skip(1), acc.push(c));
            assert(acc.push(c) + cs.skip(1) =~= acc + cs);
        }
    }
}

/// Parsing a serialized value embedded in a larger input, at its start
/// position, yields exactly that value and stops at its end.  Where the
/// value is a number, the character after it (if any) must not continue
/// the literal.
proof fn lemma_parse_ser(s: Seq<char>, i: int, m: Json)
    requires
        wf_json(m),
        0 <= i,
        i + ser(m).len() <= s.len(),
        s.subrange(i, i + ser(m).len() as int) == ser(m),
        i + ser(m).len() < s.len() ==> !is_number_char(s[i + ser(m).len()]),
    ensures
        parse_value_at(s, i) == (Ok::<Json, JsonError>(m), i + ser(m).len() as int),
    decreases m,
{
    let w = ser(m);
    assert forall|k: int| 0 <= k < w.len() implies s[i + k] == w[k] by {
        assert(s.subrange(i, i + w.len() as int)[k] == s[i + k]);
    }
    match m {
        Json::Null => {
            assert(s[i + 0] == w[0] && s[i + 1] == w[1] && s[i + 2] == w[2] && s[i + 3] == w[3]);
            assert(s.subrange(i, i + 4) =~= seq!['n', 'u', 'l', 'l']);
        },
        Json::Bool(b) => {
            if b {
                assert(s[i + 0] == w[0] && s[i + 1] == w[1] && s[i + 2] == w[2] && s[i + 3]
                    == w[3]);
                assert(s.subrange(i, i + 4) =~= seq!['t', 'r', 'u', 'e']);
            } else {
                assert(s[i + 0] == w[0] && s[i + 1] == w[1] && s[i + 2] == w[2] && s[i + 3]
                    == w[3] && s[i + 4] == w[4]);
                assert(s.subrange(i, i + 4) =~= seq!['f', 'a', 'l', 's']);
                assert(s[i + 4] == 'e');
            }
        },
        Json::String(cs) => {
            let le = esc_string(cs).len() as int;
            assert(s[i + 0] == w[0]);
            assert(w[0] == '"');
            assert(s.subrange(i + 1, i + 1 + le) =~= esc_string(cs)) by {
                assert forall|k: int| 0 <= k < le implies s.subrange(i + 1, i + 1 + le)[k]
                    == esc_string(cs)[k] by {
                    assert(s[i + 1 + k] == w[1 + k]);
                    assert(w[1 + k] == esc_string(cs)[k]);
                }
            }
            assert(s[i + 1 + le] == w[1 + le]);
            assert(w[1 + le] == '"');
            lemma_string_rest_ser(s, i + 1, cs, Seq::empty());
            assert(Seq::empty() + cs =~= cs);
        },
        Json::Number(lit) => {
            lemma_valid_number_chars(lit);
            assert(s[i + 0] == w[0]);
            assert(is_number_char(s[i]));
            assert forall|k: int| i <= k < i + lit.len() implies is_number_char(s[k]) by {
                assert(s[i + (k - i)] == w[k - i]);
            }
            lemma_num_end_is(s, i, i + lit.len() as int);
            assert(s.subrange(i, i + lit.len() as int) == lit);
        },
        Json::Object(ps) => {
            let sp = ser_pairs(ps);
            assert(s[i + 0] == w[0]);
            assert(w[0] == '{');
            assert(s.subrange(i + 1, i + 1 + sp.len() as int) =~= sp) by {
                assert forall|k: int| 0 <= k < sp.len() implies s.subrange(
                    i + 1,
                    i + 1 + sp.len() as int,
                )[k] == sp[k] by {
                    assert(s[i + 1 + k] == w[1 + k]);
                    assert(w[1 + k] == sp[k]);
                }
            }
            assert(s[i + 1 + sp.len() as int] == w[1 + sp.len() as int]);
            assert(w[1 + sp.len() as int] == '}');
            lemma_parse_ser_pairs(s, i + 1, ps, Seq::empty());
            assert(Seq::empty() + ps =~= ps);
        },
        Json::Array(es) => {
            let se = ser_elems(es);
            assert(s[i + 0] == w[0]);
            assert(w[0] == '[');
            assert(s.subrange(i + 1, i + 1 + se.len() as int) =~= se) by {
                assert forall|k: int| 0 <= k < se.len() implies s.subrange(
                    i + 1,
                    i + 1 + se.len() as int,
                )[k] == se[k] by {
                    assert(s[i + 1 + k] == w[1 + k]);
                    assert(w[1 + k] == se[k]);
                }
            }
            assert(s[i + 1 + se.len() as int] == w[1 + se.len() as int]);
            assert(w[1 + se.len() as int] == ']');
            lemma_parse_ser_elems(s, i + 1, es, Seq::empty());
            assert(Seq::empty() + es =~= es);
        },
    }
}

/// Parsing the serialized members of an object, from just after the brace
/// up to and through the closing brace, appends exactly those members to
/// the accumulator.
proof fn lemma_parse_ser_pairs(
    s: Seq<char>,
    i: int,
    ps: Seq<(Seq<char>, Json)>,
    acc: Seq<(Seq<char>, Json)>,
)
    requires
        forall|k: int| 0 <= k < ps.len() ==> wf_json(#[trigger] ps[k].1),
        0 <= i,
        i + ser_pairs(ps).len() + 1 <= s.len(),
        s.subrange(i, i + ser_pairs(ps).len() as int) == ser_pairs(ps),
        s[i + ser_pairs(ps).len()] == '}',
    ensures
        parse_items_at(s, i, acc) == (Ok::<Json, JsonError>(Json::Object(acc + ps)), i
            + ser_pairs(ps).len() + 1),
    decreases ps,
{
    let w = ser_pairs(ps);
    assert forall|k: int| 0 <= k < w.len() implies s[i + k] == w[k] by {
        assert(s.subrange(i, i + w.len() as int)[k] == s[i + k]);
    }
    if ps.len() == 0 {
        assert(ws_end(s, i) == i);
        assert(acc + ps =~= acc);
    } else {
        let p0 = ps[0];
        assert(wf_json(ps[0].1));
        let q = quote_text(p0.0);
        let le = esc_string(p0.0).len() as int;
        let v0s = ser(p0.1);
        assert(s[i + 0] == w[0]);
        assert(w[0] == q[0]);
        assert(q[0] == '"');
        assert(ws_end(s, i) == i);
        assert(s.subrange(i + 1, i + 1 + le) =~= esc_string(p0.0)) by {
            assert forall|k: int| 0 <= k < le implies s.subrange(i + 1, i + 1 + le)[k]
                == esc_string(p0.0)[k] by {
                assert(s[i + 1 + k] == w[1 + k]);
                assert(w[1 + k] == q[1 + k]);
                assert(q[1 + k] == esc_string(p0.0)[k]);
            }
        }
        assert(s[i + 1 + le] == w[1 + le]);
        assert(w[1 + le] == q[1 + le]);
        assert(q[1 + le] == '"');
        lemma_string_rest_ser(s, i + 1, p0.0, Seq::empty());
        assert(Seq::empty() + p0.0 =~= p0.0);
        let jk = i + q.len() as int;
        assert(parse_key_at(s, i) == (Ok::<Seq<char>, JsonError>(p0.0), jk));
        assert(s[i + q.len() as int] == w[q.len() as int]);
        assert(w[q.len() as int] == ':');
        assert(ws_end(s, jk) == jk);
        let iv = jk + 1;
        lemma_ser_head_not_ws(p0.1);
        assert(s[i + (q.len() + 1) as int] == w[(q.len() + 1) as int]);
        assert(w[(q.len() + 1) as int] == v0s[0]);
        assert(s[iv] == v0s[0]);
        assert(ws_end(s, iv) == iv);
        assert(s.subrange(iv, iv + v0s.len() as int) =~= v0s) by {
            assert forall|k: int| 0 <= k < v0s.len() implies s.subrange(
                iv,
                iv + v0s.len() as int,
            )[k] == v0s[k] by {
                assert(s[i + (q.len() + 1 + k)] == w[q.len() + 1 + k]);
                assert(w[q.len() + 1 + k] == v0s[k]);
            }
        }
        let jv = iv + v0s.len() as int;
        if ps.len() == 1 {
            assert(jv == i + w.len());
            assert(s[jv] == '}');
            lemma_parse_ser(s, iv, p0.1);
            assert(ws_end(s, jv) == jv);
            assert(acc.push(p0) =~= acc + ps);
            assert(parse_items_at(s, i, acc) == (
                Ok::<Json, JsonError>(Json::Object(acc.push((p0.0, p0.1)))),
                jv + 1,
            ));
        } else {
            assert(s[i + (q.len() + 1 + v0s.len() as int)] == w[q.len() + 1 + v0s.len() as int]);
            assert(w[(q.len() + 1 + v0s.len()) as int] == ',');
            assert(s[jv] == ',');
            lemma_parse_ser(s, iv, p0.1);
            assert(ws_end(s, jv) == jv);
            let rest = ser_pairs(ps.skip(1));
            assert(s.subrange(jv + 1, jv + 1 + rest.len() as int) =~= rest) by {
                assert forall|k: int| 0 <= k < rest.len() implies s.subrange(
                    jv + 1,
                    jv + 1 + rest.len() as int,
                )[k] == rest[k] by {
                    assert(s[i + (q.len() + 1 + v0s.len() + 1 + k)] == w[q.len() + 1 + v0s.len()
                        + 1 + k]);
                    assert(w[q.len() + 1 + v0s.len() + 1 + k] == rest[k]);
                }
            }
            assert(jv + 1 + rest.len() == i + w.len());
            assert forall|k: int| 0 <= k < ps.skip(1).len() implies wf_json(
                #[trigger] ps.skip(1)[k].1,
            ) by {
                assert(ps.skip(1)[k] == ps[k + 1]);
            }
            lemma_parse_ser_pairs(s, jv + 1, ps.skip(1), acc.push(p0));
            assert(acc.push(p0) + ps.skip(1) =~= acc + ps);
        }
    }
}

/// Parsing the serialized elements of an array, from just after the
/// bracket up to and through the closing bracket, appends exactly those
/// elements to the accumulator.
proof fn lemma_parse_ser_elems(s: Seq<char>, i: int, es: Seq<Json>, acc: Seq<Json>)
    requires
        forall|k: int| 0 <= k < es.len() ==> wf_json(#[trigger] es[k]),
        0 <= i,
        i + ser_elems(es).len() + 1 <= s.len(),
        s.subrange(i, i + ser_elems(es).len() as int) == ser_elems(es),
        s[i + ser_elems(es).len()] == ']',
    ensures
        parse_elems_at(s, i, acc) == (Ok::<Json, JsonError>(Json::Array(acc + es)), i + ser_elems(
            es,
        ).len() + 1),
    decreases es,
{
    let w = ser_elems(es);
    assert forall|k: int| 0 <= k < w.len() implies s[i + k] == w[k] by {
        assert(s.subrange(i, i + w.len() as int)[k] == s[i + k]);
    }
    if es.len() == 0 {
        assert(ws_end(s, i) == i);
        assert(acc + es =~= acc);
    } else {
        let e0 = es[0];
        assert(wf_json(es[0]));
        let v0s = ser(e0);
        assert(s.subrange(i, i + v0s.len() as int) =~= v0s) by {
            assert forall|k: int| 0 <= k < v0s.len() implies s.subrange(
                i,
                i + v0s.len() as int,
            )[k] == v0s[k] by {
                assert(s[i + k] == w[k]);
                assert(w[k] == v0s[k]);
            }
        }
        let jv = i + v0s.len() as int;
        assert(s[i + 0] == w[0]);
        assert(w[0] == v0s[0]);
        assert(ws_end(s, i) == i) by {
            lemma_ser_head_not_ws(e0);
            assert(s[i] == v0s[0]);
        }
        assert(s[i] != ']') by {
            lemma_ser_head_not_ws(e0);
        }
        if es.len() == 1 {
            assert(jv == i + w.len());
            assert(s[jv] == ']');
            lemma_parse_ser(s, i, e0);
            assert(ws_end(s, jv) == jv);
            assert(acc.push(e0) =~= acc + es);
        } else {
            assert(s[i + v0s.len() as int] == w[v0s.len() as int]);
            assert(w[v0s.len() as int] == ',');
            assert(s[jv] == ',');
            lemma_parse_ser(s, i, e0);
            assert(ws_end(s, jv) == jv);
            let rest = ser_elems(es.skip(1));
            assert(s.subrange(jv + 1, jv + 1 + rest.len() as int) =~= rest) by {
                assert forall|k: int| 0 <= k < rest.len() implies s.subrange(
                    jv + 1,
                    jv + 1 + rest.len() as int,
                )[k] == rest[k] by {
                    assert(s[i + (v0s.len() + 1 + k)] == w[v0s.len() + 1 + k]);
                    assert(w[v0s.len() + 1 + k] == rest[k]);
                }
            }
            assert(jv + 1 + rest.len() == i + w.len());
            assert forall|k: int| 0 <= k < es.skip(1).len() implies wf_json(
                #[trigger] es.skip(1)[k],
            ) by {
                assert(es.skip(1)[k] == es[k + 1]);
            }
            lemma_parse_ser_elems(s, jv + 1, es.skip(1), acc.push(e0));
            assert(acc.push(e0) + es.skip(1) =~= acc + es);
        }
    }
}

/// A serialized value starts with a character that is neither whitespace
/// nor a closing bracket, and its serialization is never empty.
proof fn lemma_ser_head_not_ws(m: Json)
    requires
        wf_json(m),
    ensures
        ser(m).len() > 0,
        !is_json_ws(ser(m)[0]),
        ser(m)[0] != ']',
        ser(m)[0] != '}',
        ser(m)[0] != ',',
{
    match m {
        Json::Number(lit) => {
            lemma_valid_number_chars(lit);
            assert(is_number_char(lit[0]));
        },
        _ => {
        },
    }
}

/// The round trip: parsing the standard serialization of a well-formed
/// value model succeeds, returns exactly that value, and consumes the
/// whole document.
pub proof fn lemma_round_trip(m: Json)
    requires
        wf_json(m),
    ensures
        spec_parse_json(ser(m)) == Ok::<Json, JsonError>(m),
        parse_value_at(ser(m), 0).1 == ser(m).len(),
{
    let s = ser(m);
    assert(s.subrange(0, s.len() as int) =~= s);
    lemma_parse_ser(s, 0, m);
}

/// The unquoted-key extension: where the input holds, at the cursor, a
/// run of characters free of whitespace and colons that does not start
/// with a quote, the key production returns that run verbatim and stops
/// at its end.
pub proof fn lemma_unquoted_key(s: Seq<char>, i: int, j: int)
    requires
        0 <= i <= j <= s.len(),
        i < s.len(),
        s[i] != '"',
        forall|k: int| i <= k < j ==> !is_json_ws(#[trigger] s[k]) && s[k] != ':',
        j < s.len() ==> (is_json_ws(s[j]) || s[j] == ':'),
    ensures
        parse_key_at(s, i) == (Ok::<Seq<char>, JsonError>(s.subrange(i, j)), j),
{
    lemma_key_end_is(s, i, j);
}

} // verus!
