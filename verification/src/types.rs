//! The JSON-like types that every analysis produces.

use vstd::prelude::*;
use vstd::string::StringExecFns;

use crate::lexical::{has_tag, lemma_whitespace_end, skip_whitespace, tag_at, whitespace_end};

verus! {

/// A JSON-like type.
#[derive(Debug, PartialEq, Eq)]
pub enum Type {
    Any,
    Bool,
    Number,
    String,
    Array(Box<Type>),
    Mapping(Box<Type>),
}

impl Clone for Type {
    fn clone(&self) -> (r: Self)
        ensures
            r == *self,
        decreases self,
    {
        match self {
            Type::Any => Type::Any,
            Type::Bool => Type::Bool,
            Type::Number => Type::Number,
            Type::String => Type::String,
            Type::Array(inner) => Type::Array(Box::new((**inner).clone())),
            Type::Mapping(inner) => Type::Mapping(Box::new((**inner).clone())),
        }
    }
}

impl Type {
    /// Whether this is an array type.
    pub fn _is_array(&self) -> (r: bool)
        ensures
            r == (*self is Array),
    {
        match self {
            Type::Array(_) => true,
            _ => false,
        }
    }

    /// Whether this is a map type.
    pub fn is_map(&self) -> (r: bool)
        ensures
            r == (*self is Mapping),
    {
        match self {
            Type::Mapping(_) => true,
            _ => false,
        }
    }
}


/// `any`
pub const KW_ANY: [u8; 3] = [97u8, 110u8, 121u8];

/// `bool`
pub const KW_BOOL: [u8; 4] = [98u8, 111u8, 111u8, 108u8];

/// `number`
pub const KW_NUMBER: [u8; 6] = [110u8, 117u8, 109u8, 98u8, 101u8, 114u8];

/// `string`
pub const KW_STRING: [u8; 6] = [115u8, 116u8, 114u8, 105u8, 110u8, 103u8];

/// `array`
pub const KW_ARRAY: [u8; 5] = [97u8, 114u8, 114u8, 97u8, 121u8];

/// `map`
pub const KW_MAP: [u8; 3] = [109u8, 97u8, 112u8];

/// `[`
pub const OPEN_BRACKET: [u8; 1] = [91u8];

/// `]`
pub const CLOSE_BRACKET: [u8; 1] = [93u8];

/// `,`
pub const COMMA: [u8; 1] = [44u8];

/// The grammar of types, from position `i`: a keyword, or `array [ T ]`, or
/// `map [ string , T ]` (the map form also takes the blanks after its
/// closing bracket). `comments` tells whether line comments count as blanks.
/// Yields the type and where it ends.
pub open spec fn type_at(s: Seq<u8>, i: int, comments: bool) -> Option<(Type, int)>
    decreases s.len() - i,
{
    if !(0 <= i <= s.len()) {
        None
    } else if has_tag(s, i, KW_ANY@) {
        Some((Type::Any, i + 3))
    } else if has_tag(s, i, KW_BOOL@) {
        Some((Type::Bool, i + 4))
    } else if has_tag(s, i, KW_NUMBER@) {
        Some((Type::Number, i + 6))
    } else if has_tag(s, i, KW_STRING@) {
        Some((Type::String, i + 6))
    } else if has_tag(s, i, KW_ARRAY@) {
        let j = whitespace_end(s, i + 5, comments);
        proof {
            lemma_whitespace_end(s, i + 5, comments);
        }
        if has_tag(s, j, OPEN_BRACKET@) {
            let k = whitespace_end(s, j + 1, comments);
            proof {
                lemma_whitespace_end(s, j + 1, comments);
            }
            match type_at(s, k, comments) {
                Some((t, m)) => {
                    let n = whitespace_end(s, m, comments);
                    if has_tag(s, n, CLOSE_BRACKET@) {
                        Some((Type::Array(Box::new(t)), n + 1))
                    } else {
                        None
                    }
                },
                None => None,
            }
        } else {
            None
        }
    } else if has_tag(s, i, KW_MAP@) {
        let j = whitespace_end(s, i + 3, comments);
        proof {
            lemma_whitespace_end(s, i + 3, comments);
        }
        if has_tag(s, j, OPEN_BRACKET@) {
            let k = whitespace_end(s, j + 1, comments);
            if has_tag(s, k, KW_STRING@) {
                let l = whitespace_end(s, k + 6, comments);
                if has_tag(s, l, COMMA@) {
                    let p = whitespace_end(s, l + 1, comments);
                    proof {
                        lemma_whitespace_end(s, j + 1, comments);
                        lemma_whitespace_end(s, k + 6, comments);
                        lemma_whitespace_end(s, l + 1, comments);
                    }
                    match type_at(s, p, comments) {
                        Some((t, m)) => {
                            let n = whitespace_end(s, m, comments);
                            if has_tag(s, n, CLOSE_BRACKET@) {
                                Some((Type::Mapping(Box::new(t)), whitespace_end(s, n + 1, comments)))
                            } else {
                                None
                            }
                        },
                        None => None,
                    }
                } else {
                    None
                }
            } else {
                None
            }
        } else {
            None
        }
    } else {
        None
    }
}

pub proof fn lemma_type_at(s: Seq<u8>, i: int, comments: bool)
    ensures
        type_at(s, i, comments) matches Some((_, e)) ==> 0 <= i < e <= s.len(),
    decreases s.len() - i,
{
    if 0 <= i <= s.len() && !has_tag(s, i, KW_ANY@) && !has_tag(s, i, KW_BOOL@) && !has_tag(
        s,
        i,
        KW_NUMBER@,
    ) && !has_tag(s, i, KW_STRING@) {
        if has_tag(s, i, KW_ARRAY@) {
            lemma_whitespace_end(s, i + 5, comments);
            let j = whitespace_end(s, i + 5, comments);
            if has_tag(s, j, OPEN_BRACKET@) {
                lemma_whitespace_end(s, j + 1, comments);
                let k = whitespace_end(s, j + 1, comments);
                lemma_type_at(s, k, comments);
                if let Some((_, m)) = type_at(s, k, comments) {
                    lemma_whitespace_end(s, m, comments);
                }
            }
        } else if has_tag(s, i, KW_MAP@) {
            lemma_whitespace_end(s, i + 3, comments);
            let j = whitespace_end(s, i + 3, comments);
            if has_tag(s, j, OPEN_BRACKET@) {
                lemma_whitespace_end(s, j + 1, comments);
                let k = whitespace_end(s, j + 1, comments);
                if has_tag(s, k, KW_STRING@) {
                    lemma_whitespace_end(s, k + 6, comments);
                    let l = whitespace_end(s, k + 6, comments);
                    if has_tag(s, l, COMMA@) {
                        lemma_whitespace_end(s, l + 1, comments);
                        let p = whitespace_end(s, l + 1, comments);
                        lemma_type_at(s, p, comments);
                        if let Some((_, m)) = type_at(s, p, comments) {
                            lemma_whitespace_end(s, m, comments);
                            let n = whitespace_end(s, m, comments);
                            if has_tag(s, n, CLOSE_BRACKET@) {
                                lemma_whitespace_end(s, n + 1, comments);
                            }
                        }
                    }
                }
            }
        }
    }
}

/// Parses a type at position `i` of `s`; yields the type and where it ends.
pub fn type_from(s: &[u8], i: usize, comments: bool) -> (r: Option<(Type, usize)>)
    requires
        i <= s@.len(),
    ensures
        r is Some <==> type_at(s@, i as int, comments) is Some,
        r matches Some((t, e)) ==> type_at(s@, i as int, comments) == Some((t, e as int)),
    decreases s@.len() - i,
{
    proof {
        lemma_type_at(s@, i as int, comments);
    }
    let _len = s.len();
    if tag_at(s, i, &KW_ANY) {
        Some((Type::Any, i + 3))
    } else if tag_at(s, i, &KW_BOOL) {
        Some((Type::Bool, i + 4))
    } else if tag_at(s, i, &KW_NUMBER) {
        Some((Type::Number, i + 6))
    } else if tag_at(s, i, &KW_STRING) {
        Some((Type::String, i + 6))
    } else if tag_at(s, i, &KW_ARRAY) {
        let j = skip_whitespace(s, i + 5, comments);
        if !tag_at(s, j, &OPEN_BRACKET) {
            return None;
        }
        let k = skip_whitespace(s, j + 1, comments);
        match type_from(s, k, comments) {
            Some((t, m)) => {
                proof {
                    lemma_type_at(s@, k as int, comments);
                }
                let n = skip_whitespace(s, m, comments);
                if tag_at(s, n, &CLOSE_BRACKET) {
                    Some((Type::Array(Box::new(t)), n + 1))
                } else {
                    None
                }
            },
            None => None,
        }
    } else if tag_at(s, i, &KW_MAP) {
        let j = skip_whitespace(s, i + 3, comments);
        if !tag_at(s, j, &OPEN_BRACKET) {
            return None;
        }
        let k = skip_whitespace(s, j + 1, comments);
        if !tag_at(s, k, &KW_STRING) {
            return None;
        }
        let l = skip_whitespace(s, k + 6, comments);
        if !tag_at(s, l, &COMMA) {
            return None;
        }
        let p = skip_whitespace(s, l + 1, comments);
        match type_from(s, p, comments) {
            Some((t, m)) => {
                proof {
                    lemma_type_at(s@, p as int, comments);
                }
                let n = skip_whitespace(s, m, comments);
                if tag_at(s, n, &CLOSE_BRACKET) {
                    let e = skip_whitespace(s, n + 1, comments);
                    Some((Type::Mapping(Box::new(t)), e))
                } else {
                    None
                }
            },
            None => None,
        }
    } else {
        None
    }
}

/// The type grammar, with only blanks (no comments) between tokens.
pub fn parse_type(i: &[u8]) -> (r: Option<(&[u8], Type)>)
    ensures
        r is Some <==> type_at(i@, 0, false) is Some,
        r matches Some((rest, t)) ==> type_at(i@, 0, false) matches Some((t2, e)) && t == t2
            && rest@ == i@.skip(e),
{
    match type_from(i, 0, false) {
        Some((t, e)) => {
            proof {
                lemma_type_at(i@, 0, false);
            }
            Some((&i[e..i.len()], t))
        },
        None => None,
    }
}

/// A whole text that is one type, blanks after it allowed.
pub open spec fn full_type(s: Seq<u8>) -> Option<Type> {
    match type_at(s, 0, false) {
        Some((t, e)) => if whitespace_end(s, e, false) == s.len() {
            Some(t)
        } else {
            None
        },
        None => None,
    }
}

/// How a type is written.
pub open spec fn type_chars(t: Type) -> Seq<char>
    decreases t,
{
    match t {
        Type::Any => "any"@,
        Type::Bool => "bool"@,
        Type::Number => "number"@,
        Type::String => "string"@,
        Type::Array(inner) => "array["@ + type_chars(*inner) + "]"@,
        Type::Mapping(inner) => "map[string, "@ + type_chars(*inner) + "]"@,
    }
}

impl Type {
    /// Parses a whole text as one type (blanks after it allowed).
    pub fn from_bytes(s: &[u8]) -> (r: Option<Type>)
        ensures
            r == full_type(s@),
    {
        match type_from(s, 0, false) {
            Some((t, e)) => {
                proof {
                    lemma_type_at(s@, 0, false);
                }
                if skip_whitespace(s, e, false) == s.len() {
                    Some(t)
                } else {
                    None
                }
            },
            None => None,
        }
    }

    /// How this type is written: `any`, `bool`, `number`, `string`,
    /// `array[T]` or `map[string, T]`.
    pub fn to_string(&self) -> (r: String)
        ensures
            r@ == type_chars(*self),
        decreases self,
    {
        match self {
            Type::Any => String::from_str("any"),
            Type::Bool => String::from_str("bool"),
            Type::Number => String::from_str("number"),
            Type::String => String::from_str("string"),
            Type::Array(inner) => {
                let mut r = String::from_str("array[");
                let inner_str = (**inner).to_string();
                r.append(inner_str.as_str());
                r.append("]");
                r
            },
            Type::Mapping(inner) => {
                let mut r = String::from_str("map[string, ");
                let inner_str = (**inner).to_string();
                r.append(inner_str.as_str());
                r.append("]");
                r
            },
        }
    }
}


/// The bytes of how a type is written.
pub open spec fn type_bytes(t: Type) -> Seq<u8>
    decreases t,
{
    match t {
        Type::Any => KW_ANY@,
        Type::Bool => KW_BOOL@,
        Type::Number => KW_NUMBER@,
        Type::String => KW_STRING@,
        Type::Array(inner) => KW_ARRAY@ + OPEN_BRACKET@ + type_bytes(*inner) + CLOSE_BRACKET@,
        Type::Mapping(inner) => KW_MAP@ + OPEN_BRACKET@ + KW_STRING@ + COMMA@ + seq![32u8]
            + type_bytes(*inner) + CLOSE_BRACKET@,
    }
}

proof fn lemma_type_chars_ascii(t: Type)
    ensures
        vstd::utf8::is_ascii_chars(type_chars(t)),
        type_chars(t).len() == type_bytes(t).len(),
        forall|k: int| 0 <= k < type_bytes(t).len() ==> #[trigger] type_chars(t)[k] as u8 == type_bytes(t)[k],
    decreases t,
{
    reveal_strlit("any");
    reveal_strlit("bool");
    reveal_strlit("number");
    reveal_strlit("string");
    reveal_strlit("array[");
    reveal_strlit("map[string, ");
    reveal_strlit("]");
    match t {
        Type::Array(inner) => {
            lemma_type_chars_ascii(*inner);
            let c = type_chars(*inner);
            let b = type_bytes(*inner);
            assert(type_chars(t) =~= "array["@ + c + "]"@);
            assert(type_bytes(t) =~= KW_ARRAY@ + OPEN_BRACKET@ + b + CLOSE_BRACKET@);
            assert forall|k: int| 0 <= k < type_chars(t).len() implies '\0' <= #[trigger] type_chars(t)[k] <= '\u{7f}' by {
                if 6 <= k < 6 + c.len() {
                    assert(type_chars(t)[k] == c[k - 6]);
                }
            }
            assert forall|k: int| 0 <= k < type_bytes(t).len() implies #[trigger] type_chars(t)[k] as u8 == type_bytes(t)[k] by {
                if 6 <= k < 6 + c.len() {
                    assert(type_chars(t)[k] == c[k - 6]);
                    assert(type_bytes(t)[k] == b[k - 6]);
                }
            }
        },
        Type::Mapping(inner) => {
            lemma_type_chars_ascii(*inner);
            let c = type_chars(*inner);
            let b = type_bytes(*inner);
            assert(type_chars(t) =~= "map[string, "@ + c + "]"@);
            assert(type_bytes(t) =~= KW_MAP@ + OPEN_BRACKET@ + KW_STRING@ + COMMA@ + seq![32u8] + b + CLOSE_BRACKET@);
            assert forall|k: int| 0 <= k < type_chars(t).len() implies '\0' <= #[trigger] type_chars(t)[k] <= '\u{7f}' by {
                if 12 <= k < 12 + c.len() {
                    assert(type_chars(t)[k] == c[k - 12]);
                }
            }
            assert forall|k: int| 0 <= k < type_bytes(t).len() implies #[trigger] type_chars(t)[k] as u8 == type_bytes(t)[k] by {
                if 12 <= k < 12 + c.len() {
                    assert(type_chars(t)[k] == c[k - 12]);
                    assert(type_bytes(t)[k] == b[k - 12]);
                }
            }
        },
        _ => {},
    }
}

/// The UTF-8 bytes of how a type is written are `type_bytes`.
pub proof fn lemma_type_encoding(t: Type)
    ensures
        vstd::utf8::encode_utf8(type_chars(t)) == type_bytes(t),
{
    lemma_type_chars_ascii(t);
    vstd::utf8::is_ascii_chars_encode_utf8(type_chars(t));
    assert(vstd::utf8::encode_utf8(type_chars(t)) =~= type_bytes(t));
}

proof fn lemma_tag_byte(s: Seq<u8>, i: int, t: Seq<u8>, k: int)
    requires
        has_tag(s, i, t),
        0 <= k < t.len(),
    ensures
        s[i + k] == t[k],
{
}

proof fn lemma_tag_split(s: Seq<u8>, i: int, a: Seq<u8>, b: Seq<u8>)
    requires
        has_tag(s, i, a + b),
    ensures
        has_tag(s, i, a),
        has_tag(s, i + a.len(), b),
{
    assert forall|k: int| 0 <= k < a.len() implies #[trigger] s[i + k] == a[k] by {
        lemma_tag_byte(s, i, a + b, k);
    }
    assert forall|k: int| 0 <= k < b.len() implies #[trigger] s[i + a.len() + k] == b[k] by {
        lemma_tag_byte(s, i, a + b, a.len() + k);
        assert(i + a.len() + k == i + (a.len() + k));
    }
}

proof fn lemma_not_tag(s: Seq<u8>, i: int, t: Seq<u8>, k: int)
    requires
        0 <= k < t.len(),
        s[i + k] != t[k],
    ensures
        !has_tag(s, i, t),
{
}

proof fn lemma_whitespace_stop(s: Seq<u8>, p: int, comments: bool)
    requires
        0 <= p <= s.len(),
        p == s.len() || (!crate::lexical::is_multispace(s[p]) && s[p] != 47),
    ensures
        whitespace_end(s, p, comments) == p,
{
    if p < s.len() {
        assert(!has_tag(s, p, crate::lexical::COMMENT_START@)) by {
            lemma_not_tag(s, p, crate::lexical::COMMENT_START@, 0);
        }
    }
}

proof fn lemma_type_bytes_start(t: Type)
    ensures
        type_bytes(t).len() > 0,
        type_bytes(t)[0] == 97 || type_bytes(t)[0] == 98 || type_bytes(t)[0] == 110
            || type_bytes(t)[0] == 115 || type_bytes(t)[0] == 109,
{
}

/// Reading back what `type_bytes` writes, followed by a closing bracket or by
/// nothing, gives the type back and stops right after it.
proof fn lemma_parse_type_bytes(s: Seq<u8>, i: int, t: Type, comments: bool)
    requires
        0 <= i,
        has_tag(s, i, type_bytes(t)),
        i + type_bytes(t).len() == s.len() || s[i + type_bytes(t).len()] == 93,
    ensures
        type_at(s, i, comments) == Some((t, i + type_bytes(t).len())),
    decreases t,
{
    let len = type_bytes(t).len();
    match t {
        Type::Any => {},
        Type::Bool => {
            lemma_tag_byte(s, i, KW_BOOL@, 0);
            lemma_not_tag(s, i, KW_ANY@, 0);
        },
        Type::Number => {
            lemma_tag_byte(s, i, KW_NUMBER@, 0);
            lemma_not_tag(s, i, KW_ANY@, 0);
            lemma_not_tag(s, i, KW_BOOL@, 0);
        },
        Type::String => {
            lemma_tag_byte(s, i, KW_STRING@, 0);
            lemma_not_tag(s, i, KW_ANY@, 0);
            lemma_not_tag(s, i, KW_BOOL@, 0);
            lemma_not_tag(s, i, KW_NUMBER@, 0);
        },
        Type::Array(inner) => {
            let b = type_bytes(*inner);
            let ib = b.len();
            assert(type_bytes(t) == KW_ARRAY@ + OPEN_BRACKET@ + b + CLOSE_BRACKET@);
            lemma_tag_split(s, i, KW_ARRAY@ + OPEN_BRACKET@ + b, CLOSE_BRACKET@);
            lemma_tag_split(s, i, KW_ARRAY@ + OPEN_BRACKET@, b);
            lemma_tag_split(s, i, KW_ARRAY@, OPEN_BRACKET@);
            lemma_tag_byte(s, i, KW_ARRAY@, 0);
            lemma_tag_byte(s, i, KW_ARRAY@, 1);
            lemma_not_tag(s, i, KW_ANY@, 1);
            lemma_not_tag(s, i, KW_BOOL@, 0);
            lemma_not_tag(s, i, KW_NUMBER@, 0);
            lemma_not_tag(s, i, KW_STRING@, 0);
            lemma_tag_byte(s, i + 5, OPEN_BRACKET@, 0);
            lemma_whitespace_stop(s, i + 5, comments);
            lemma_type_bytes_start(*inner);
            lemma_tag_byte(s, i + 6, b, 0);
            lemma_whitespace_stop(s, i + 6, comments);
            lemma_parse_type_bytes(s, i + 6, *inner, comments);
            lemma_tag_byte(s, i + 6 + ib, CLOSE_BRACKET@, 0);
            lemma_whitespace_stop(s, i + 6 + ib, comments);
        },
        Type::Mapping(inner) => {
            let b = type_bytes(*inner);
            let ib = b.len();
            let head = KW_MAP@ + OPEN_BRACKET@ + KW_STRING@ + COMMA@ + seq![32u8];
            assert(type_bytes(t) == head + b + CLOSE_BRACKET@);
            lemma_tag_split(s, i, head + b, CLOSE_BRACKET@);
            lemma_tag_split(s, i, head, b);
            lemma_tag_split(s, i, KW_MAP@ + OPEN_BRACKET@ + KW_STRING@ + COMMA@, seq![32u8]);
            lemma_tag_split(s, i, KW_MAP@ + OPEN_BRACKET@ + KW_STRING@, COMMA@);
            lemma_tag_split(s, i, KW_MAP@ + OPEN_BRACKET@, KW_STRING@);
            lemma_tag_split(s, i, KW_MAP@, OPEN_BRACKET@);
            lemma_tag_byte(s, i, KW_MAP@, 0);
            lemma_not_tag(s, i, KW_ANY@, 0);
            lemma_not_tag(s, i, KW_BOOL@, 0);
            lemma_not_tag(s, i, KW_NUMBER@, 0);
            lemma_not_tag(s, i, KW_STRING@, 0);
            lemma_not_tag(s, i, KW_ARRAY@, 0);
            lemma_tag_byte(s, i + 3, OPEN_BRACKET@, 0);
            lemma_whitespace_stop(s, i + 3, comments);
            lemma_tag_byte(s, i + 4, KW_STRING@, 0);
            lemma_whitespace_stop(s, i + 4, comments);
            lemma_tag_byte(s, i + 10, COMMA@, 0);
            lemma_whitespace_stop(s, i + 10, comments);
            lemma_tag_byte(s, i + 11, seq![32u8], 0);
            lemma_type_bytes_start(*inner);
            lemma_tag_byte(s, i + 12, b, 0);
            lemma_whitespace_stop(s, i + 12, comments);
            assert(whitespace_end(s, i + 11, comments) == whitespace_end(s, i + 12, comments));
            lemma_parse_type_bytes(s, i + 12, *inner, comments);
            lemma_tag_byte(s, i + 12 + ib, CLOSE_BRACKET@, 0);
            lemma_whitespace_stop(s, i + 12 + ib, comments);
            lemma_whitespace_stop(s, i + len, comments);
        },
    }
}

/// Parsing what `to_string` writes gives the same type back.
pub proof fn lemma_type_display_roundtrip(t: Type)
    ensures
        full_type(vstd::utf8::encode_utf8(type_chars(t))) == Some(t),
{
    lemma_type_encoding(t);
    let s = type_bytes(t);
    lemma_parse_type_bytes(s, 0, t, false);
    lemma_whitespace_stop(s, s.len() as int, false);
}

} // verus!
