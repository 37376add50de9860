//! Lexical rules shared by every grammar of the directive language: blanks,
//! line comments, literal tags, quoted strings and identifiers.
//!
//! Every rule works on the UTF-8 bytes of the source text. All delimiters of
//! the language are ASCII, and no byte of a multi-byte UTF-8 character is
//! ASCII, so a rule that stops at a delimiter stops where the same rule over
//! characters would.
use vstd::prelude::*;

verus! {

/// `//`
pub const COMMENT_START: [u8; 2] = [47u8, 47u8];

/// Blank bytes: space, tab, carriage return and line feed.
pub open spec fn is_multispace(b: u8) -> bool {
    b == 32 || b == 9 || b == 13 || b == 10
}

/// `t` occurs in `s` at position `i`.
pub open spec fn has_tag(s: Seq<u8>, i: int, t: Seq<u8>) -> bool {
    &&& 0 <= i
    &&& i + t.len() <= s.len()
    &&& forall|k: int| 0 <= k < t.len() ==> #[trigger] s[i + k] == t[k]
}

/// The first position at or after `i` that holds a line feed, or the end.
pub open spec fn line_end(s: Seq<u8>, i: int) -> int
    decreases s.len() - i,
{
    if 0 <= i < s.len() && s[i] != 10 {
        line_end(s, i + 1)
    } else {
        i
    }
}

/// Where the line comment that starts at `i` ends, if one starts there: two
/// slashes, at least one byte other than a line feed, then a line feed (which
/// the comment takes) or the end of the input.
pub open spec fn comment_end(s: Seq<u8>, i: int) -> Option<int> {
    if has_tag(s, i, COMMENT_START@) && i + 2 < s.len() && s[i + 2] != 10 {
        let k = line_end(s, i + 2);
        if k < s.len() {
            Some(k + 1)
        } else {
            Some(k)
        }
    } else {
        None
    }
}

pub proof fn lemma_line_end(s: Seq<u8>, i: int)
    requires
        0 <= i <= s.len(),
    ensures
        i <= line_end(s, i) <= s.len(),
        line_end(s, i) < s.len() ==> s[line_end(s, i)] == 10,
        forall|k: int| i <= k < line_end(s, i) ==> s[k] != 10,
    decreases s.len() - i,
{
    if i < s.len() && s[i] != 10 {
        lemma_line_end(s, i + 1);
    }
}

pub proof fn lemma_comment_end(s: Seq<u8>, i: int)
    requires
        0 <= i <= s.len(),
    ensures
        comment_end(s, i) matches Some(j) ==> i + 3 <= j <= s.len(),
{
    if has_tag(s, i, COMMENT_START@) && i + 2 < s.len() && s[i + 2] != 10 {
        lemma_line_end(s, i + 2);
    }
}

/// Where the blank run that starts at `i` ends. With `comments`, line
/// comments count as blanks too.
pub open spec fn whitespace_end(s: Seq<u8>, i: int, comments: bool) -> int
    decreases s.len() - i,
{
    if 0 <= i < s.len() && is_multispace(s[i]) {
        whitespace_end(s, i + 1, comments)
    } else if comments && 0 <= i <= s.len() && comment_end(s, i) is Some {
        proof {
            lemma_comment_end(s, i);
        }
        whitespace_end(s, comment_end(s, i)->0, comments)
    } else {
        i
    }
}

pub proof fn lemma_whitespace_end(s: Seq<u8>, i: int, comments: bool)
    requires
        0 <= i <= s.len(),
    ensures
        i <= whitespace_end(s, i, comments) <= s.len(),
    decreases s.len() - i,
{
    if 0 <= i < s.len() && is_multispace(s[i]) {
        lemma_whitespace_end(s, i + 1, comments);
    } else if comments && comment_end(s, i) is Some {
        lemma_comment_end(s, i);
        lemma_whitespace_end(s, comment_end(s, i)->0, comments);
    }
}

/// Whether `t` occurs in `s` at position `i`.
pub fn tag_at(s: &[u8], i: usize, t: &[u8]) -> (r: bool)
    ensures
        r == has_tag(s@, i as int, t@),
{
    if i > s.len() || t.len() > s.len() - i {
        return false;
    }
    let mut k: usize = 0;
    while k < t.len()
        invariant
            i + t@.len() <= s@.len(),
            s@.len() <= usize::MAX,
            k <= t@.len(),
            forall|j: int| 0 <= j < k ==> #[trigger] s@[i + j] == t@[j],
        decreases t.len() - k,
    {
        if s[i + k] != t[k] {
            assert(s@[i + k as int] != t@[k as int]);
            return false;
        }
        k = k + 1;
    }
    true
}

/// The position of the first line feed at or after `i`, or the end.
pub fn find_line_end(s: &[u8], i: usize) -> (r: usize)
    requires
        i <= s@.len(),
    ensures
        r == line_end(s@, i as int),
{
    let mut k = i;
    while k < s.len() && s[k] != 10u8
        invariant
            i <= k <= s@.len(),
            line_end(s@, k as int) == line_end(s@, i as int),
        decreases s.len() - k,
    {
        k = k + 1;
    }
    k
}

/// Where the line comment that starts at `i` ends, if one starts there.
pub fn comment_at(s: &[u8], i: usize) -> (r: Option<usize>)
    requires
        i <= s@.len(),
    ensures
        r == (match comment_end(s@, i as int) {
            Some(j) => Some(j as usize),
            None => None,
        }),
{
    if tag_at(s, i, &COMMENT_START) && s.len() - i > 2 && s[i + 2] != 10u8 {
        let k = find_line_end(s, i + 2);
        proof {
            lemma_line_end(s@, i + 2);
        }
        if k < s.len() {
            Some(k + 1)
        } else {
            Some(k)
        }
    } else {
        None
    }
}

/// Where the blank run that starts at `i` ends.
pub fn skip_whitespace(s: &[u8], i: usize, comments: bool) -> (r: usize)
    requires
        i <= s@.len(),
    ensures
        r == whitespace_end(s@, i as int, comments),
        i <= r <= s@.len(),
{
    let mut k = i;
    loop
        invariant
            i <= k <= s@.len(),
            whitespace_end(s@, k as int, comments) == whitespace_end(s@, i as int, comments),
        decreases s.len() - k,
    {
        if k < s.len() && (s[k] == 32u8 || s[k] == 9u8 || s[k] == 13u8 || s[k] == 10u8) {
            k = k + 1;
        } else if comments {
            match comment_at(s, k) {
                Some(j) => {
                    proof {
                        lemma_comment_end(s@, k as int);
                    }
                    k = j;
                },
                None => {
                    return k;
                },
            }
        } else {
            return k;
        }
    }
}

/// End of input: succeeds, consuming nothing, only on the empty input.
pub fn eof(i: &[u8]) -> (r: Option<(&[u8], ())>)
    ensures
        r is Some <==> i@.len() == 0,
        r matches Some((rest, _)) ==> rest@ == i@,
{
    if i.len() == 0 {
        Some((i, ()))
    } else {
        None
    }
}

/// A line comment: `//`, at least one byte other than a line feed, then a
/// line feed or the end of the input.
pub fn comment(i: &[u8]) -> (r: Option<(&[u8], ())>)
    ensures
        r is Some <==> comment_end(i@, 0) is Some,
        r matches Some((rest, _)) ==> rest@ == i@.skip(comment_end(i@, 0)->0),
{
    match comment_at(i, 0) {
        Some(j) => {
            proof {
                lemma_comment_end(i@, 0);
            }
            Some((&i[j..i.len()], ()))
        },
        None => None,
    }
}

/// Blanks and line comments, as many as there are (possibly none).
pub fn whitespace(i: &[u8]) -> (r: Option<(&[u8], ())>)
    ensures
        r matches Some((rest, _)) && rest@ == i@.skip(whitespace_end(i@, 0, true)),
{
    let j = skip_whitespace(i, 0, true);
    Some((&i[j..i.len()], ()))
}

/// The literal `tag_val`, then whitespace; yields the matched tag.
pub fn tag_whitespace<'a>(tag_val: &[u8], i: &'a [u8]) -> (r: Option<(&'a [u8], &'a [u8])>)
    ensures
        r is Some <==> has_tag(i@, 0, tag_val@),
        r matches Some((rest, matched)) ==> {
            &&& matched@ == tag_val@
            &&& rest@ == i@.skip(whitespace_end(i@, tag_val@.len() as int, true))
        },
{
    if tag_at(i, 0, tag_val) {
        let j = skip_whitespace(i, tag_val.len(), true);
        let matched = &i[0..tag_val.len()];
        assert forall|k: int| 0 <= k < tag_val@.len() implies matched@[k] == tag_val@[k] by {
            assert(i@[0 + k] == tag_val@[k]);
        }
        assert(matched@ =~= tag_val@);
        Some((&i[j..i.len()], matched))
    } else {
        None
    }
}

/// Where the sequence of literals `tags`, each followed by whitespace, ends
/// when it starts at `i`.
pub open spec fn tags_end(s: Seq<u8>, i: int, tags: Seq<Seq<u8>>) -> Option<int>
    decreases tags.len(),
{
    if tags.len() == 0 {
        Some(i)
    } else if has_tag(s, i, tags[0]) {
        tags_end(s, whitespace_end(s, i + tags[0].len(), true), tags.drop_first())
    } else {
        None
    }
}

pub proof fn lemma_tags_end(s: Seq<u8>, i: int, tags: Seq<Seq<u8>>)
    requires
        0 <= i <= s.len(),
    ensures
        tags_end(s, i, tags) matches Some(j) ==> i <= j <= s.len(),
    decreases tags.len(),
{
    if tags.len() > 0 && has_tag(s, i, tags[0]) {
        lemma_whitespace_end(s, i + tags[0].len(), true);
        lemma_tags_end(s, whitespace_end(s, i + tags[0].len(), true), tags.drop_first());
    }
}

/// The views of a list of literals.
pub open spec fn tag_views(tags: Seq<&[u8]>) -> Seq<Seq<u8>> {
    tags.map_values(|t: &[u8]| t@)
}

/// Where the literals `tags`, each followed by whitespace, end when they
/// start at `i`.
pub fn tags_at(s: &[u8], i: usize, tags: &[&[u8]]) -> (r: Option<usize>)
    requires
        i <= s@.len(),
    ensures
        r == (match tags_end(s@, i as int, tag_views(tags@)) {
            Some(j) => Some(j as usize),
            None => None,
        }),
{
    let mut k: usize = 0;
    let mut pos = i;
    let _len = s.len();
    assert(tag_views(tags@).skip(0) =~= tag_views(tags@));
    while k < tags.len()
        invariant
            k <= tags@.len(),
            i <= pos <= s@.len(),
            s@.len() <= usize::MAX,
            tags_end(s@, i as int, tag_views(tags@)) == tags_end(
                s@,
                pos as int,
                tag_views(tags@).skip(k as int),
            ),
        decreases tags.len() - k,
    {
        let ghost rest = tag_views(tags@).skip(k as int);
        assert(rest[0] == tags@[k as int]@);
        assert(rest.drop_first() =~= tag_views(tags@).skip(k + 1));
        let t: &[u8] = tags[k];
        if !tag_at(s, pos, t) {
            return None;
        }
        assert(has_tag(s@, pos as int, t@));
        pos = skip_whitespace(s, pos + t.len(), true);
        k = k + 1;
    }
    assert(tag_views(tags@).skip(k as int).len() == 0);
    Some(pos)
}

/// The literals `tag_vals` in order, each followed by whitespace.
pub fn tags_whitespace<'a>(tag_vals: &[&[u8]], i: &'a [u8]) -> (r: Option<(&'a [u8], ())>)
    ensures
        r is Some <==> tags_end(i@, 0, tag_views(tag_vals@)) is Some,
        r matches Some((rest, _)) ==> rest@ == i@.skip(tags_end(i@, 0, tag_views(tag_vals@))->0),
{
    proof {
        lemma_tags_end(i@, 0, tag_views(tag_vals@));
    }
    match tags_at(i, 0, tag_vals) {
        Some(j) => Some((&i[j..i.len()], ())),
        None => None,
    }
}


/// `"`
pub const QUOTE: u8 = 34u8;

/// `\`
pub const BACKSLASH: u8 = 92u8;

/// Where the body of a quoted string ends when scanning has reached `k`: at
/// the next unescaped quote, or at the end of the input. A backslash takes
/// the byte after it; a backslash with nothing after it fails.
pub open spec fn escaped_end(s: Seq<u8>, k: int) -> Option<int>
    decreases s.len() - k,
{
    if k < 0 {
        None
    } else if k >= s.len() {
        Some(s.len() as int)
    } else if s[k] == QUOTE {
        Some(k)
    } else if s[k] == BACKSLASH {
        if k + 1 >= s.len() {
            None
        } else {
            escaped_end(s, k + 2)
        }
    } else {
        escaped_end(s, k + 1)
    }
}

/// Where the body of a quoted string that starts at `i` ends; a body that
/// starts with the closing quote (an empty body) is refused.
pub open spec fn escaped_body_end(s: Seq<u8>, i: int) -> Option<int> {
    if 0 <= i < s.len() && s[i] == QUOTE {
        None
    } else {
        escaped_end(s, i)
    }
}

/// Where the quoted string that starts at `i` ends (after its closing quote).
pub open spec fn quoted_end(s: Seq<u8>, i: int) -> Option<int> {
    if 0 <= i < s.len() && s[i] == QUOTE {
        match escaped_body_end(s, i + 1) {
            Some(e) => if e < s.len() && s[e] == QUOTE {
                Some(e + 1)
            } else {
                None
            },
            None => None,
        }
    } else {
        None
    }
}

/// Unescapes a string body, byte by byte from the left; the flag tells
/// whether the last byte was an escaping backslash. An escaped quote becomes
/// a quote; any other escaped byte keeps its backslash.
pub open spec fn unescape_state(b: Seq<u8>) -> (Seq<u8>, bool)
    decreases b.len(),
{
    if b.len() == 0 {
        (Seq::empty(), false)
    } else {
        let (out, esc) = unescape_state(b.drop_last());
        let c = b.last();
        if esc && c == QUOTE {
            (out.push(QUOTE), false)
        } else if esc {
            (out.push(BACKSLASH).push(c), false)
        } else if c == BACKSLASH {
            (out, true)
        } else {
            (out.push(c), false)
        }
    }
}

/// The unescaped value of a string body.
pub open spec fn unescape(b: Seq<u8>) -> Seq<u8> {
    unescape_state(b).0
}

proof fn lemma_escaped_end(s: Seq<u8>, k: int)
    requires
        0 <= k <= s.len(),
    ensures
        escaped_end(s, k) matches Some(e) ==> k <= e <= s.len() && (e == s.len() || s[e]
            == QUOTE),
    decreases s.len() - k,
{
    if k < s.len() && s[k] != QUOTE {
        if s[k] == BACKSLASH {
            if k + 1 < s.len() {
                lemma_escaped_end(s, k + 2);
            }
        } else {
            lemma_escaped_end(s, k + 1);
        }
    }
}

pub proof fn lemma_quoted_end(s: Seq<u8>, i: int)
    requires
        0 <= i <= s.len(),
    ensures
        quoted_end(s, i) matches Some(e) ==> i + 3 <= e <= s.len(),
{
    if 0 <= i < s.len() && s[i] == QUOTE {
        lemma_escaped_end(s, i + 1);
    }
}

/// Where the body of a quoted string that starts at `i` ends.
fn find_escaped_body_end(s: &[u8], i: usize) -> (r: Option<usize>)
    requires
        i <= s@.len(),
    ensures
        r == (match escaped_body_end(s@, i as int) {
            Some(e) => Some(e as usize),
            None => None,
        }),
{
    if i < s.len() && s[i] == QUOTE {
        return None;
    }
    let mut k = i;
    loop
        invariant
            i <= k <= s@.len(),
            escaped_end(s@, k as int) == escaped_end(s@, i as int),
            escaped_body_end(s@, i as int) == escaped_end(s@, i as int),
        decreases s.len() - k,
    {
        if k >= s.len() {
            return Some(k);
        } else if s[k] == QUOTE {
            return Some(k);
        } else if s[k] == BACKSLASH {
            if s.len() - k <= 1 {
                return None;
            }
            k = k + 2;
        } else {
            k = k + 1;
        }
    }
}

/// Unescapes the body `s[from..to]` of a quoted string.
fn unescape_range(s: &[u8], from: usize, to: usize) -> (r: Vec<u8>)
    requires
        from <= to <= s@.len(),
    ensures
        r@ == unescape(s@.subrange(from as int, to as int)),
{
    let mut out: Vec<u8> = Vec::new();
    let mut esc = false;
    let mut k = from;
    assert(s@.subrange(from as int, from as int) =~= Seq::<u8>::empty());
    while k < to
        invariant
            from <= k <= to <= s@.len(),
            (out@, esc) == unescape_state(s@.subrange(from as int, k as int)),
        decreases to - k,
    {
        let c = s[k];
        assert(s@.subrange(from as int, k + 1).drop_last() =~= s@.subrange(from as int, k as int));
        if esc && c == QUOTE {
            out.push(QUOTE);
            esc = false;
        } else if esc {
            out.push(BACKSLASH);
            out.push(c);
            esc = false;
        } else if c == BACKSLASH {
            esc = true;
        } else {
            out.push(c);
        }
        k = k + 1;
    }
    out
}

/// Where the quoted string that starts at `i` ends, with its unescaped body.
pub fn quoted_at(s: &[u8], i: usize) -> (r: Option<(usize, Vec<u8>)>)
    requires
        i <= s@.len(),
    ensures
        r is Some <==> quoted_end(s@, i as int) is Some,
        r matches Some((e, v)) ==> {
            &&& e == quoted_end(s@, i as int)->0
            &&& v@ == unescape(s@.subrange(i + 1, e - 1))
        },
{
    if i < s.len() && s[i] == QUOTE {
        match find_escaped_body_end(s, i + 1) {
            Some(e) => {
                proof {
                    lemma_escaped_end(s@, i + 1);
                }
                if e < s.len() && s[e] == QUOTE {
                    let v = unescape_range(s, i + 1, e);
                    Some((e + 1, v))
                } else {
                    None
                }
            },
            None => None,
        }
    } else {
        None
    }
}

/// A quoted string, with backslash escapes; yields its unescaped body.
pub fn escaped_string(i: &[u8]) -> (r: Option<(&[u8], Vec<u8>)>)
    ensures
        r is Some <==> quoted_end(i@, 0) is Some,
        r matches Some((rest, v)) ==> {
            &&& rest@ == i@.skip(quoted_end(i@, 0)->0)
            &&& v@ == unescape(i@.subrange(1, quoted_end(i@, 0)->0 - 1))
        },
{
    proof {
        lemma_quoted_end(i@, 0);
    }
    match quoted_at(i, 0) {
        Some((e, v)) => Some((&i[e..i.len()], v)),
        None => None,
    }
}

/// Bytes that cannot be part of an identifier.
pub open spec fn is_identifier_delimiter(b: u8) -> bool {
    b == 92 || b == 47 || b == 58 || b == 59 || b == 46 || b == 40 || b == 41 || b == 91 || b
        == 93 || b == 123 || b == 125 || b == 39 || b == 34 || b == 32 || b == 10 || b == 9 || b
        == 13 || b == 0
}

/// The first delimiter at or after `i`, or the end.
pub open spec fn identifier_stop(s: Seq<u8>, i: int) -> int
    decreases s.len() - i,
{
    if 0 <= i < s.len() && !is_identifier_delimiter(s[i]) {
        identifier_stop(s, i + 1)
    } else {
        i
    }
}

/// Where the identifier that starts at `i` ends: at least one byte that is
/// not a delimiter.
pub open spec fn identifier_end(s: Seq<u8>, i: int) -> Option<int> {
    if identifier_stop(s, i) > i {
        Some(identifier_stop(s, i))
    } else {
        None
    }
}

pub proof fn lemma_identifier_stop(s: Seq<u8>, i: int)
    requires
        0 <= i <= s.len(),
    ensures
        i <= identifier_stop(s, i) <= s.len(),
    decreases s.len() - i,
{
    if i < s.len() && !is_identifier_delimiter(s[i]) {
        lemma_identifier_stop(s, i + 1);
    }
}

/// Where the identifier that starts at `i` ends, if one starts there.
pub fn identifier_at(s: &[u8], i: usize) -> (r: Option<usize>)
    requires
        i <= s@.len(),
    ensures
        r == (match identifier_end(s@, i as int) {
            Some(e) => Some(e as usize),
            None => None,
        }),
{
    let mut k = i;
    while k < s.len() && !(s[k] == 92u8 || s[k] == 47u8 || s[k] == 58u8 || s[k] == 59u8 || s[k]
        == 46u8 || s[k] == 40u8 || s[k] == 41u8 || s[k] == 91u8 || s[k] == 93u8 || s[k] == 123u8
        || s[k] == 125u8 || s[k] == 39u8 || s[k] == 34u8 || s[k] == 32u8 || s[k] == 10u8 || s[k]
        == 9u8 || s[k] == 13u8 || s[k] == 0u8)
        invariant
            i <= k <= s@.len(),
            identifier_stop(s@, k as int) == identifier_stop(s@, i as int),
        decreases s.len() - k,
    {
        k = k + 1;
    }
    if k > i {
        Some(k)
    } else {
        None
    }
}

/// An identifier: a run of bytes that are not delimiters.
pub fn identifier(i: &[u8]) -> (r: Option<(&[u8], &[u8])>)
    ensures
        r is Some <==> identifier_end(i@, 0) is Some,
        r matches Some((rest, id)) ==> {
            &&& id@ == i@.take(identifier_end(i@, 0)->0)
            &&& rest@ == i@.skip(identifier_end(i@, 0)->0)
        },
{
    proof {
        lemma_identifier_stop(i@, 0);
    }
    match identifier_at(i, 0) {
        Some(e) => Some((&i[e..i.len()], &i[0..e])),
        None => None,
    }
}

} // verus!
