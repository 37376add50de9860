//! Calls into std and outside crates whose results the library relies on,
//! with what each is trusted to return.
use vstd::prelude::*;

verus! {

/// `String::push`: appends one character.
#[verifier::external_body]
pub fn push_char(s: &mut String, c: char)
    ensures
        final(s)@ == old(s)@.push(c),
{
    s.push(c);
}

/// `std::str::from_utf8`, then `to_string`: the text that `b` encodes, if
/// `b` is valid UTF-8.
#[verifier::external_body]
pub fn utf8_text(b: &[u8]) -> (r: Option<String>)
    ensures
        r is Some <==> vstd::utf8::valid_utf8(b@),
        r matches Some(t) ==> t@ == vstd::utf8::decode_utf8(b@),
{
    match std::str::from_utf8(b) {
        Ok(t) => Some(t.to_string()),
        Err(_) => None,
    }
}

/// What `nom::number::complete::double` makes of `input`: how many bytes are
/// left after the number, and the IEEE-754 bits of the number.
pub uninterp spec fn nom_double(input: Seq<u8>) -> Option<(nat, u64)>;

/// What `format!("{}", x)` writes for the floating-point number `x` whose
/// IEEE-754 bits are `bits`.
pub uninterp spec fn float_text(bits: u64) -> Seq<char>;

/// `nom::number::complete::double` on `input`: the number of bytes left after
/// the number (a suffix of `input`), the bits of the number, and how the
/// number is displayed. Fails when `input` does not start with a number.
#[verifier::external_body]
pub fn parse_double(input: &[u8]) -> (r: Option<(usize, u64, String)>)
    ensures
        r is Some <==> nom_double(input@) is Some,
        r matches Some((rest, bits, text)) ==> {
            &&& nom_double(input@) == Some((rest as nat, bits))
            &&& rest <= input@.len()
            &&& text@ == float_text(bits)
        },
{
    match nom::number::complete::double::<&[u8], nom::error::Error<&[u8]>>(input) {
        Ok((rest, v)) => Some((rest.len(), v.to_bits(), format!("{}", v))),
        Err(_) => None,
    }
}

/// The message with which `regex::Regex::new` refuses `pattern`, if it does.
pub uninterp spec fn regex_error(pattern: Seq<char>) -> Option<Seq<char>>;

/// `regex::Regex::new(pattern)`: the compiled pattern, or the error's message.
#[verifier::external_body]
pub fn compile_regex(pattern: &str) -> (r: Result<regex::Regex, String>)
    ensures
        r is Ok <==> regex_error(pattern@) is None,
        r matches Err(e) ==> regex_error(pattern@) == Some(e@),
{
    match regex::Regex::new(pattern) {
        Ok(re) => Ok(re),
        Err(e) => Err(format!("{}", e)),
    }
}

/// The debug text of the error with which `scraper::Selector::parse` refuses
/// `text`, if it does.
pub uninterp spec fn selector_error(text: Seq<char>) -> Option<Seq<char>>;

/// `scraper::Selector::parse(text)`: the compiled selector, or the debug text
/// of the error.
#[verifier::external_body]
pub fn compile_selector(text: &str) -> (r: Result<scraper::Selector, String>)
    ensures
        r is Ok <==> selector_error(text@) is None,
        r matches Err(e) ==> selector_error(text@) == Some(e@),
{
    match scraper::Selector::parse(text) {
        Ok(sel) => Ok(sel),
        Err(e) => Err(format!("{:?}", e)),
    }
}

/// What `url::Url::parse` makes of `text`: the address written out in full;
/// or, when it fails, whether it failed for being a relative address
/// without a base, and the text of the error.
pub uninterp spec fn url_parse(text: Seq<char>) -> Result<Seq<char>, (bool, Seq<char>)>;

/// `url::Url::parse(text)`: the address written out in full; or whether the
/// error is `RelativeUrlWithoutBase`, and its text.
#[verifier::external_body]
pub fn parse_url(text: &str) -> (r: Result<String, (bool, String)>)
    ensures
        (match r {
            Ok(u) => Ok::<Seq<char>, (bool, Seq<char>)>(u@),
            Err((relative, e)) => Err((relative, e@)),
        }) == url_parse(text@),
{
    match url::Url::parse(text) {
        Ok(u) => Ok(u.to_string()),
        Err(url::ParseError::RelativeUrlWithoutBase) => Err(
            (true, url::ParseError::RelativeUrlWithoutBase.to_string()),
        ),
        Err(e) => Err((false, e.to_string())),
    }
}

/// What `Url::join` makes of `raw` against the address `base`: the joined
/// address written out in full, or the text of the error.
pub uninterp spec fn url_join(base: Seq<char>, raw: Seq<char>) -> Result<Seq<char>, Seq<char>>;

/// `url::Url::join`: `raw` resolved against the address `base` (itself
/// read with `Url::parse`).
#[verifier::external_body]
pub fn join_url(base: &str, raw: &str) -> (r: Result<String, String>)
    ensures
        (match r {
            Ok(u) => Ok::<Seq<char>, Seq<char>>(u@),
            Err(e) => Err(e@),
        }) == url_join(base@, raw@),
{
    match url::Url::parse(base) {
        Ok(b) => match b.join(raw) {
            Ok(u) => Ok(u.to_string()),
            Err(e) => Err(e.to_string()),
        },
        Err(e) => Err(e.to_string()),
    }
}

/// The scheme of an address (`None` when it is not an address).
pub uninterp spec fn url_scheme(text: Seq<char>) -> Option<Seq<char>>;

/// `Url::scheme` of the address `text`.
#[verifier::external_body]
pub fn scheme_of(text: &str) -> (r: Option<String>)
    ensures
        (match r {
            Some(t) => Some(t@),
            None => None::<Seq<char>>,
        }) == url_scheme(text@),
{
    match url::Url::parse(text) {
        Ok(u) => Some(u.scheme().to_string()),
        Err(_) => None,
    }
}

/// Whether an address has a domain (`None` when it is not an address).
pub uninterp spec fn url_has_domain(text: Seq<char>) -> Option<bool>;

/// Whether `Url::domain` of the address `text` is there.
#[verifier::external_body]
pub fn has_domain(text: &str) -> (r: Option<bool>)
    ensures
        r == url_has_domain(text@),
{
    match url::Url::parse(text) {
        Ok(u) => Some(u.domain().is_some()),
        Err(_) => None,
    }
}

/// The decoded query pairs of an address (`None` when it is not an
/// address).
pub uninterp spec fn url_query_pairs(text: Seq<char>) -> Option<Seq<(Seq<char>, Seq<char>)>>;

/// `Url::query_pairs` of the address `text`, each pair decoded.
#[verifier::external_body]
pub fn query_pairs_of(text: &str) -> (r: Option<Vec<(String, String)>>)
    ensures
        match r {
            Some(ps) => url_query_pairs(text@) matches Some(v) && v.len() == ps@.len() && forall|k: int|
                0 <= k < ps@.len() ==> (#[trigger] ps@[k]).0@ == v[k].0 && ps@[k].1@ == v[k].1,
            None => url_query_pairs(text@) is None,
        },
{
    match url::Url::parse(text) {
        Ok(u) => Some(u.query_pairs().map(|(k, v)| (k.into_owned(), v.into_owned())).collect()),
        Err(_) => None,
    }
}

/// The address with its query made of these pairs (`None` when it is not
/// an address).
pub uninterp spec fn url_with_pairs(text: Seq<char>, pairs: Seq<(Seq<char>, Seq<char>)>) -> Option<Seq<char>>;

/// `Url::query_pairs_mut().clear().extend_pairs(pairs)` on the address
/// `text`, written out in full.
#[verifier::external_body]
pub fn with_query_pairs(text: &str, pairs: &Vec<(String, String)>) -> (r: Option<String>)
    ensures
        (match r {
            Some(t) => Some(t@),
            None => None::<Seq<char>>,
        }) == url_with_pairs(text@, pairs@.map_values(|p: (String, String)| (p.0@, p.1@))),
{
    match url::Url::parse(text) {
        Ok(mut u) => {
            u.query_pairs_mut().clear().extend_pairs(pairs.iter());
            Some(u.to_string())
        },
        Err(_) => None,
    }
}

/// The address without a query (`None` when it is not an address).
pub uninterp spec fn url_without_query(text: Seq<char>) -> Option<Seq<char>>;

/// `Url::set_query(None)` on the address `text`, written out in full.
#[verifier::external_body]
pub fn without_query(text: &str) -> (r: Option<String>)
    ensures
        (match r {
            Some(t) => Some(t@),
            None => None::<Seq<char>>,
        }) == url_without_query(text@),
{
    match url::Url::parse(text) {
        Ok(mut u) => {
            u.set_query(None);
            Some(u.to_string())
        },
        Err(_) => None,
    }
}

/// Whether one of the patterns matches `text`, as a `regex::RegexSet` finds
/// (`None` when the set cannot be built).
pub uninterp spec fn regex_set_match(patterns: Seq<Seq<char>>, text: Seq<char>) -> Option<bool>;

/// `regex::RegexSet::new(patterns)`, then `is_match(text)`.
#[verifier::external_body]
pub fn set_matches(patterns: &Vec<String>, text: &str) -> (r: Option<bool>)
    ensures
        r == regex_set_match(patterns@.map_values(|p: String| p@), text@),
{
    match regex::RegexSet::new(patterns.iter()) {
        Ok(set) => Some(set.is_match(text)),
        Err(_) => None,
    }
}

/// The rules of the section of `robots.txt` text that `robots_txt` picks for
/// a user agent: each rule's path, and whether it allows (rather than
/// disallows) it.
pub uninterp spec fn robots_rules(text: Seq<char>, agent: Seq<char>) -> Seq<(Seq<char>, bool)>;

/// `robots_txt::Robots::from_str_lossy(text).choose_section(agent).rules`:
/// each rule's path and whether it allows it, in order. The agent is ASCII:
/// `choose_section` slices it at byte offsets, which must fall between
/// characters.
#[verifier::external_body]
pub fn robots_section_rules(text: &str, agent: &str) -> (r: Vec<(String, bool)>)
    requires
        forall|k: int| 0 <= k < agent@.len() ==> (#[trigger] agent@[k] as int) < 128,
    ensures
        r@.len() == robots_rules(text@, agent@).len(),
        forall|k: int| 0 <= k < r@.len() ==> (#[trigger] r@[k]).0@ == robots_rules(text@, agent@)[k].0
            && r@[k].1 == robots_rules(text@, agent@)[k].1,
{
    robots_txt::Robots::from_str_lossy(text)
        .choose_section(agent)
        .rules
        .iter()
        .map(|rule| (rule.path.to_string(), rule.allow))
        .collect()
}

/// What `String::from_utf8_lossy` makes of `bytes`: the text they encode,
/// with each invalid sequence replaced by U+FFFD.
pub uninterp spec fn utf8_lossy(bytes: Seq<u8>) -> Seq<char>;

/// `String::from_utf8_lossy(bytes)`, owned. Valid UTF-8 comes out as the
/// text it encodes.
#[verifier::external_body]
pub fn lossy_text(bytes: &[u8]) -> (r: String)
    ensures
        r@ == utf8_lossy(bytes@),
        vstd::utf8::valid_utf8(bytes@) ==> r@ == vstd::utf8::decode_utf8(bytes@),
{
    String::from_utf8_lossy(bytes).into_owned()
}

/// What `scraper` finds in the HTML document `html` for the CSS selector
/// `selector`: for each selected element, in document order, its `href`
/// attribute if it has one; `None` when the selector does not compile.
pub uninterp spec fn html_hrefs(html: Seq<char>, selector: Seq<char>) -> Option<Seq<Option<Seq<char>>>>;

/// `scraper::Html::parse_document(html).select(&Selector::parse(selector))`,
/// each element's `value().attr("href")`.
#[verifier::external_body]
pub fn element_hrefs(html: &str, selector: &str) -> (r: Option<Vec<Option<String>>>)
    ensures
        match r {
            None => html_hrefs(html@, selector@) is None,
            Some(v) => html_hrefs(html@, selector@) matches Some(w) && w.len() == v@.len() && forall|k: int|
                0 <= k < v@.len() ==> match (#[trigger] v@[k]) {
                    Some(t) => w[k] == Some(t@),
                    None => w[k] is None,
                },
        },
{
    match scraper::Selector::parse(selector) {
        Ok(sel) => Some(
            scraper::Html::parse_document(html).select(&sel).map(|e| e.value().attr("href").map(|h| h.to_owned())).collect(),
        ),
        Err(_) => None,
    }
}

/// The SipHash 2-4 hash (zero keys) that `siphasher` gives a string, as
/// `Hash` feeds it, read as a signed integer.
pub uninterp spec fn sip_hash(text: Seq<char>) -> i64;

/// `siphasher::sip::SipHasher24::new()`, fed `text` by `Hash`, then
/// `finish`, as an `i64`.
#[verifier::external_body]
pub fn sip_hash_text(text: &str) -> (r: i64)
    ensures
        r == sip_hash(text@),
{
    let mut hasher = siphasher::sip::SipHasher24::new();
    std::hash::Hash::hash(text, &mut hasher);
    std::hash::Hasher::finish(&hasher) as i64
}

/// What `regex::Regex::replace_all` makes of `text` with `replacer`, for the
/// regular expression compiled from `pattern` (meaningful when it
/// compiles).
pub uninterp spec fn regex_replaced(pattern: Seq<char>, text: Seq<char>, replacer: Seq<char>) -> Seq<char>;

/// `regex::Regex::new(pattern)`, then `replace_all(text, replacer)`; `None`
/// exactly when the pattern does not compile.
#[verifier::external_body]
pub fn replace_all(pattern: &str, text: &str, replacer: &str) -> (r: Option<String>)
    ensures
        match r {
            Some(t) => regex_error(pattern@) is None && t@ == regex_replaced(pattern@, text@, replacer@),
            None => regex_error(pattern@) is Some,
        },
{
    match regex::Regex::new(pattern) {
        Ok(re) => Some(re.replace_all(text, replacer).into_owned()),
        Err(_) => None,
    }
}

/// The groups of a match of `regex`: for each group, in order, its name if
/// it has one, and the text it matched if it took part.
pub type Groups = Vec<(Option<String>, Option<String>)>;

/// What the regular expression compiled from `pattern` captures in `text`
/// (meaningful when it compiles): for its first match, each group's name (if
/// any) and matched text (if it took part), in group order; `None` when it
/// does not match.
pub uninterp spec fn regex_captures(pattern: Seq<char>, text: Seq<char>) -> Option<Seq<(Option<Seq<char>>, Option<Seq<char>>)>>;

/// The same for every match, in order.
pub uninterp spec fn regex_all_captures(pattern: Seq<char>, text: Seq<char>) -> Seq<Seq<(Option<Seq<char>>, Option<Seq<char>>)>>;

pub open spec fn groups_view(g: Seq<(Option<String>, Option<String>)>) -> Seq<(Option<Seq<char>>, Option<Seq<char>>)> {
    g.map_values(|p: (Option<String>, Option<String>)| (
        match p.0 { Some(n) => Some(n@), None => None },
        match p.1 { Some(t) => Some(t@), None => None },
    ))
}

/// `regex::Regex::new(pattern)`, then `captures(text)`, each group with its
/// name from `capture_names`; `None` exactly when the pattern does not
/// compile.
#[verifier::external_body]
pub fn captures_of(pattern: &str, text: &str) -> (r: Option<Option<Groups>>)
    ensures
        match r {
            None => regex_error(pattern@) is Some,
            Some(None) => regex_error(pattern@) is None && regex_captures(pattern@, text@) is None,
            Some(Some(g)) => regex_error(pattern@) is None && regex_captures(pattern@, text@) == Some(groups_view(g@)),
        },
{
    match regex::Regex::new(pattern) {
        Ok(re) => Some(re.captures(text).map(|c| {
            c.iter().zip(re.capture_names()).map(|(m, n)| (n.map(|n| n.to_owned()), m.map(|m| m.as_str().to_owned()))).collect()
        })),
        Err(_) => None,
    }
}

/// `regex::Regex::new(pattern)`, then `captures_iter(text)`, each match's
/// groups with their names; `None` exactly when the pattern does not
/// compile.
#[verifier::external_body]
pub fn all_captures_of(pattern: &str, text: &str) -> (r: Option<Vec<Groups>>)
    ensures
        match r {
            None => regex_error(pattern@) is Some,
            Some(gs) => regex_error(pattern@) is None && regex_all_captures(pattern@, text@).len() == gs@.len()
                && forall|k: int|
                0 <= k < gs@.len() ==> regex_all_captures(pattern@, text@)[k] == groups_view(#[trigger] gs@[k]@),
        },
{
    match regex::Regex::new(pattern) {
        Ok(re) => Some(re.captures_iter(text).map(|c| {
            c.iter().zip(re.capture_names()).map(|(m, n)| (n.map(|n| n.to_owned()), m.map(|m| m.as_str().to_owned()))).collect()
        }).collect()),
        Err(_) => None,
    }
}

/// Whether the regular expression compiled from `pattern` matches somewhere
/// in `text` (meaningful when it compiles).
pub uninterp spec fn regex_is_match(pattern: Seq<char>, text: Seq<char>) -> bool;

/// `regex::Regex::new(pattern)`, then `is_match(text)`; `None` exactly when
/// the pattern does not compile.
#[verifier::external_body]
pub fn is_match_of(pattern: &str, text: &str) -> (r: Option<bool>)
    ensures
        match r {
            Some(b) => regex_error(pattern@) is None && b == regex_is_match(pattern@, text@),
            None => regex_error(pattern@) is Some,
        },
{
    match regex::Regex::new(pattern) {
        Ok(re) => Some(re.is_match(text)),
        Err(_) => None,
    }
}

} // verus!
