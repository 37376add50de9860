//! Text clean-up used by the `pretty` transformer.
use vstd::prelude::*;
use vstd::string::StringExecFns;
use crate::outside::push_char;

verus! {

broadcast use vstd::string::group_string_axioms;

/// Unicode `White_Space`: what `char::is_whitespace` accepts.
pub open spec fn is_white(c: char) -> bool {
    ||| '\t' <= c <= '\r'
    ||| c == ' '
    ||| c == '\u{85}'
    ||| c == '\u{a0}'
    ||| c == '\u{1680}'
    ||| '\u{2000}' <= c <= '\u{200a}'
    ||| c == '\u{2028}'
    ||| c == '\u{2029}'
    ||| c == '\u{202f}'
    ||| c == '\u{205f}'
    ||| c == '\u{3000}'
}

/// Whether `c` is Unicode white space.
pub fn is_whitespace(c: char) -> (r: bool)
    ensures
        r == is_white(c),
{
    ('\t' <= c && c <= '\r') || c == ' ' || c == '\u{85}' || c == '\u{a0}' || c == '\u{1680}' || (
    '\u{2000}' <= c && c <= '\u{200a}') || c == '\u{2028}' || c == '\u{2029}' || c == '\u{202f}'
        || c == '\u{205f}' || c == '\u{3000}'
}

/// The pieces of `s` between line feeds, as `str::split('\n')` gives them
/// (there is always at least one piece).
pub open spec fn paragraphs(s: Seq<char>) -> Seq<Seq<char>>
    decreases s.len(),
{
    if s.len() == 0 {
        seq![Seq::empty()]
    } else {
        let ps = paragraphs(s.drop_last());
        if s.last() == '\n' {
            ps.push(Seq::empty())
        } else {
            ps.update(ps.len() - 1, ps.last().push(s.last()))
        }
    }
}

/// The maximal runs of non-white characters of `p`, in order, as
/// `str::split_whitespace` gives them.
pub open spec fn words(p: Seq<char>) -> Seq<Seq<char>>
    decreases p.len(),
{
    if p.len() == 0 {
        Seq::empty()
    } else {
        let ws = words(p.drop_last());
        let c = p.last();
        if is_white(c) {
            ws
        } else if p.len() >= 2 && !is_white(p[p.len() - 2]) {
            ws.update(ws.len() - 1, ws.last().push(c))
        } else {
            ws.push(seq![c])
        }
    }
}

/// The words joined by single spaces.
pub open spec fn join_words(ws: Seq<Seq<char>>) -> Seq<char>
    decreases ws.len(),
{
    if ws.len() == 0 {
        Seq::empty()
    } else if ws.len() == 1 {
        ws[0]
    } else {
        join_words(ws.drop_last()) + seq![' '] + ws.last()
    }
}

/// What a paragraph becomes: nothing if it has no word, otherwise its words
/// joined by single spaces and a line feed.
pub open spec fn pretty_paragraph(p: Seq<char>) -> Seq<char> {
    if words(p).len() == 0 {
        Seq::empty()
    } else {
        join_words(words(p)) + seq!['\n']
    }
}

/// The cleaned-up paragraphs, one after the other.
pub open spec fn pretty_paragraphs(ps: Seq<Seq<char>>) -> Seq<char>
    decreases ps.len(),
{
    if ps.len() == 0 {
        Seq::empty()
    } else {
        pretty_paragraphs(ps.drop_last()) + pretty_paragraph(ps.last())
    }
}

/// The cleaned-up text: each line that has a word becomes its words joined by
/// single spaces, ended by a line feed; lines without words are dropped.
pub open spec fn pretty_text(s: Seq<char>) -> Seq<char> {
    pretty_paragraphs(paragraphs(s))
}

proof fn lemma_paragraphs_len(s: Seq<char>)
    ensures
        paragraphs(s).len() >= 1,
    decreases s.len(),
{
    if s.len() > 0 {
        lemma_paragraphs_len(s.drop_last());
    }
}

proof fn lemma_words_nonempty(p: Seq<char>)
    ensures
        forall|k: int| 0 <= k < words(p).len() ==> #[trigger] words(p)[k].len() > 0,
        p.len() > 0 && !is_white(p.last()) ==> words(p).len() > 0,
    decreases p.len(),
{
    if p.len() > 0 {
        let q = p.drop_last();
        lemma_words_nonempty(q);
        if p.len() >= 2 {
            assert(q.last() == p[p.len() - 2]);
        }
        let ws = words(q);
        let c = p.last();
        if !is_white(c) && p.len() >= 2 && !is_white(p[p.len() - 2]) {
            assert forall|k: int| 0 <= k < words(p).len() implies #[trigger] words(p)[k].len() > 0 by {
                if k < ws.len() - 1 {
                    assert(words(p)[k] == ws[k]);
                }
            }
        } else if !is_white(c) {
            assert forall|k: int| 0 <= k < words(p).len() implies #[trigger] words(p)[k].len() > 0 by {
                if k < ws.len() {
                    assert(words(p)[k] == ws[k]);
                }
            }
        }
    }
}

proof fn lemma_join_words_empty(ws: Seq<Seq<char>>)
    requires
        forall|k: int| 0 <= k < ws.len() ==> #[trigger] ws[k].len() > 0,
    ensures
        (join_words(ws).len() == 0) == (ws.len() == 0),
    decreases ws.len(),
{
    if ws.len() > 1 {
        lemma_join_words_empty(ws.drop_last());
    }
}

proof fn lemma_join_extend(ws: Seq<Seq<char>>, c: char)
    requires
        ws.len() > 0,
    ensures
        join_words(ws.update(ws.len() - 1, ws.last().push(c))) == join_words(ws).push(c),
{
    let ws2 = ws.update(ws.len() - 1, ws.last().push(c));
    if ws.len() > 1 {
        assert(ws2.drop_last() =~= ws.drop_last());
        assert(join_words(ws2) =~= join_words(ws).push(c));
    }
}

proof fn lemma_join_push(ws: Seq<Seq<char>>, w: Seq<char>)
    requires
        ws.len() > 0,
    ensures
        join_words(ws.push(w)) == join_words(ws) + seq![' '] + w,
{
    assert(ws.push(w).drop_last() =~= ws);
}

/// Prettifies text, removing unnecessary whitespace: each line that has a
/// word becomes its words joined by single spaces and a line feed; lines
/// without words are dropped.
pub fn pretty(i: &str) -> (r: String)
    ensures
        r@ == pretty_text(i@),
{
    let mut out = String::new();
    let mut cur = String::new();
    let mut prev_white = true;
    let ghost mut seen: Seq<char> = Seq::empty();
    for c in it: i.chars()
        invariant
            it.seq() == i@,
            seen == i@.take(it.index() as int),
            out@ == pretty_paragraphs(paragraphs(seen).drop_last()),
            cur@ == join_words(words(paragraphs(seen).last())),
            prev_white == (paragraphs(seen).last().len() == 0 || is_white(
                paragraphs(seen).last().last(),
            )),
    {
        let ghost ps = paragraphs(seen);
        let ghost p = ps.last();
        proof {
            assert(i@.take(it.index() + 1) =~= seen.push(c));
            assert(seen.push(c).drop_last() =~= seen);
            lemma_paragraphs_len(seen);
            lemma_words_nonempty(p);
            lemma_join_words_empty(words(p));
        }
        if c == '\n' {
            proof {
                assert(paragraphs(seen.push(c)) =~= ps.push(Seq::empty()));
                assert(paragraphs(seen.push(c)).drop_last() =~= ps);
                assert(ps =~= ps.drop_last().push(p));
            }
            if !cur.as_str().is_empty() {
                out.append(cur.as_str());
                out.append("\n");
                proof {
                    reveal_strlit("\n");
                }
            }
            cur = String::new();
            prev_white = true;
        } else {
            proof {
                assert(paragraphs(seen.push(c)) =~= ps.update(ps.len() - 1, p.push(c)));
                assert(paragraphs(seen.push(c)).drop_last() =~= ps.drop_last());
                assert(p.push(c).drop_last() =~= p);
            }
            if is_whitespace(c) {
                prev_white = true;
            } else {
                if !prev_white {
                    proof {
                        lemma_join_extend(words(p), c);
                    }
                    push_char(&mut cur, c);
                } else {
                    if !cur.as_str().is_empty() {
                        proof {
                            lemma_join_push(words(p), seq![c]);
                        }
                        push_char(&mut cur, ' ');
                        push_char(&mut cur, c);
                    } else {
                        push_char(&mut cur, c);
                    }
                }
                prev_white = false;
            }
        }
        proof {
            seen = seen.push(c);
        }
    }
    proof {
        assert(seen =~= i@);
        lemma_paragraphs_len(seen);
        let ps = paragraphs(seen);
        assert(ps =~= ps.drop_last().push(ps.last()));
        lemma_words_nonempty(ps.last());
        lemma_join_words_empty(words(ps.last()));
    }
    if !cur.as_str().is_empty() {
        out.append(cur.as_str());
        out.append("\n");
        proof {
            reveal_strlit("\n");
        }
    }
    out
}

} // verus!
