//! Where a parse stopped in a text, and the error that reports it.
use vstd::prelude::*;
use vstd::string::StringExecFns;

use crate::expressions::{decimal_string, decimal_text};
use crate::outside::push_char;

verus! {

broadcast use vstd::string::group_string_axioms;

/// A place in a text: the line and the column, both counted from zero.
#[derive(Debug, Clone, Copy, PartialEq, Eq, Structural)]
pub struct Position {
    pub line: usize,
    pub column: usize,
}

/// The place reached after reading `prefix`: a line feed starts a new line;
/// a carriage return moves nothing; any other character moves one column.
pub open spec fn position_after(prefix: Seq<char>) -> (nat, nat)
    decreases prefix.len(),
{
    if prefix.len() == 0 {
        (0, 0)
    } else {
        let (line, column) = position_after(prefix.drop_last());
        let c = prefix.last();
        if c == '\n' {
            (line + 1, 0)
        } else if c != '\r' {
            (line, column + 1)
        } else {
            (line, column)
        }
    }
}

proof fn lemma_position_bound(prefix: Seq<char>)
    ensures
        position_after(prefix).0 <= prefix.len(),
        position_after(prefix).1 <= prefix.len(),
    decreases prefix.len(),
{
    if prefix.len() > 0 {
        lemma_position_bound(prefix.drop_last());
    }
}

/// The characters of a text, in order.
pub fn chars_of(s: &str) -> (r: Vec<char>)
    ensures
        r@ == s@,
{
    let mut out: Vec<char> = Vec::new();
    for c in it: s.chars()
        invariant
            it.seq() == s@,
            out@ == s@.take(it.index() as int),
    {
        assert(s@.take(it.index() + 1) =~= out@.push(c));
        out.push(c);
    }
    assert(s@.take(s@.len() as int) =~= s@);
    out
}

/// The text of a position, counted from one: `line <l>, column <c>`.
pub open spec fn position_text(p: Position) -> Seq<char> {
    "line "@ + decimal_text((p.line + 1) as nat) + ", column "@ + decimal_text((p.column + 1) as nat)
}

impl Position {
    /// Where `fragment`, the rest of `text`, starts in `text`.
    pub fn of(text: &str, fragment: &str) -> (r: Position)
        requires
            fragment@.len() <= text@.len(),
            text@.skip(text@.len() - fragment@.len()) == fragment@,
        ensures
            (r.line as nat, r.column as nat) == position_after(
                text@.take(text@.len() - fragment@.len()),
            ),
    {
        let chars = chars_of(text);
        let rest = chars_of(fragment);
        let n = chars.len() - rest.len();
        let mut line: usize = 0;
        let mut column: usize = 0;
        let mut k: usize = 0;
        assert(text@.take(0) =~= Seq::<char>::empty());
        while k < n
            invariant
                k <= n <= chars@.len(),
                chars@ == text@,
                (line as nat, column as nat) == position_after(text@.take(k as int)),
            decreases n - k,
        {
            assert(text@.take(k + 1).drop_last() =~= text@.take(k as int));
            proof {
                lemma_position_bound(text@.take(k as int));
            }
            let c = chars[k];
            if c == '\n' {
                line = line + 1;
                column = 0;
            } else if c != '\r' {
                column = column + 1;
            }
            k = k + 1;
        }
        Position { line, column }
    }

    /// `line <l>, column <c>`, counted from one.
    pub fn to_string(&self) -> (r: String)
        requires
            self.line < usize::MAX,
            self.column < usize::MAX,
        ensures
            r@ == position_text(*self),
    {
        let mut r = String::from_str("line ");
        let l = decimal_string(self.line + 1);
        r.append(l.as_str());
        r.append(", column ");
        let c = decimal_string(self.column + 1);
        r.append(c.as_str());
        r
    }
}

/// The first line of a text: up to the first line feed, without the
/// carriage return before it; the whole text when it has no line feed.
pub open spec fn first_line(f: Seq<char>) -> Seq<char> {
    if exists|k: int| 0 <= k < f.len() && f[k] == '\n' {
        let e = choose|k: int|
            0 <= k < f.len() && f[k] == '\n' && forall|j: int| 0 <= j < k ==> f[j] != '\n';
        let l = f.take(e);
        if l.len() > 0 && l.last() == '\r' {
            l.drop_last()
        } else {
            l
        }
    } else {
        f
    }
}

/// At most the first ten characters of the first line of the rest of the
/// text, then `...`.
pub open spec fn hint_text(fragment: Seq<char>) -> Seq<char> {
    let l = first_line(fragment);
    (if l.len() <= 10 {
        l
    } else {
        l.take(10)
    }) + "..."@
}

/// An error in parsing a text: where it happened, the start of what was
/// left, and what went wrong.
#[derive(Debug)]
pub struct ParseError {
    pub position: Position,
    pub hint: String,
    pub message: String,
}

impl ParseError {
    /// The error for a parse of `text` that stopped at `fragment`, its rest.
    pub fn new(text: &str, fragment: &str, message: String) -> (r: ParseError)
        requires
            fragment@.len() <= text@.len(),
            text@.skip(text@.len() - fragment@.len()) == fragment@,
        ensures
            (r.position.line as nat, r.position.column as nat) == position_after(
                text@.take(text@.len() - fragment@.len()),
            ),
            r.hint@ == hint_text(fragment@),
            r.message@ == message@,
    {
        let position = Position::of(text, fragment);
        let chars = chars_of(fragment);
        let mut k: usize = 0;
        while k < chars.len() && chars[k] != '\n'
            invariant
                k <= chars@.len(),
                chars@ == fragment@,
                forall|j: int| 0 <= j < k ==> chars@[j] != '\n',
            decreases chars.len() - k,
        {
            k = k + 1;
        }
        let mut end = k;
        if k < chars.len() {
            assert(chars@[k as int] == '\n');
            if k > 0 && chars[k - 1] == '\r' {
                end = k - 1;
            }
        }
        let ghost f = fragment@;
        proof {
            if k < f.len() {
                let e = choose|x: int|
                    0 <= x < f.len() && f[x] == '\n' && forall|j: int| 0 <= j < x ==> f[j] != '\n';
                assert(f[k as int] == '\n');
                if e != k {
                    if e < k {
                        assert(f[e] != '\n');
                    } else {
                        assert(f[k as int] != '\n');
                    }
                }
            } else {
                assert(!exists|x: int| 0 <= x < f.len() && f[x] == '\n');
            }
        }
        let stop = if end <= 10 {
            end
        } else {
            10
        };
        let mut hint = String::new();
        let mut j: usize = 0;
        while j < stop
            invariant
                j <= stop <= end <= chars@.len(),
                chars@ == fragment@,
                hint@ == fragment@.take(j as int),
            decreases stop - j,
        {
            assert(fragment@.take(j + 1) =~= hint@.push(chars@[j as int]));
            push_char(&mut hint, chars[j]);
            j = j + 1;
        }
        proof {
            let l = first_line(f);
            if k < f.len() {
                assert(l =~= f.take(end as int));
            } else {
                assert(l =~= f);
                assert(f.take(end as int) =~= f);
            }
            if end <= 10 {
                assert(f.take(stop as int) =~= l);
            } else {
                assert(f.take(stop as int) =~= l.take(10));
            }
        }
        hint.append("...");
        ParseError { position, hint, message }
    }
}

} // verus!
