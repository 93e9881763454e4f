//! The form of the first line of a commit message: `type(scope)!: subject`.

use crate::text::{find_char, lowercase};
use vstd::prelude::*;
use vstd::slice::slice_subrange;

verus! {

/// Whether `c` may stand in a type: an ASCII letter, a digit or a hyphen.
pub open spec fn is_type_char(c: char) -> bool {
    ||| 'a' <= c <= 'z'
    ||| 'A' <= c <= 'Z'
    ||| '0' <= c <= '9'
    ||| c == '-'
}

/// The number of characters at the start of `line` that may stand in a type.
pub open spec fn type_len(line: Seq<char>) -> nat
    decreases line.len(),
{
    if line.len() > 0 && is_type_char(line.first()) {
        1 + type_len(line.drop_first())
    } else {
        0
    }
}

/// The parts of a first line of the form `type(scope)!: subject`.
pub struct HeaderLine {
    /// The type, as it is written.
    pub ty: Seq<char>,
    /// What stands between the brackets, where there are brackets.
    pub scope: Option<Seq<char>>,
    /// Whether a `!` stands before the colon.
    pub breaking: bool,
    /// What follows the colon.
    pub rest: Seq<char>,
}

impl HeaderLine {
    /// The line that these parts make up: the type, the scope in brackets
    /// where there is one, a `!` where the change is breaking, a colon, and
    /// the rest.
    pub open spec fn line(self) -> Seq<char> {
        self.ty + (match self.scope {
            Some(scope) => seq!['('] + scope + seq![')'],
            None => Seq::empty(),
        }) + (if self.breaking {
            seq!['!']
        } else {
            Seq::empty()
        }) + seq![':'] + self.rest
    }

    /// Whether the type is not empty and made of type characters, and the scope
    /// holds no closing bracket.
    pub open spec fn well_formed(self) -> bool {
        &&& self.ty.len() > 0
        &&& forall|i: int| 0 <= i < self.ty.len() ==> is_type_char(#[trigger] self.ty[i])
        &&& self.scope matches Some(scope) ==> !scope.contains(')')
    }

    /// The type in lower case.
    pub open spec fn normalized_type(self) -> Seq<char> {
        lowercase(self.ty)
    }

    /// The subject as it is written: what follows the colon, without the one
    /// space that separates the two.
    pub open spec fn subject(self) -> Seq<char> {
        if self.rest.len() > 0 && self.rest.first() == ' ' {
            self.rest.drop_first()
        } else {
            self.rest
        }
    }
}

/// The scope at the start of `s`, where `s` begins with an opening bracket,
/// and what follows the scope. `None` where the bracket is not closed.
pub open spec fn split_scope(s: Seq<char>) -> Option<(Option<Seq<char>>, Seq<char>)> {
    if s.len() > 0 && s.first() == '(' {
        match s.drop_first().index_of_first(')') {
            Some(n) => Some((Some(s.subrange(1, n + 1)), s.skip(n + 2))),
            None => None,
        }
    } else {
        Some((None, s))
    }
}

/// The parts of `line`, where it has the form `type(scope)!: subject`: a type
/// of one or more type characters, a scope in brackets or none, a `!` or none,
/// a colon, and the rest. `None` where it has not that form.
///
/// [`lemma_parts_make_the_line`] and [`lemma_line_of_parts_is_parsed`] say
/// the same by [`HeaderLine::line`].
pub open spec fn parse_header_line(line: Seq<char>) -> Option<HeaderLine> {
    let n = type_len(line) as int;
    if n == 0 {
        None
    } else {
        match split_scope(line.skip(n)) {
            Some((scope, after)) => {
                let breaking = after.len() > 0 && after.first() == '!';
                let colon = if breaking {
                    after.drop_first()
                } else {
                    after
                };
                if colon.len() > 0 && colon.first() == ':' {
                    Some(HeaderLine { ty: line.take(n), scope, breaking, rest: colon.drop_first() })
                } else {
                    None
                }
            },
            None => None,
        }
    }
}

/// The parts of a first line, as slices of that line.
#[derive(Debug)]
pub struct ParsedHeaderLine<'a> {
    /// The type, as it is written.
    pub ty: &'a [char],
    /// What stands between the brackets, where there are brackets.
    pub scope: Option<&'a [char]>,
    /// Whether a `!` stands before the colon.
    pub breaking: bool,
    /// What follows the colon.
    pub rest: &'a [char],
}

impl<'a> View for ParsedHeaderLine<'a> {
    type V = HeaderLine;

    open spec fn view(&self) -> HeaderLine {
        HeaderLine {
            ty: self.ty@,
            scope: match self.scope {
                Some(scope) => Some(scope@),
                None => None,
            },
            breaking: self.breaking,
            rest: self.rest@,
        }
    }
}

impl<'a> DeepView for ParsedHeaderLine<'a> {
    type V = HeaderLine;

    open spec fn deep_view(&self) -> HeaderLine {
        self@
    }
}

/// Tests whether `c` may stand in a type.
pub fn char_is_type_char(c: char) -> (r: bool)
    ensures
        r == is_type_char(c),
{
    ('a' <= c && c <= 'z') || ('A' <= c && c <= 'Z') || ('0' <= c && c <= '9') || c == '-'
}

/// Counts the type characters at the start of `line`.
pub fn scan_type(line: &[char]) -> (n: usize)
    ensures
        n == type_len(line@),
        n <= line@.len(),
{
    let mut n: usize = 0;
    assert(line@.skip(0) == line@);
    while n < line.len() && char_is_type_char(line[n])
        invariant
            n <= line.len(),
            type_len(line@) == n + type_len(line@.skip(n as int)),
        decreases line.len() - n,
    {
        assert(line@.skip(n as int).drop_first() == line@.skip(n + 1));
        n += 1;
    }
    n
}

/// Splits a first line into its parts.
pub fn parse_header<'a>(line: &'a [char]) -> (r: Option<ParsedHeaderLine<'a>>)
    ensures
        r.deep_view() == parse_header_line(line@),
{
    let n = scan_type(line);
    if n == 0 {
        return None;
    }
    let ty = slice_subrange(line, 0, n);
    let mut rest = slice_subrange(line, n, line.len());
    let ghost after_type = rest@;
    let scope;
    if rest.len() > 0 && rest[0] == '(' {
        rest = slice_subrange(rest, 1, rest.len());
        match find_char(rest, ')') {
            Some(close) => {
                scope = Some(slice_subrange(rest, 0, close));
                rest = slice_subrange(rest, close + 1, rest.len());
                assert(scope.unwrap()@ =~= after_type.subrange(1, close + 1));
                assert(rest@ =~= after_type.skip(close + 2));
            },
            None => {
                return None;
            },
        }
    } else {
        scope = None;
    }
    let breaking;
    if rest.len() > 0 && rest[0] == '!' {
        breaking = true;
        rest = slice_subrange(rest, 1, rest.len());
    } else {
        breaking = false;
    }
    if !(rest.len() > 0 && rest[0] == ':') {
        return None;
    }
    rest = slice_subrange(rest, 1, rest.len());
    Some(ParsedHeaderLine { ty, scope, breaking, rest })
}

/// The type characters at the start of a line are a part of the line.
pub proof fn lemma_type_len_bound(line: Seq<char>)
    ensures
        type_len(line) <= line.len(),
    decreases line.len(),
{
    if line.len() > 0 && is_type_char(line.first()) {
        lemma_type_len_bound(line.drop_first());
    }
}

/// The first `type_len(line)` characters of a line are type characters, and
/// the one that follows them, if any, is none.
pub proof fn lemma_type_chars(line: Seq<char>)
    ensures
        forall|i: int| 0 <= i < type_len(line) ==> is_type_char(#[trigger] line[i]),
        type_len(line) < line.len() ==> !is_type_char(line[type_len(line) as int]),
    decreases line.len(),
{
    lemma_type_len_bound(line);
    if line.len() > 0 && is_type_char(line.first()) {
        let rest = line.drop_first();
        lemma_type_chars(rest);
        lemma_type_len_bound(rest);
        assert forall|i: int| 0 <= i < type_len(line) implies is_type_char(
            #[trigger] line[i],
        ) by {
            if i > 0 {
                assert(line[i] == rest[i - 1]);
            }
        }
    }
}

/// Where the first `n` characters of a line are type characters and the one
/// that follows them, if any, is none, `type_len(line)` is `n`.
pub proof fn lemma_type_len_is(line: Seq<char>, n: nat)
    requires
        n <= line.len(),
        forall|i: int| 0 <= i < n ==> is_type_char(#[trigger] line[i]),
        n < line.len() ==> !is_type_char(line[n as int]),
    ensures
        type_len(line) == n,
    decreases n,
{
    if n > 0 {
        lemma_type_len_is(line.drop_first(), (n - 1) as nat);
    }
}

/// The parts that a line is split into are well formed, and they make up the
/// line.
pub proof fn lemma_parts_make_the_line(line: Seq<char>)
    requires
        parse_header_line(line) is Some,
    ensures
        parse_header_line(line).unwrap().well_formed(),
        parse_header_line(line).unwrap().line() == line,
{
    lemma_type_len_bound(line);
    lemma_type_chars(line);
    line.skip(type_len(line) as int).drop_first().index_of_first_ensures(')');
}

/// A line that is made up of well-formed parts is split into those parts.
pub proof fn lemma_line_of_parts_is_parsed(header: HeaderLine)
    requires
        header.well_formed(),
    ensures
        parse_header_line(header.line()) == Some(header),
{
    let line = header.line();
    let after_type = line.skip(header.ty.len() as int);
    assert(line.take(header.ty.len() as int) =~= header.ty);
    lemma_type_len_is(line, header.ty.len());
    match header.scope {
        Some(scope) => {
            let inner = after_type.drop_first();
            inner.index_of_first_ensures(')');
            assert(inner[scope.len() as int] == ')');
            let n = inner.index_of_first(')').unwrap();
            assert(after_type.subrange(1, n + 1) =~= scope);
            let after = after_type.skip(n + 2);
            if header.breaking {
                assert(after.drop_first().drop_first() =~= header.rest);
            } else {
                assert(after.drop_first() =~= header.rest);
            }
        },
        None => {
            if header.breaking {
                assert(after_type.drop_first().drop_first() =~= header.rest);
            } else {
                assert(after_type.drop_first() =~= header.rest);
            }
        },
    }
}

} // verus!
