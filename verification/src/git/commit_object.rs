//! Commit objects in the text form in which git stores them.

use crate::bytes::{find_byte, lemma_first_at};
use vstd::prelude::*;
use vstd::slice::{slice_subrange, slice_to_vec};

verus! {

/// The byte that ends a line.
pub const LINE_FEED: u8 = 0x0a;

/// The byte that separates a name from its value, and that begins a
/// continuation line.
pub const SPACE: u8 = 0x20;

/// A commit object: its header fields in the order in which they are written,
/// and its message.
#[derive(Debug)]
pub struct CommitObject {
    /// The fields as pairs of name and value. A name may occur more than once.
    pub header: Vec<(Vec<u8>, Vec<u8>)>,
    /// What follows the empty line that ends the header.
    pub message: Vec<u8>,
}

/// The contents of a [`CommitObject`].
pub struct CommitObjectView {
    pub header: Seq<(Seq<u8>, Seq<u8>)>,
    pub message: Seq<u8>,
}

impl View for CommitObject {
    type V = CommitObjectView;

    open spec fn view(&self) -> CommitObjectView {
        CommitObjectView { header: self.header.deep_view(), message: self.message@ }
    }
}

impl DeepView for CommitObject {
    type V = CommitObjectView;

    open spec fn deep_view(&self) -> CommitObjectView {
        self@
    }
}

/// Whether `name` can be written as the name of a field: it is not empty and
/// holds neither a space nor a line feed.
pub open spec fn is_field_name(name: Seq<u8>) -> bool {
    name.len() > 0 && !name.contains(SPACE) && !name.contains(LINE_FEED)
}

/// `value` with a space after each of its line feeds, so that what follows a
/// line feed reads as a continuation line.
pub open spec fn folded(value: Seq<u8>) -> Seq<u8>
    decreases value.len(),
{
    if value.len() == 0 {
        Seq::empty()
    } else if value.first() == LINE_FEED {
        seq![LINE_FEED, SPACE] + folded(value.drop_first())
    } else {
        seq![value.first()] + folded(value.drop_first())
    }
}

/// The lines that the fields `header` are written as.
pub open spec fn header_text(header: Seq<(Seq<u8>, Seq<u8>)>) -> Seq<u8>
    decreases header.len(),
{
    if header.len() == 0 {
        Seq::empty()
    } else {
        let (name, value) = header.first();
        name + seq![SPACE] + folded(value) + seq![LINE_FEED] + header_text(header.drop_first())
    }
}

impl CommitObjectView {
    /// Whether each field has a name that can be written.
    pub open spec fn well_formed(self) -> bool {
        forall|i: int| 0 <= i < self.header.len() ==> is_field_name((#[trigger] self.header[i]).0)
    }

    /// The text form: the lines of the fields, an empty line, and the message.
    pub open spec fn text(self) -> Seq<u8> {
        header_text(self.header) + seq![LINE_FEED] + self.message
    }
}

/// What stands before the first `b` in `s`, and what follows that `b`.
pub open spec fn split_once(s: Seq<u8>, b: u8) -> Option<(Seq<u8>, Seq<u8>)> {
    match s.index_of_first(b) {
        Some(i) => Some((s.take(i), s.skip(i + 1))),
        None => None,
    }
}

/// The commit object that `source` holds after the fields `header`, read line
/// by line.
///
/// An empty line ends the header, and the rest is the message. A line that
/// begins with a space continues the value of the field before it, where there
/// is one: the value grows by a line feed and the line without that space.
/// Any other line is a name, a space and a value. There is no commit object
/// where a line has no line feed at its end, or such a line has no space.
pub open spec fn parse_after(header: Seq<(Seq<u8>, Seq<u8>)>, source: Seq<u8>) -> Option<
    CommitObjectView,
>
    decreases source.len(),
{
    match split_once(source, LINE_FEED) {
        Some((line, rest)) => {
            proof {
                source.index_of_first_ensures(LINE_FEED);
            }
            if line.len() == 0 {
                Some(CommitObjectView { header, message: rest })
            } else if line.first() == SPACE && header.len() > 0 {
                let (name, value) = header.last();
                parse_after(
                    header.drop_last().push((name, value + seq![LINE_FEED] + line.drop_first())),
                    rest,
                )
            } else {
                match split_once(line, SPACE) {
                    Some((name, value)) => parse_after(header.push((name, value)), rest),
                    None => None,
                }
            }
        },
        None => None,
    }
}

/// The commit object that `source` holds.
pub open spec fn parse_commit(source: Seq<u8>) -> Option<CommitObjectView> {
    parse_after(Seq::empty(), source)
}

/// Splits `source` at the first `find`.
pub fn try_split(source: &[u8], find: u8) -> (r: Option<(&[u8], &[u8])>)
    ensures
        match r {
            Some((before, after)) => split_once(source@, find) == Some((before@, after@)),
            None => split_once(source@, find) is None,
        },
{
    let len = source.len();
    match find_byte(source, find) {
        Some(p) => Some((slice_subrange(source, 0, p), slice_subrange(source, p + 1, len))),
        None => None,
    }
}

impl CommitObject {
    /// Reads a commit object from its text form.
    pub fn parse(source: &[u8]) -> (r: Option<CommitObject>)
        ensures
            r.deep_view() == parse_commit(source@),
    {
        let mut unread = source;
        let mut header: Vec<(Vec<u8>, Vec<u8>)> = Vec::new();
        assert(header.deep_view() =~= Seq::empty());
        loop
            invariant_except_break
                parse_commit(source@) == parse_after(header.deep_view(), unread@),
                header@.len() > 0 && unread@.len() > 0 ==> unread@.first() != SPACE,
            ensures
                parse_commit(source@) == Some(
                    CommitObjectView { header: header.deep_view(), message: unread@ },
                ),
            decreases unread@.len(),
        {
            proof {
                unread@.index_of_first_ensures(LINE_FEED);
            }
            let ghost fields = header.deep_view();
            let ghost unread_before = unread@.len();
            let (line, rest) = match try_split(unread, LINE_FEED) {
                Some(parts) => parts,
                None => {
                    return None;
                },
            };
            unread = rest;
            if line.len() == 0 {
                break;
            }
            let (name, value) = match try_split(line, SPACE) {
                Some(parts) => parts,
                None => {
                    return None;
                },
            };
            let name = slice_to_vec(name);
            let mut value = slice_to_vec(value);
            while unread.len() > 0 && unread[0] == SPACE
                invariant
                    parse_commit(source@) == parse_after(fields.push((name@, value@)), unread@),
                    unread@.len() < unread_before,
                decreases unread@.len(),
            {
                proof {
                    unread@.index_of_first_ensures(LINE_FEED);
                }
                let (line, rest) = match try_split(unread, LINE_FEED) {
                    Some(parts) => parts,
                    None => {
                        return None;
                    },
                };
                let ghost value_before = value@;
                let ghost folded = value@ + seq![LINE_FEED] + line@.drop_first();
                unread = rest;
                value.push(LINE_FEED);
                value.extend_from_slice(slice_subrange(line, 1, line.len()));
                assert(value@ =~= folded);
                assert(fields.push((name@, folded)) =~= fields.push(
                    (name@, value_before),
                ).drop_last().push((name@, folded)));
            }
            header.push((name, value));
            assert(header.deep_view() =~~= fields.push((name@, value@)));
        }
        let message = slice_to_vec(unread);
        Some(CommitObject { header, message })
    }
}

/// The number of bytes of `value` before its first line feed.
spec fn first_line_len(value: Seq<u8>) -> int {
    match value.index_of_first(LINE_FEED) {
        Some(n) => n,
        None => value.len() as int,
    }
}

/// What stands before the first line feed of a value is written as it is.
proof fn lemma_folded_first_line(value: Seq<u8>, n: int)
    requires
        0 <= n <= value.len(),
        forall|j: int| 0 <= j < n ==> value[j] != LINE_FEED,
    ensures
        folded(value) == value.take(n) + folded(value.skip(n)),
    decreases n,
{
    if n == 0 {
        assert(value.skip(0) =~= value);
    } else {
        let rest = value.drop_first();
        lemma_folded_first_line(rest, n - 1);
        assert(rest.skip(n - 1) =~= value.skip(n));
    }
}

/// What stands before the first line feed of `value`, and whether a line feed
/// stands there or the value ends.
proof fn lemma_first_line(value: Seq<u8>)
    ensures
        0 <= first_line_len(value) <= value.len(),
        forall|j: int| 0 <= j < first_line_len(value) ==> value[j] != LINE_FEED,
        first_line_len(value) < value.len() ==> value[first_line_len(value)] == LINE_FEED,
{
    value.index_of_first_ensures(LINE_FEED);
}

/// A continuation of the last field is taken into its value: after the field
/// `(name, value)`, the lines of `more` behind a space are read as a line feed
/// and `more` at the end of the value.
proof fn lemma_continuation_is_folded(
    header: Seq<(Seq<u8>, Seq<u8>)>,
    name: Seq<u8>,
    value: Seq<u8>,
    more: Seq<u8>,
    rest: Seq<u8>,
)
    ensures
        parse_after(
            header.push((name, value)),
            seq![SPACE] + folded(more) + seq![LINE_FEED] + rest,
        ) == parse_after(header.push((name, value + seq![LINE_FEED] + more)), rest),
    decreases more.len(),
{
    let n = first_line_len(more);
    lemma_first_line(more);
    lemma_folded_first_line(more, n);
    let source = seq![SPACE] + folded(more) + seq![LINE_FEED] + rest;
    let fields = header.push((name, value));
    let line = seq![SPACE] + more.take(n);
    let value_then = value + seq![LINE_FEED] + more.take(n);
    assert(line.drop_first() =~= more.take(n));
    assert(fields.drop_last() =~= header);
    if n == more.len() {
        assert(more.take(n) =~= more);
        lemma_first_at(source, LINE_FEED, n + 1);
        assert(source.take(n + 1) =~= line);
        assert(source.skip(n + 2) =~= rest);
    } else {
        let after = more.skip(n + 1);
        assert(more.skip(n).drop_first() =~= after);
        let unread = seq![SPACE] + folded(after) + seq![LINE_FEED] + rest;
        lemma_first_at(source, LINE_FEED, n + 1);
        assert(source.take(n + 1) =~= line);
        assert(source.skip(n + 2) =~= unread);
        lemma_continuation_is_folded(header, name, value_then, after, rest);
        assert(value_then + seq![LINE_FEED] + after =~= value + seq![LINE_FEED] + more);
    }
}

/// A field is read as it was written: the lines of the field `(name, value)`
/// add that field to the header.
proof fn lemma_field_is_read(
    header: Seq<(Seq<u8>, Seq<u8>)>,
    name: Seq<u8>,
    value: Seq<u8>,
    rest: Seq<u8>,
)
    requires
        is_field_name(name),
    ensures
        parse_after(header, name + seq![SPACE] + folded(value) + seq![LINE_FEED] + rest)
            == parse_after(header.push((name, value)), rest),
{
    let n = first_line_len(value);
    lemma_first_line(value);
    lemma_folded_first_line(value, n);
    let source = name + seq![SPACE] + folded(value) + seq![LINE_FEED] + rest;
    let line = name + seq![SPACE] + value.take(n);
    let end = name.len() + 1 + n;
    if n == value.len() {
        assert(value.take(n) =~= value);
        assert(source.skip(end + 1) =~= rest);
    } else {
        let after = value.skip(n + 1);
        assert(value.skip(n).drop_first() =~= after);
        let unread = seq![SPACE] + folded(after) + seq![LINE_FEED] + rest;
        assert(source.skip(end + 1) =~= unread);
        lemma_continuation_is_folded(header, name, value.take(n), after, rest);
        assert(value.take(n) + seq![LINE_FEED] + after =~= value);
    }
    lemma_first_at(source, LINE_FEED, end);
    assert(source.take(end) =~= line);
    lemma_first_at(line, SPACE, name.len() as int);
    assert(line.take(name.len() as int) =~= name);
    assert(line.skip(name.len() as int + 1) =~= value.take(n));
}

/// Fields that are written after the fields `header` are read after them.
proof fn lemma_fields_are_read(
    header: Seq<(Seq<u8>, Seq<u8>)>,
    more: Seq<(Seq<u8>, Seq<u8>)>,
    message: Seq<u8>,
)
    requires
        forall|i: int| 0 <= i < more.len() ==> is_field_name((#[trigger] more[i]).0),
    ensures
        parse_after(header, header_text(more) + seq![LINE_FEED] + message) == Some(
            CommitObjectView { header: header + more, message },
        ),
    decreases more.len(),
{
    let source = header_text(more) + seq![LINE_FEED] + message;
    if more.len() == 0 {
        lemma_first_at(source, LINE_FEED, 0);
        assert(source.skip(1) =~= message);
    } else {
        let (name, value) = more.first();
        let rest = header_text(more.drop_first()) + seq![LINE_FEED] + message;
        assert(source =~= name + seq![SPACE] + folded(value) + seq![LINE_FEED] + rest);
        lemma_field_is_read(header, name, value, rest);
        lemma_fields_are_read(header.push((name, value)), more.drop_first(), message);
        assert(header.push((name, value)) + more.drop_first() =~= header + more);
    }
}

/// A commit object is read as it was written: the text form of a commit
/// object whose fields have names that can be written holds that commit
/// object.
pub proof fn lemma_text_is_parsed(commit: CommitObjectView)
    requires
        commit.well_formed(),
    ensures
        parse_commit(commit.text()) == Some(commit),
{
    lemma_fields_are_read(Seq::empty(), commit.header, commit.message);
}

} // verus!
