//! The rules for commit messages, and the test of a message against them.

use crate::bytes::starts_with;
use crate::header::{lemma_type_len_bound, parse_header, parse_header_line};
use crate::text::{
    chars_eq, chars_eq_str, chars_of, lemma_first_line_is_prefix, lines, lowercase, lowercased,
    slice_views, split_lines, starts_with_str, text_of, trim, trim_start, trimmed,
    trimmed_start,
};
use vstd::prelude::*;
use vstd::slice::slice_subrange;
use vstd::string::StringExecFns;
use vstd::utf8::{decode_utf8, encode_utf8, valid_utf8};

verus! {

/// A rule that a commit message breaks.
#[derive(Debug, PartialEq, Eq)]
pub enum MessageError {
    /// The message is not well-formed UTF-8.
    NotUtf8,
    /// The first line is not of the form `type(scope)!: subject`.
    HeaderNotFormatted,
    /// The subject follows the colon without a space between them.
    HeaderNoSpaceAfterColon,
    /// The type has a capital letter.
    HeaderTypeNotLower,
    /// The type, which this value holds as it is written, is none of the
    /// known ones.
    HeaderUnknownType(String),
    /// The subject begins or ends with white space.
    HeaderSubjectNotTrimmed,
    /// The subject ends with a full stop or begins with a personal pronoun.
    HeaderSubjectMustNotASentence,
    /// The subject is empty.
    HeaderSubjectEmpty,
    /// The second line is not empty.
    NoEmptyLineBeforeBody,
    /// A footer announces a breaking change and the first line has no `!`.
    NoBangInBreakingChangeCommit,
}

/// A [`MessageError`] with the text that it holds as a sequence of characters.
pub enum MessageErrorView {
    NotUtf8,
    HeaderNotFormatted,
    HeaderNoSpaceAfterColon,
    HeaderTypeNotLower,
    HeaderUnknownType(Seq<char>),
    HeaderSubjectNotTrimmed,
    HeaderSubjectMustNotASentence,
    HeaderSubjectEmpty,
    NoEmptyLineBeforeBody,
    NoBangInBreakingChangeCommit,
}

impl View for MessageError {
    type V = MessageErrorView;

    open spec fn view(&self) -> MessageErrorView {
        match self {
            MessageError::NotUtf8 => MessageErrorView::NotUtf8,
            MessageError::HeaderNotFormatted => MessageErrorView::HeaderNotFormatted,
            MessageError::HeaderNoSpaceAfterColon => MessageErrorView::HeaderNoSpaceAfterColon,
            MessageError::HeaderTypeNotLower => MessageErrorView::HeaderTypeNotLower,
            MessageError::HeaderUnknownType(ty) => MessageErrorView::HeaderUnknownType(ty@),
            MessageError::HeaderSubjectNotTrimmed => MessageErrorView::HeaderSubjectNotTrimmed,
            MessageError::HeaderSubjectMustNotASentence => {
                MessageErrorView::HeaderSubjectMustNotASentence
            },
            MessageError::HeaderSubjectEmpty => MessageErrorView::HeaderSubjectEmpty,
            MessageError::NoEmptyLineBeforeBody => MessageErrorView::NoEmptyLineBeforeBody,
            MessageError::NoBangInBreakingChangeCommit => {
                MessageErrorView::NoBangInBreakingChangeCommit
            },
        }
    }
}

impl DeepView for MessageError {
    type V = MessageErrorView;

    open spec fn deep_view(&self) -> MessageErrorView {
        self@
    }
}

impl MessageErrorView {
    /// The sentence that tells a reader of the broken rule.
    pub open spec fn text(self) -> Seq<char> {
        match self {
            MessageErrorView::NotUtf8 => "commit message is not utf8"@,
            MessageErrorView::HeaderNotFormatted => "commit first line is not formatted"@,
            MessageErrorView::HeaderNoSpaceAfterColon => "no space after ':'"@,
            MessageErrorView::HeaderTypeNotLower => "commit type is not lowercase"@,
            MessageErrorView::HeaderUnknownType(ty) => "unknown header type: "@ + ty,
            MessageErrorView::HeaderSubjectNotTrimmed => "commit subject contains extra spaces"@,
            MessageErrorView::HeaderSubjectMustNotASentence => {
                "commit subject seems like a sentence"@
            },
            MessageErrorView::HeaderSubjectEmpty => "commit subject is empty"@,
            MessageErrorView::NoEmptyLineBeforeBody => "there is no empty line before body"@,
            MessageErrorView::NoBangInBreakingChangeCommit => {
                "no '!' in first line in breaking change commit"@
            },
        }
    }
}

impl MessageError {
    /// Tells a reader of the broken rule.
    pub fn to_string(&self) -> (r: String)
        ensures
            r@ == self@.text(),
    {
        match self {
            MessageError::NotUtf8 => "commit message is not utf8".to_owned(),
            MessageError::HeaderNotFormatted => "commit first line is not formatted".to_owned(),
            MessageError::HeaderNoSpaceAfterColon => "no space after ':'".to_owned(),
            MessageError::HeaderTypeNotLower => "commit type is not lowercase".to_owned(),
            MessageError::HeaderUnknownType(ty) => {
                let mut text = "unknown header type: ".to_owned();
                text.append(ty.as_str());
                text
            },
            MessageError::HeaderSubjectNotTrimmed => {
                "commit subject contains extra spaces".to_owned()
            },
            MessageError::HeaderSubjectMustNotASentence => {
                "commit subject seems like a sentence".to_owned()
            },
            MessageError::HeaderSubjectEmpty => "commit subject is empty".to_owned(),
            MessageError::NoEmptyLineBeforeBody => "there is no empty line before body".to_owned(),
            MessageError::NoBangInBreakingChangeCommit => {
                "no '!' in first line in breaking change commit".to_owned()
            },
        }
    }
}

/// The beginnings of the messages that git writes by itself for merges and
/// reverts, and of those that are written for merged pull requests.
pub open spec fn exempt_prefixes() -> Seq<Seq<char>> {
    seq![
        "Merge branch "@,
        "Merge branches "@,
        "Merge remote-tracking branch "@,
        "Merge remote-tracking branches "@,
        "Merge tag "@,
        "Merge tags "@,
        "Merge commit "@,
        "Merge commits "@,
        "Merge HEAD "@,
        "Revert \""@,
        "Merge pull request #"@,
    ]
}

/// Whether `message` begins with one of the exempt beginnings, in UTF-8. The
/// rules do not apply to such a message.
pub open spec fn is_exempt(message: Seq<u8>) -> bool {
    exists|i: int|
        0 <= i < exempt_prefixes().len() && encode_utf8(
            #[trigger] exempt_prefixes()[i],
        ).is_prefix_of(message)
}

/// Whether `ty` names one of the known kinds of change.
pub open spec fn is_known_type(ty: Seq<char>) -> bool {
    ||| ty == "build"@
    ||| ty == "chore"@
    ||| ty == "ci"@
    ||| ty == "docs"@
    ||| ty == "feat"@
    ||| ty == "fix"@
    ||| ty == "perf"@
    ||| ty == "refactor"@
    ||| ty == "revert"@
    ||| ty == "style"@
    ||| ty == "test"@
}

/// Whether `subject`, which is in lower case, reads like a sentence: it ends
/// with a full stop or begins with a personal pronoun.
pub open spec fn is_like_a_sentence(subject: Seq<char>) -> bool {
    ||| subject.len() > 0 && subject.last() == '.'
    ||| "i "@.is_prefix_of(subject)
    ||| "we "@.is_prefix_of(subject)
    ||| "you "@.is_prefix_of(subject)
}

/// Whether `line` announces a breaking change: after its leading white space
/// it begins with `BREAKING CHANGE` or with `BREAKING-CHANGE`.
pub open spec fn is_breaking_footer(line: Seq<char>) -> bool {
    let trimmed = trim_start(line);
    "BREAKING CHANGE"@.is_prefix_of(trimmed) || "BREAKING-CHANGE"@.is_prefix_of(trimmed)
}

/// Whether a line after the second one announces a breaking change.
pub open spec fn has_breaking_footer(lines: Seq<Seq<char>>) -> bool {
    exists|i: int| 2 <= i < lines.len() && is_breaking_footer(#[trigger] lines[i])
}

/// `error` alone where `broken` holds, and nothing where it does not.
pub open spec fn error_if(broken: bool, error: MessageErrorView) -> Seq<MessageErrorView> {
    if broken {
        seq![error]
    } else {
        Seq::empty()
    }
}

/// The rules that a subject breaks, in the order in which they are tested:
/// trimming its white space changes it; trimmed and in lower case it reads
/// like a sentence; trimmed it is empty.
pub open spec fn subject_errors(subject: Seq<char>) -> Seq<MessageErrorView> {
    let trimmed = trim(subject);
    error_if(trimmed != subject, MessageErrorView::HeaderSubjectNotTrimmed) + error_if(
        is_like_a_sentence(lowercase(trimmed)),
        MessageErrorView::HeaderSubjectMustNotASentence,
    ) + error_if(trimmed.len() == 0, MessageErrorView::HeaderSubjectEmpty)
}

/// The rules that a first line breaks, in the order in which they are tested.
///
/// Of a line that has the form of a header: its type is not in lower case;
/// its type in lower case is not known; something other than a space follows
/// the colon; then the rules that its subject breaks. A line that has not that
/// form breaks that rule, and then the rules that it breaks as a subject.
pub open spec fn header_errors(line: Seq<char>) -> Seq<MessageErrorView> {
    match parse_header_line(line) {
        Some(header) => error_if(
            header.normalized_type() != header.ty,
            MessageErrorView::HeaderTypeNotLower,
        ) + error_if(
            !is_known_type(header.normalized_type()),
            MessageErrorView::HeaderUnknownType(header.ty),
        ) + error_if(
            header.rest.len() > 0 && header.rest.first() != ' ',
            MessageErrorView::HeaderNoSpaceAfterColon,
        ) + subject_errors(header.subject()),
        None => seq![MessageErrorView::HeaderNotFormatted] + subject_errors(line),
    }
}

/// Whether the first line marks a breaking change, where it has the form of a
/// header.
pub open spec fn header_breaking(line: Seq<char>) -> Option<bool> {
    match parse_header_line(line) {
        Some(header) => Some(header.breaking),
        None => None,
    }
}

/// The first of `lines`, or the empty line where there is none.
pub open spec fn first_line(lines: Seq<Seq<char>>) -> Seq<char> {
    if lines.len() > 0 {
        lines.first()
    } else {
        Seq::empty()
    }
}

/// The rules that the lines after the first one break, in the order in which
/// they are tested: the second line is not empty; a later line announces a
/// breaking change although the first line is a header without a `!`.
/// `breaking` is what the first line says of a breaking change.
pub open spec fn body_errors(lines: Seq<Seq<char>>, breaking: Option<bool>) -> Seq<
    MessageErrorView,
> {
    if lines.len() <= 1 {
        Seq::empty()
    } else {
        error_if(lines[1].len() > 0, MessageErrorView::NoEmptyLineBeforeBody) + error_if(
            breaking == Some(false) && has_breaking_footer(lines),
            MessageErrorView::NoBangInBreakingChangeCommit,
        )
    }
}

/// The rules that a text breaks: those of its first line, then those of the
/// lines after it.
pub open spec fn text_errors(text: Seq<char>) -> Seq<MessageErrorView> {
    let lines = lines(text);
    header_errors(first_line(lines)) + body_errors(lines, header_breaking(first_line(lines)))
}

/// The rules that a commit message breaks, in the order in which they are
/// found. An exempt message breaks none, whatever it holds. A message that is
/// not well-formed UTF-8 breaks that rule alone.
pub open spec fn message_errors(message: Seq<u8>) -> Seq<MessageErrorView> {
    if is_exempt(message) {
        Seq::empty()
    } else if !valid_utf8(message) {
        seq![MessageErrorView::NotUtf8]
    } else {
        text_errors(decode_utf8(message))
    }
}

/// Tests whether `message` begins with one of the exempt beginnings.
pub fn message_is_exempt(message: &[u8]) -> (r: bool)
    ensures
        r == is_exempt(message@),
{
    let prefixes: [&str; 11] = [
        // merge: the titles that git writes for a merge
        "Merge branch ",
        "Merge branches ",
        "Merge remote-tracking branch ",
        "Merge remote-tracking branches ",
        "Merge tag ",
        "Merge tags ",
        "Merge commit ",
        "Merge commits ",
        "Merge HEAD ",
        // revert
        "Revert \"",
        // merge pull request
        "Merge pull request #",
    ];
    for i in 0..11
        invariant
            prefixes@.map_values(|p: &str| p@) == exempt_prefixes(),
            forall|j: int|
                0 <= j < i ==> !encode_utf8(#[trigger] exempt_prefixes()[j]).is_prefix_of(
                    message@,
                ),
    {
        if starts_with(message, prefixes[i].as_bytes()) {
            return true;
        }
    }
    false
}

/// Tests whether `ty`, in lower case, names one of the known kinds of change.
pub fn type_is_known(ty: &[char]) -> (r: bool)
    ensures
        r == is_known_type(ty@),
{
    chars_eq_str(ty, "build") || chars_eq_str(ty, "chore") || chars_eq_str(ty, "ci")
        || chars_eq_str(ty, "docs") || chars_eq_str(ty, "feat") || chars_eq_str(ty, "fix")
        || chars_eq_str(ty, "perf") || chars_eq_str(ty, "refactor") || chars_eq_str(ty, "revert")
        || chars_eq_str(ty, "style") || chars_eq_str(ty, "test")
}

/// Tests whether `subject`, in lower case, reads like a sentence.
pub fn subject_is_like_a_sentence(subject: &[char]) -> (r: bool)
    ensures
        r == is_like_a_sentence(subject@),
{
    (subject.len() > 0 && subject[subject.len() - 1] == '.') || starts_with_str(subject, "i ")
        || starts_with_str(subject, "we ") || starts_with_str(subject, "you ")
}

/// Tests whether `line` announces a breaking change.
pub fn line_is_breaking_footer(line: &[char]) -> (r: bool)
    ensures
        r == is_breaking_footer(line@),
{
    let trimmed = trimmed_start(line);
    starts_with_str(trimmed, "BREAKING CHANGE") || starts_with_str(trimmed, "BREAKING-CHANGE")
}

/// Appends to `errors` the rules that `subject` breaks.
pub fn check_subject(subject: &[char], errors: &mut Vec<MessageError>)
    ensures
        final(errors).deep_view() == old(errors).deep_view() + subject_errors(subject@),
{
    let trimmed_subject = trimmed(subject);
    if !chars_eq(trimmed_subject, subject) {
        errors.push(MessageError::HeaderSubjectNotTrimmed);
    }
    let lower_subject = lowercased(trimmed_subject);
    if subject_is_like_a_sentence(lower_subject.as_slice()) {
        errors.push(MessageError::HeaderSubjectMustNotASentence);
    }
    if lower_subject.len() == 0 {
        errors.push(MessageError::HeaderSubjectEmpty);
    }
}

/// Appends to `errors` the rules that the first line of a message breaks, and
/// returns whether the line marks a breaking change, where it has the form of
/// a header.
pub fn check_header(line: &str, errors: &mut Vec<MessageError>) -> (breaking: Option<bool>)
    ensures
        final(errors).deep_view() == old(errors).deep_view() + header_errors(line@),
        breaking == header_breaking(line@),
{
    let chars = chars_of(line);
    let parsed = parse_header(chars.as_slice());
    let subject;
    match &parsed {
        Some(header) => {
            let ty_lower = lowercased(header.ty);
            if !chars_eq(ty_lower.as_slice(), header.ty) {
                errors.push(MessageError::HeaderTypeNotLower);
            }
            if !type_is_known(ty_lower.as_slice()) {
                proof {
                    lemma_type_len_bound(line@);
                }
                let ty = line.substring_char(0, header.ty.len());
                errors.push(MessageError::HeaderUnknownType(ty.to_owned()));
            }
            if header.rest.len() == 0 {
                subject = header.rest;
            } else if header.rest[0] == ' ' {
                subject = slice_subrange(header.rest, 1, header.rest.len());
            } else {
                errors.push(MessageError::HeaderNoSpaceAfterColon);
                subject = header.rest;
            }
        },
        None => {
            errors.push(MessageError::HeaderNotFormatted);
            subject = chars.as_slice();
        },
    }
    check_subject(subject, errors);
    match parsed {
        Some(header) => Some(header.breaking),
        None => None,
    }
}

/// Lists the rules that a commit message breaks.
pub fn check_commit_message(title: &[u8]) -> (errors: Vec<MessageError>)
    ensures
        errors.deep_view() == message_errors(title@),
{
    if message_is_exempt(title) {
        return Vec::new();
    }
    let mut errors = Vec::new();
    let text = match text_of(title) {
        Some(text) => text,
        None => {
            errors.push(MessageError::NotUtf8);
            return errors;
        },
    };
    let chars = chars_of(text);
    let lines = split_lines(chars.as_slice());
    let first = if lines.len() > 0 {
        proof {
            lemma_first_line_is_prefix(text@);
        }
        text.substring_char(0, lines[0].len())
    } else {
        text
    };
    let is_breaking = check_header(first, &mut errors);
    if lines.len() <= 1 {
        return errors;
    }
    if lines[1].len() > 0 {
        errors.push(MessageError::NoEmptyLineBeforeBody);
    }
    if let Some(is_breaking) = is_breaking {
        let mut footer_breaking = false;
        for i in 2..lines.len()
            invariant
                2 <= lines@.len(),
                footer_breaking == exists|j: int|
                    2 <= j < i && is_breaking_footer(#[trigger] slice_views(lines@)[j]),
        {
            assert(slice_views(lines@)[i as int] == lines@[i as int]@);
            if line_is_breaking_footer(lines[i]) {
                footer_breaking = true;
            }
        }
        if footer_breaking && !is_breaking {
            errors.push(MessageError::NoBangInBreakingChangeCommit);
        }
    }
    errors
}

/// A message that begins with one of the exempt beginnings breaks no rule,
/// whatever follows that beginning.
pub proof fn lemma_exempt_message_breaks_no_rule(prefix: Seq<char>, rest: Seq<u8>)
    requires
        exempt_prefixes().contains(prefix),
    ensures
        message_errors(encode_utf8(prefix) + rest) == Seq::<MessageErrorView>::empty(),
{
    let i = choose|i: int| 0 <= i < exempt_prefixes().len() && exempt_prefixes()[i] == prefix;
}

/// A message that begins with `Merge branch `, with `Revert "` or with
/// `Merge pull request #` breaks no rule, whatever follows.
pub proof fn lemma_merge_and_revert_break_no_rule(rest: Seq<u8>)
    ensures
        message_errors(encode_utf8("Merge branch "@) + rest) == Seq::<MessageErrorView>::empty(),
        message_errors(encode_utf8("Revert \""@) + rest) == Seq::<MessageErrorView>::empty(),
        message_errors(encode_utf8("Merge pull request #"@) + rest) == Seq::<
            MessageErrorView,
        >::empty(),
{
    lemma_exempt_message_breaks_no_rule("Merge branch "@, rest);
    lemma_exempt_message_breaks_no_rule("Revert \""@, rest);
    lemma_exempt_message_breaks_no_rule("Merge pull request #"@, rest);
}

/// Two tests of one message list the same errors. So a message that was found
/// to break no rule is found to break none when it is tested again.
pub proof fn lemma_tested_again(
    message: Seq<u8>,
    first: Vec<MessageError>,
    second: Vec<MessageError>,
)
    requires
        first.deep_view() == message_errors(message),
        second.deep_view() == message_errors(message),
    ensures
        second.deep_view() == first.deep_view(),
        first@.len() == 0 ==> second@.len() == 0,
{
    assert(first.deep_view().len() == first@.len());
}

} // verus!
