use commitlint::git::CommitObject;

fn field(name: &str, value: &str) -> (Vec<u8>, Vec<u8>) {
    (name.as_bytes().to_vec(), value.as_bytes().to_vec())
}

#[test]
fn parse_reads_the_fields_and_the_message() {
    let commit = CommitObject::parse(b"tree X\nparent Y\n\nSubject line").unwrap();
    assert_eq!(commit.header, vec![field("tree", "X"), field("parent", "Y")]);
    assert_eq!(commit.message, b"Subject line");
}

#[test]
fn parse_folds_continuation_lines() {
    let commit = CommitObject::parse(b"parent A\n B\n\n").unwrap();
    assert_eq!(commit.header, vec![field("parent", "A\nB")]);
    assert_eq!(commit.message, b"");

    let commit = CommitObject::parse(
        b"tree 1\ngpgsig -----BEGIN\n \n line one\n  line two\n -----END\nauthor me\n\nmsg\n",
    )
    .unwrap();
    assert_eq!(
        commit.header,
        vec![
            field("tree", "1"),
            field("gpgsig", "-----BEGIN\n\nline one\n line two\n-----END"),
            field("author", "me"),
        ]
    );
    assert_eq!(commit.message, b"msg\n");
}

#[test]
fn parse_keeps_the_message_as_it_is() {
    let commit = CommitObject::parse(b"tree X\n\n").unwrap();
    assert_eq!(commit.header, vec![field("tree", "X")]);
    assert_eq!(commit.message, b"");

    let commit = CommitObject::parse(b"tree X\n\n\n first\r\nsecond \xff\n\n").unwrap();
    assert_eq!(commit.message, b"\n first\r\nsecond \xff\n\n");
}

#[test]
fn parse_takes_an_object_without_fields() {
    let commit = CommitObject::parse(b"\nmessage").unwrap();
    assert_eq!(commit.header, vec![]);
    assert_eq!(commit.message, b"message");

    let commit = CommitObject::parse(b"\n").unwrap();
    assert_eq!(commit.header, vec![]);
    assert_eq!(commit.message, b"");
}

#[test]
fn parse_keeps_order_and_duplicates() {
    let commit = CommitObject::parse(b"parent B\nparent A\nparent B\n\n").unwrap();
    assert_eq!(
        commit.header,
        vec![field("parent", "B"), field("parent", "A"), field("parent", "B")]
    );
}

#[test]
fn parse_splits_at_the_first_space() {
    let commit = CommitObject::parse(b"author A U Thor <a@b> 1 +0000\nempty \n\n").unwrap();
    assert_eq!(
        commit.header,
        vec![field("author", "A U Thor <a@b> 1 +0000"), field("empty", "")]
    );
}

#[test]
fn parse_takes_a_first_line_with_a_space_in_front_as_a_field() {
    let commit = CommitObject::parse(b" value\n more\n\nmsg").unwrap();
    assert_eq!(commit.header, vec![field("", "value\nmore")]);
    assert_eq!(commit.message, b"msg");
}

#[test]
fn parse_fails_without_the_empty_line() {
    assert!(CommitObject::parse(b"").is_none());
    assert!(CommitObject::parse(b"tree X").is_none());
    assert!(CommitObject::parse(b"tree X\n").is_none());
    assert!(CommitObject::parse(b"tree X\nparent Y\n").is_none());
    assert!(CommitObject::parse(b"tree X\nparent Y").is_none());
    assert!(CommitObject::parse(b"tree X\n continued").is_none());
    assert!(CommitObject::parse(b"tree X\n continued\n").is_none());
}

#[test]
fn parse_fails_on_a_field_without_a_space() {
    assert!(CommitObject::parse(b"tree\n\nmessage").is_none());
    assert!(CommitObject::parse(b"tree X\nparent\n\nmessage").is_none());
    assert!(CommitObject::parse(b"tree X\n y\nparent\n\nmessage").is_none());
    assert!(CommitObject::parse(b"\r\n\nmessage").is_none());
}
