use stgit::headers::{
    classify_line, eq_ignore_case, find_first, parse_name_email, strip_prefix, HeaderError,
    Headers, MessageLine,
};

fn some(text: &str) -> Option<String> {
    Some(text.to_string())
}

#[test]
fn mailinfo_block_gives_the_four_headers() {
    let block = b"Author: A U Thor\nEmail: author@example.com\nSubject: Fix the thing\nDate: Thu, 7 Apr 2005 15:13:13 -0700\n\n";
    let headers = Headers::parse_mailinfo(block).unwrap().unwrap();
    assert_eq!(
        headers,
        Headers {
            patchname: None,
            author_name: some("A U Thor"),
            author_email: some("author@example.com"),
            author_date: some("Thu, 7 Apr 2005 15:13:13 -0700"),
            subject: some("Fix the thing"),
        }
    );
}

#[test]
fn mailinfo_block_without_headers_gives_none() {
    assert_eq!(Headers::parse_mailinfo(b""), Ok(None));
    assert_eq!(Headers::parse_mailinfo(b"\n\n\n"), Ok(None));
}

#[test]
fn mailinfo_block_with_one_header_gives_it() {
    let headers = Headers::parse_mailinfo(b"Subject: only this").unwrap().unwrap();
    assert_eq!(headers.subject, some("only this"));
    assert_eq!(headers.author_name, None);
    assert_eq!(headers.author_email, None);
    assert_eq!(headers.author_date, None);
    assert_eq!(headers.patchname, None);
}

#[test]
fn mailinfo_lines_may_end_with_carriage_return() {
    let headers = Headers::parse_mailinfo(b"Author: A\r\nEmail: a@b\r\n").unwrap().unwrap();
    assert_eq!(headers.author_name, some("A"));
    assert_eq!(headers.author_email, some("a@b"));
}

#[test]
fn mailinfo_value_is_what_follows_the_first_separator() {
    let headers = Headers::parse_mailinfo(b"Subject: re: fix: more\n").unwrap().unwrap();
    assert_eq!(headers.subject, some("re: fix: more"));
}

#[test]
fn mailinfo_later_header_wins() {
    let headers = Headers::parse_mailinfo(b"Subject: one\nSubject: two\n").unwrap().unwrap();
    assert_eq!(headers.subject, some("two"));
}

#[test]
fn mailinfo_header_names_are_exact() {
    assert_eq!(Headers::parse_mailinfo(b"author: A\n"), Err(HeaderError::UnknownHeader));
    assert_eq!(Headers::parse_mailinfo(b"From: A\n"), Err(HeaderError::UnknownHeader));
    assert_eq!(
        Headers::parse_mailinfo(b"Author: A\nMessage-Id: <1@x>\n"),
        Err(HeaderError::UnknownHeader)
    );
}

#[test]
fn mailinfo_line_needs_a_separator() {
    assert_eq!(Headers::parse_mailinfo(b"Author\n"), Err(HeaderError::MissingSeparator));
    assert_eq!(Headers::parse_mailinfo(b"Author:A\n"), Err(HeaderError::MissingSeparator));
    assert_eq!(Headers::parse_mailinfo(b" \n"), Err(HeaderError::MissingSeparator));
}

#[test]
fn mailinfo_value_that_is_not_text_is_passed_over() {
    let headers = Headers::parse_mailinfo(b"Author: \xff\xfe\nEmail: a@b\n").unwrap().unwrap();
    assert_eq!(headers.author_name, None);
    assert_eq!(headers.author_email, some("a@b"));
    assert_eq!(Headers::parse_mailinfo(b"Author: \xff\n"), Ok(None));
}

#[test]
fn message_headers_are_read_down_to_the_subject() {
    let message = b"\n\nPatch: my-patch\nFrom: A U Thor <author@example.com>\nDate: 2005-04-07\n\nSubject line\n\nBody line 1\nBody line 2\n";
    let (headers, body) = Headers::parse_message(message).unwrap();
    assert_eq!(
        headers,
        Headers {
            patchname: some("my-patch"),
            author_name: some("A U Thor"),
            author_email: some("author@example.com"),
            author_date: some("2005-04-07"),
            subject: some("Subject line"),
        }
    );
    assert_eq!(body, b"\nBody line 1\nBody line 2\n".to_vec());
}

#[test]
fn message_header_keys_count_whatever_their_case() {
    let (headers, body) =
        Headers::parse_message(b"PATCH: p\nauthor: N <e>\nDATE:x\nsubject\n").unwrap();
    assert_eq!(headers.patchname, some("p"));
    assert_eq!(headers.author_name, some("N"));
    assert_eq!(headers.author_email, some("e"));
    assert_eq!(headers.author_date, some("x"));
    assert_eq!(headers.subject, some("subject"));
    assert_eq!(body, Vec::<u8>::new());
}

#[test]
fn message_from_git_show_loses_its_indentation() {
    let message = b"commit 0123456789abcdef\nAuthor: A <a@b>\nDate:   Mon Apr 4\n\n    Subject here\n\n    Body\n      indented more\n  and less\n";
    let (headers, body) = Headers::parse_message(message).unwrap();
    assert_eq!(headers.author_name, some("A"));
    assert_eq!(headers.author_email, some("a@b"));
    assert_eq!(headers.author_date, some("Mon Apr 4"));
    assert_eq!(headers.subject, some("Subject here"));
    assert_eq!(body, b"\nBody\n  indented more\n  and less\n".to_vec());
}

#[test]
fn message_body_keeps_its_indentation_without_commit_line() {
    let (headers, body) = Headers::parse_message(b"Subject\n    kept\n").unwrap();
    assert_eq!(headers.subject, some("Subject"));
    assert_eq!(body, b"    kept\n".to_vec());
}

#[test]
fn message_line_after_the_subject_is_no_header() {
    let (headers, body) =
        Headers::parse_message(b"The subject\nFrom: A <a@b>\nDate: later\n").unwrap();
    assert_eq!(headers.subject, some("The subject"));
    assert_eq!(headers.author_name, None);
    assert_eq!(headers.author_date, None);
    assert_eq!(body, b"From: A <a@b>\nDate: later\n".to_vec());
}

#[test]
fn message_with_unknown_header_has_it_as_subject() {
    let (headers, body) = Headers::parse_message(b"X-Mailer: none\nrest\n").unwrap();
    assert_eq!(headers.subject, some("X-Mailer: none"));
    assert_eq!(body, b"rest\n".to_vec());
}

#[test]
fn message_patch_header_without_name_is_the_subject() {
    let (headers, body) = Headers::parse_message(b"Patch:\nrest\n").unwrap();
    assert_eq!(headers.patchname, None);
    assert_eq!(headers.subject, some("Patch:"));
    assert_eq!(body, b"rest\n".to_vec());
}

#[test]
fn message_without_subject_has_no_body() {
    let (headers, body) = Headers::parse_message(b"\n  \nFrom: A <a@b>\n\n").unwrap();
    assert_eq!(headers.author_name, some("A"));
    assert_eq!(headers.subject, None);
    assert_eq!(body, Vec::<u8>::new());
    let (headers, body) = Headers::parse_message(b"").unwrap();
    assert_eq!(headers, Headers::default());
    assert_eq!(body, Vec::<u8>::new());
}

#[test]
fn message_subject_is_trimmed() {
    let (headers, body) = Headers::parse_message(b"  \t spaced out \t\r\nbody").unwrap();
    assert_eq!(headers.subject, some("spaced out"));
    assert_eq!(body, b"body".to_vec());
}

#[test]
fn message_date_that_is_not_text_is_dropped() {
    let (headers, _) = Headers::parse_message(b"Date: 2005\nDate: \xff\nsubject\n").unwrap();
    assert_eq!(headers.author_date, None);
}

#[test]
fn message_faults_are_told_apart() {
    assert_eq!(
        Headers::parse_message(b"Patch: \xff\xff\n"),
        Err(HeaderError::PatchNameNotUtf8)
    );
    assert_eq!(Headers::parse_message(b"From: \xff <a@b>\n"), Err(HeaderError::AuthorNotUtf8));
    assert_eq!(Headers::parse_message(b"From: nobody\n"), Err(HeaderError::MalformedAuthor));
    assert_eq!(Headers::parse_message(b"Author:\n"), Err(HeaderError::MalformedAuthor));
    assert_eq!(Headers::parse_message(b"subject \xff\n"), Err(HeaderError::SubjectNotUtf8));
}

#[test]
fn name_and_address_are_told_apart() {
    assert_eq!(
        parse_name_email("A U Thor <author@example.com>"),
        Some(("A U Thor".to_string(), "author@example.com".to_string()))
    );
    assert_eq!(parse_name_email("A \t <a@b>"), Some(("A".to_string(), "a@b".to_string())));
    assert_eq!(parse_name_email("<a@b>"), Some((String::new(), "a@b".to_string())));
    assert_eq!(parse_name_email("A <>"), Some(("A".to_string(), String::new())));
    assert_eq!(parse_name_email("A"), None);
    assert_eq!(parse_name_email("A <a@b"), None);
    assert_eq!(parse_name_email("A <a@b> x"), None);
    assert_eq!(parse_name_email("A <a@b>>"), None);
    assert_eq!(parse_name_email(""), None);
}

#[test]
fn lines_are_classified() {
    assert_eq!(classify_line(b""), MessageLine::Blank);
    assert_eq!(classify_line(b"Patch: name"), MessageLine::Patch(b"name"));
    assert_eq!(classify_line(b"from:   x"), MessageLine::Author(b"x"));
    assert_eq!(classify_line(b"AUTHOR:x"), MessageLine::Author(b"x"));
    assert_eq!(classify_line(b"Date:"), MessageLine::Date(b""));
    assert_eq!(classify_line(b"commit 0123abcDEF"), MessageLine::Commit);
    assert_eq!(classify_line(b"commit "), MessageLine::Commit);
    assert_eq!(classify_line(b"commit 0123xyz"), MessageLine::Other);
    assert_eq!(classify_line(b"commit"), MessageLine::Other);
    assert_eq!(classify_line(b"Subject: s"), MessageLine::Other);
    assert_eq!(classify_line(b"plain words"), MessageLine::Other);
}

#[test]
fn first_occurrence_is_found() {
    assert_eq!(find_first(b"a: b: c", b": "), Some(1));
    assert_eq!(find_first(b"abc", b"c"), Some(2));
    assert_eq!(find_first(b"abc", b"d"), None);
    assert_eq!(find_first(b"", b"d"), None);
    assert_eq!(find_first(b"abc", b""), Some(0));
}

#[test]
fn prefix_is_stripped() {
    assert_eq!(strip_prefix(b"    x", b"    "), Some(&b"x"[..]));
    assert_eq!(strip_prefix(b"   x", b"    "), None);
    assert_eq!(strip_prefix(b"ab", b"ab"), Some(&b""[..]));
    assert_eq!(strip_prefix(b"a", b"ab"), None);
}

#[test]
fn case_of_ascii_letters_is_ignored() {
    assert!(eq_ignore_case(b"PaTcH", b"patch"));
    assert!(eq_ignore_case(b"", b""));
    assert!(!eq_ignore_case(b"patch", b"patchy"));
    assert!(!eq_ignore_case(b"[", b"{"));
    assert!(!eq_ignore_case(b"@", b"`"));
}
