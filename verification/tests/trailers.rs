use stgit::trailers::{add_trailers, TrailerError, TrailerOption, TrailerOptions};

fn option(values: &[&str], occurrences: usize) -> TrailerOption {
    TrailerOption { values: values.iter().map(|s| s.to_string()).collect(), occurrences }
}

fn none() -> TrailerOptions {
    TrailerOptions {
        sign: option(&[], 0),
        sign_by: vec![],
        ack: option(&[], 0),
        ack_by: vec![],
        review: option(&[], 0),
        review_by: vec![],
    }
}

fn pair(token: &str, value: &str) -> (String, String) {
    (token.to_string(), value.to_string())
}

#[test]
fn no_option_asks_for_no_trailer() {
    assert_eq!(add_trailers(&none(), Some("N"), Some("e@x"), None), Ok(vec![]));
}

#[test]
fn option_without_value_names_the_signer() {
    let mut options = none();
    options.sign = option(&[], 1);
    assert_eq!(
        add_trailers(&options, Some("A U Thor"), Some("author@example.com"), None),
        Ok(vec![pair("Signed-off-by", "A U Thor <author@example.com>")])
    );
}

#[test]
fn trailers_come_in_the_order_sign_ack_review() {
    let options = TrailerOptions {
        sign: option(&["S One <s1@x>"], 2),
        sign_by: vec!["S Two <s2@x>".to_string()],
        ack: option(&["A One <a1@x>"], 1),
        ack_by: vec![],
        review: option(&[], 3),
        review_by: vec!["R One <r1@x>".to_string(), "R Two <r2@x>".to_string()],
    };
    assert_eq!(
        add_trailers(&options, Some("Me"), Some("me@x"), Some("Tested-by")),
        Ok(vec![
            pair("Signed-off-by", "S One <s1@x>"),
            pair("Signed-off-by", "Me <me@x>"),
            pair("Signed-off-by", "S Two <s2@x>"),
            pair("Acked-by", "A One <a1@x>"),
            pair("Reviewed-by", "Me <me@x>"),
            pair("Reviewed-by", "R One <r1@x>"),
            pair("Reviewed-by", "R Two <r2@x>"),
            pair("Tested-by", "Me <me@x>"),
        ])
    );
}

#[test]
fn autosign_adds_its_trailer_last() {
    assert_eq!(
        add_trailers(&none(), Some("Me"), Some("me@x"), Some("Signed-off-by")),
        Ok(vec![pair("Signed-off-by", "Me <me@x>")])
    );
}

#[test]
fn trailers_need_a_signer() {
    assert_eq!(
        add_trailers(&none(), None, Some("me@x"), None),
        Err(TrailerError::NonUtf8Signature)
    );
    assert_eq!(
        add_trailers(&none(), Some("Me"), None, Some("Signed-off-by")),
        Err(TrailerError::NonUtf8Signature)
    );
}
