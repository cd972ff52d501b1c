use stgit::patchname::{is_valid, make_name, PatchName};

fn made(raw: &str, allow_long: bool, limit: Option<usize>) -> String {
    PatchName::make(raw, allow_long, limit).as_str().to_string()
}

fn names(list: &[&str]) -> Vec<String> {
    list.iter().map(|s| s.to_string()).collect()
}

#[test]
fn make_puts_dashes_for_what_a_name_may_not_hold() {
    assert_eq!(made("Fix the thing", false, Some(30)), "fix-the-thing");
    assert_eq!(made("fix:  the ~ thing?", false, Some(30)), "fix-the-thing");
    assert_eq!(made("Foo/Bar", false, Some(30)), "foo-bar");
    assert_eq!(made("a\tb\x7fc\\d[e{f}g*h^i", false, Some(30)), "a-b-c-d-e-f-g-h-i");
    assert_eq!(made("Hello, World!", false, Some(30)), "hello,-world!");
}

#[test]
fn make_keeps_what_is_not_ascii() {
    assert_eq!(made("Ünïcödé Patch", false, None), "Ünïcödé-patch");
}

#[test]
fn make_takes_the_first_line_that_is_not_empty() {
    assert_eq!(made("\n\nSecond line\nThird", false, None), "second-line");
    assert_eq!(made("\r\n\r\nsubject\r\nbody", false, None), "subject");
    assert_eq!(made("one\ntwo", false, None), "one");
    assert_eq!(made("  \nfoo", false, None), "patch");
}

#[test]
fn make_tidies_both_ends() {
    assert_eq!(made("--.-name-.-", false, None), "name");
    assert_eq!(made(".hidden", false, None), "hidden");
    assert_eq!(made("name.", false, None), "name");
    assert_eq!(made("a - b", false, None), "a-b");
    assert_eq!(made("a---b", false, None), "a-b");
    assert_eq!(made("a..b...c", false, None), "a.b.c");
    assert_eq!(made("a.-.b", false, None), "a.-.b");
}

#[test]
fn make_takes_lock_off_the_end() {
    assert_eq!(made("foo.lock", false, None), "foo");
    assert_eq!(made("foo.lock.lock", false, None), "foo");
    assert_eq!(made("foo-.lock", false, None), "foo");
    assert_eq!(made("foo.LOCK", false, None), "foo");
    assert_eq!(made(".lock", false, None), "lock");
    assert_eq!(made("foo.locks", false, None), "foo.locks");
}

#[test]
fn make_falls_back_to_patch() {
    assert_eq!(made("", false, Some(30)), "patch");
    assert_eq!(made("---", false, Some(30)), "patch");
    assert_eq!(made("\n\n", false, Some(30)), "patch");
    assert_eq!(made(" : ", true, None), "patch");
    assert_eq!(made("", false, Some(3)), "pat");
}

#[test]
fn make_cuts_before_the_last_dash_within_the_limit() {
    let raw = "refactor the transaction engine for clarity";
    assert_eq!(made(raw, false, Some(30)), "refactor-the-transaction");
    assert_eq!(made(raw, false, Some(31)), "refactor-the-transaction-engine");
    assert_eq!(made(raw, false, Some(24)), "refactor-the-transaction");
    assert_eq!(made(raw, false, Some(23)), "refactor-the");
    assert_eq!(made(raw, false, Some(8)), "refactor");
    assert_eq!(made(raw, false, Some(43)), "refactor-the-transaction-engine-for-clarity");
}

#[test]
fn make_cuts_at_the_limit_without_dash() {
    assert_eq!(made("abcdefghijklmnopqrstuvwxyz", false, Some(10)), "abcdefghij");
    assert_eq!(made("refactor the engine", false, Some(5)), "refac");
    assert_eq!(made("abc.def", false, Some(4)), "abc");
    assert_eq!(made("abcd.lockxyz", false, Some(9)), "abcd");
}

#[test]
fn make_leaves_long_names_where_they_are_allowed() {
    let raw = "refactor the transaction engine for clarity";
    assert_eq!(made(raw, true, Some(30)), "refactor-the-transaction-engine-for-clarity");
    assert_eq!(made(raw, false, None), "refactor-the-transaction-engine-for-clarity");
    assert_eq!(made(raw, false, Some(0)), "refactor-the-transaction-engine-for-clarity");
}

#[test]
fn make_counts_characters_not_bytes() {
    assert_eq!(made("ééééé", false, Some(3)), "ééé");
}

#[test]
fn make_of_a_made_name_is_that_name() {
    let samples = [
        "Fix the thing",
        "refactor the transaction engine for clarity",
        "",
        "foo.lock",
        "a..b",
        "--x--",
        "Ünïcödé Patch",
        "abc.def",
        "0001-some-patch.patch",
        "Re: [PATCH 1/2] do: things",
    ];
    for limit in [None, Some(0), Some(1), Some(4), Some(5), Some(12), Some(30)] {
        for raw in samples {
            let once = made(raw, false, limit);
            assert_eq!(made(&once, false, limit), once);
            assert!(is_valid(&once));
            if let Some(n) = limit {
                if n > 0 {
                    assert!(once.chars().count() <= n);
                }
            }
        }
    }
}

#[test]
fn make_name_is_what_make_gives() {
    assert_eq!(make_name("Fix the thing", false, Some(7)), "fix-the");
}

#[test]
fn valid_names_are_told_from_others() {
    for good in ["a", "fix-the-thing", "a.b", "a/b", "x-", "x.", "é", "lock", "a.lock.b", "a/.b"] {
        assert!(is_valid(good));
        assert_eq!(PatchName::new(good).unwrap().as_str(), good);
    }
    for bad in [
        "", "-a", "a b", "a\tb", "a\nb", "a\x7fb", "a~b", "a^b", "a:b", "a?b", "a*b", "a[b",
        "a\\b", "a{b", "a}b", ".", "..", "a..b", "a/./b", "./a", "a/.", "a.lock", ".lock",
    ] {
        assert!(!is_valid(bad));
        assert!(PatchName::new(bad).is_none());
    }
}

#[test]
fn uniquify_leaves_a_free_name_alone() {
    let name = PatchName::new("foo").unwrap();
    assert_eq!(name.uniquify(&vec![], &vec![]).as_str(), "foo");
    assert_eq!(name.uniquify(&names(&["bar"]), &names(&["foo-1", "fo"])).as_str(), "foo");
}

#[test]
fn uniquify_numbers_a_taken_name() {
    let name = PatchName::new("foo").unwrap();
    assert_eq!(name.uniquify(&vec![], &names(&["foo"])).as_str(), "foo-1");
    assert_eq!(name.uniquify(&names(&["foo"]), &vec![]).as_str(), "foo-1");
    assert_eq!(name.uniquify(&names(&["foo-1"]), &names(&["foo"])).as_str(), "foo-2");
    assert_eq!(
        name.uniquify(&names(&["foo", "foo"]), &names(&["foo-2", "foo-1", "foo", "foo-4"]))
            .as_str(),
        "foo-3"
    );
}

#[test]
fn uniquify_counts_past_nine() {
    let name = PatchName::new("p").unwrap();
    let mut taken = names(&["p"]);
    for k in 1..=120 {
        taken.push(format!("p-{}", k));
    }
    let unique = name.uniquify(&vec![], &taken);
    assert_eq!(unique.as_str(), "p-121");
    assert!(!taken.contains(&unique.as_str().to_string()));
}

#[test]
fn length_limit_comes_from_the_configuration() {
    assert_eq!(PatchName::get_length_limit(None), Some(30));
    assert_eq!(PatchName::get_length_limit(Some(0)), None);
    assert_eq!(PatchName::get_length_limit(Some(50)), Some(50));
    assert_eq!(PatchName::get_length_limit(Some(1)), Some(1));
    assert_eq!(PatchName::get_length_limit(Some(-1)), Some(30));
    assert_eq!(PatchName::get_length_limit(Some(i64::MIN)), Some(30));
}
