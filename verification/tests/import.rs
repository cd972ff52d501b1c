use stgit::author::{Author, Timestamp};
use stgit::headers::{HeaderError, Headers};
use stgit::import::{
    compose_message, create_patch, derive_name, effective_strip, import_reflog, name_candidate,
    patch_message, resolve_name, split_headers, stage_import, stripname, use_message_id,
    ImportOptions, NameDecision,
};
use stgit::oid::ObjectId;
use stgit::patchname::PatchName;
use stgit::source::{copy_instead, download_file_name};
use stgit::stack::{PatchDescriptor, StackState};
use stgit::transaction::{Transaction, TransactionError, TransactionOptions};

fn oid(n: u8) -> ObjectId {
    ObjectId::from_bytes([n; 20])
}

fn patch(name: &str, n: u8) -> PatchDescriptor {
    PatchDescriptor { name: name.to_string(), oid: oid(n) }
}

fn some(text: &str) -> Option<String> {
    Some(text.to_string())
}

fn stack() -> StackState {
    StackState::assemble(
        None,
        oid(1),
        vec![patch("applied", 2)],
        vec![patch("held", 3)],
        vec![patch("hidden", 4)],
    )
    .unwrap()
}

fn options() -> ImportOptions {
    ImportOptions { name: None, stripname: false, ignore: false, replace: false, strip: None }
}

fn default_author() -> Author {
    Author {
        name: "Default Name".to_string(),
        email: "default@example.com".to_string(),
        time: Timestamp { seconds: 1000, offset_minutes: 60 },
    }
}

fn transaction(state: StackState) -> Transaction {
    Transaction::new(
        state,
        TransactionOptions {
            use_index_and_worktree: false,
            allow_conflicts: false,
            discard_changes: false,
            allow_bad_head: false,
        },
    )
}

fn used(decision: &NameDecision) -> &str {
    match decision {
        NameDecision::Use(name) => name.as_str(),
        NameDecision::Skip(_) => panic!("the patch is passed over"),
    }
}

#[test]
fn stripname_takes_off_number_and_ending() {
    assert_eq!(stripname("0001-fix-the-thing.patch"), "fix-the-thing");
    assert_eq!(stripname("01-fix.diff"), "fix");
    assert_eq!(stripname("fix.patch"), "fix");
    assert_eq!(stripname("fix"), "fix");
    assert_eq!(stripname("--12-3fix"), "fix");
    assert_eq!(stripname("123"), "");
    assert_eq!(stripname(""), "");
    assert_eq!(stripname("1-a.diff.orig"), "a");
    assert_eq!(stripname("1-a.patch.diff"), "a.patch");
    assert_eq!(stripname("1-a.diff.patch"), "a");
    assert_eq!(stripname("a.patch.b.patch"), "a.patch.b");
    assert_eq!(stripname("a1-2.txt"), "a1-2.txt");
}

#[test]
fn headers_come_from_the_mailinfo_block_where_it_has_any() {
    let (headers, message) =
        split_headers(b"Subject: from mailinfo\n", b"From: A <a@b>\nbody\n".to_vec()).unwrap();
    assert_eq!(headers.subject, some("from mailinfo"));
    assert_eq!(headers.author_name, None);
    assert_eq!(message, b"From: A <a@b>\nbody\n".to_vec());
}

#[test]
fn headers_come_from_the_message_otherwise() {
    let (headers, message) =
        split_headers(b"", b"From: A <a@b>\nthe subject\nbody\n".to_vec()).unwrap();
    assert_eq!(headers.subject, some("the subject"));
    assert_eq!(headers.author_name, some("A"));
    assert_eq!(message, b"body\n".to_vec());
    assert_eq!(
        split_headers(b"Bogus: x\n", b"subject\n".to_vec()),
        Err(HeaderError::UnknownHeader)
    );
    assert_eq!(split_headers(b"", b"From: x\n".to_vec()), Err(HeaderError::MalformedAuthor));
}

#[test]
fn empty_patch_has_no_headers_and_no_message() {
    let (headers, message) = split_headers(b"", vec![]).unwrap();
    assert_eq!(headers, Headers::default());
    assert!(message.is_empty());
}

#[test]
fn message_is_subject_and_body() {
    assert_eq!(patch_message(some("Subject"), b"body\n"), "Subject\n\nbody\n");
    assert_eq!(patch_message(None, b"body\n"), "body\n");
    assert_eq!(patch_message(some("S"), b""), "S\n\n");
    assert_eq!(patch_message(None, b"caf\xc3\xa9 \xff"), "café \u{fffd}");
}

#[test]
fn name_candidates_are_taken_in_order() {
    assert_eq!(name_candidate(Some("h"), Some("o"), Some("s")), Some("h"));
    assert_eq!(name_candidate(None, Some("o"), Some("s")), Some("o"));
    assert_eq!(name_candidate(None, None, Some("s")), Some("s"));
    assert_eq!(name_candidate(Some(""), Some(""), Some("s")), Some("s"));
    assert_eq!(name_candidate(Some(""), Some("o"), None), Some("o"));
    assert_eq!(name_candidate(None, None, None), None);
    assert_eq!(name_candidate(Some(""), None, Some("")), None);
}

#[test]
fn name_is_made_of_the_candidate_or_the_message() {
    let long = "a rather long subject line that goes on and on";
    assert_eq!(derive_name(Some("0001-Fix It.patch"), true, long, Some(30)).as_str(), "fix-it");
    assert_eq!(
        derive_name(Some("0001-Fix It.patch"), false, long, Some(30)).as_str(),
        "0001-fix-it.patch"
    );
    assert_eq!(
        derive_name(Some(long), false, "ignored", Some(30)).as_str(),
        "a-rather-long-subject-line"
    );
    assert_eq!(
        derive_name(None, true, long, Some(30)).as_str(),
        "a-rather-long-subject-line-that-goes-on-and-on"
    );
}

#[test]
fn name_is_told_apart_from_all_names_by_default() {
    let state = stack();
    for (name, expected) in
        [("new", "new"), ("applied", "applied-1"), ("held", "held-1"), ("hidden", "hidden-1")]
    {
        let decision = resolve_name(PatchName::new(name).unwrap(), false, false, &state);
        assert_eq!(used(&decision), expected);
    }
}

#[test]
fn applied_patches_are_passed_over_where_that_is_asked_for() {
    let state = stack();
    let decision = resolve_name(PatchName::new("applied").unwrap(), true, false, &state);
    assert_eq!(decision, NameDecision::Skip(PatchName::new("applied").unwrap()));
    let decision = resolve_name(PatchName::new("applied").unwrap(), true, true, &state);
    assert_eq!(decision, NameDecision::Skip(PatchName::new("applied").unwrap()));
    for name in ["held", "hidden", "new"] {
        let decision = resolve_name(PatchName::new(name).unwrap(), true, false, &state);
        assert_eq!(used(&decision), name);
    }
}

#[test]
fn names_are_kept_where_patches_are_replaced() {
    let state = stack();
    for name in ["applied", "held", "hidden", "new"] {
        let decision = resolve_name(PatchName::new(name).unwrap(), false, true, &state);
        assert_eq!(used(&decision), name);
    }
}

#[test]
fn date_that_cannot_be_read_counts_as_missing() {
    let headers = Headers {
        patchname: None,
        author_name: None,
        author_email: None,
        author_date: some("some day"),
        subject: some("s"),
    };
    let plan =
        create_patch(&options(), None, headers, b"", None, &stack(), None, &default_author());
    assert_eq!(plan.author, default_author());
}

#[test]
fn strip_level_of_the_series_wins() {
    assert_eq!(effective_strip(Some(0), Some(2)), Some(0));
    assert_eq!(effective_strip(None, Some(2)), Some(2));
    assert_eq!(effective_strip(Some(0), None), Some(0));
    assert_eq!(effective_strip(None, None), None);
}

#[test]
fn message_id_is_used_where_asked_for_or_configured() {
    assert!(use_message_id(true, None));
    assert!(use_message_id(true, Some(false)));
    assert!(use_message_id(false, Some(true)));
    assert!(!use_message_id(false, Some(false)));
    assert!(!use_message_id(false, None));
}

#[test]
fn reflog_message_names_the_patch() {
    assert_eq!(import_reflog(&PatchName::new("myfix").unwrap()), "import: myfix");
}

#[test]
fn import_of_a_diff_with_a_name_asked_for() {
    let state = stack();
    let mut asked = options();
    asked.name = some("myfix");
    let (headers, body) = split_headers(b"", b"Change foo to bar\n".to_vec()).unwrap();
    let plan =
        create_patch(&asked, None, headers, &body, None, &state, Some(30), &default_author());
    assert_eq!(plan.message, "Change foo to bar\n\n");
    assert_eq!(used(&plan.name), "myfix");
    assert_eq!(plan.author, default_author());
    assert_eq!(plan.strip, None);
    let name = PatchName::new(used(&plan.name)).unwrap();
    let mut trans = transaction(state);
    assert_eq!(stage_import(&mut trans, &name, oid(9), false), Ok(()));
    let done = trans.execute(oid(50), true).unwrap();
    let raw = done.state.serialize();
    assert_eq!(raw.version, "5");
    assert_eq!(raw.applied, vec!["applied", "myfix"]);
    assert_eq!(raw.prev, Some(oid(50).to_hex()));
    assert_eq!(done.state.patch_oid("myfix"), Some(oid(9)));
    assert_eq!(done.branch_tip, oid(9));
}

#[test]
fn import_of_two_mails_names_them_after_their_subjects() {
    let mut state = StackState::new(oid(1));
    let blocks: [&[u8]; 2] = [
        b"Author: A\nEmail: a@x\nSubject: P1 adds the parser\n\n",
        b"Author: B\nEmail: b@x\nSubject: P2 uses the parser\n\n",
    ];
    let mut prev = 60;
    for (i, block) in blocks.iter().enumerate() {
        let headers = Headers::parse_mailinfo(block).unwrap().unwrap_or_default();
        let plan = create_patch(
            &options(),
            None,
            headers,
            b"body\n",
            None,
            &state,
            Some(30),
            &default_author(),
        );
        let name = PatchName::new(used(&plan.name)).unwrap();
        let mut trans = transaction(state);
        assert_eq!(stage_import(&mut trans, &name, oid(10 + i as u8), false), Ok(()));
        state = trans.execute(oid(prev), true).unwrap().state;
        prev += 1;
    }
    assert_eq!(state.all_names(), vec!["p1-adds-the-parser", "p2-uses-the-parser"]);
    assert_eq!(state.applied().len(), 2);
    assert_eq!(state.top(), oid(11));
}

#[test]
fn import_takes_name_header_and_strip_level() {
    let headers = Headers {
        patchname: some("0003-From Header.diff"),
        author_name: some("N"),
        author_email: None,
        author_date: some("Thu, 7 Apr 2005 15:13:13 -0700"),
        subject: some("The subject"),
    };
    let mut asked = options();
    asked.name = some("asked");
    asked.stripname = true;
    asked.strip = Some(2);
    let time = Timestamp { seconds: 1112911993, offset_minutes: -420 };
    let plan = create_patch(
        &asked,
        Some("0001-file.patch"),
        headers,
        b"text\n",
        Some(0),
        &stack(),
        None,
        &default_author(),
    );
    assert_eq!(plan.message, "The subject\n\ntext\n");
    assert_eq!(used(&plan.name), "from-header");
    assert_eq!(plan.author.name, "N");
    assert_eq!(plan.author.email, "default@example.com");
    assert_eq!(plan.author.time, time);
    assert_eq!(plan.strip, Some(0));
}

#[test]
fn import_names_a_patch_after_its_file() {
    let plan = create_patch(
        &options(),
        Some("held"),
        Headers::default(),
        b"",
        None,
        &stack(),
        Some(30),
        &default_author(),
    );
    assert_eq!(used(&plan.name), "held-1");
    assert_eq!(plan.message, "");
}

#[test]
fn replacing_import_deletes_the_unapplied_patch_first() {
    let mut trans = transaction(stack());
    let name = PatchName::new("held").unwrap();
    assert_eq!(stage_import(&mut trans, &name, oid(9), false), Err(TransactionError::PatchExists));
    assert_eq!(trans.current(), &stack());
    assert_eq!(stage_import(&mut trans, &name, oid(9), true), Ok(()));
    assert_eq!(trans.current().applied(), &vec![patch("applied", 2), patch("held", 9)]);
    assert!(trans.current().unapplied().is_empty());
    let applied = PatchName::new("applied").unwrap();
    assert_eq!(
        stage_import(&mut trans, &applied, oid(9), true),
        Err(TransactionError::PatchExists)
    );
    let hidden = PatchName::new("hidden").unwrap();
    assert_eq!(
        stage_import(&mut trans, &hidden, oid(9), true),
        Err(TransactionError::PatchExists)
    );
}

#[test]
fn message_is_composed_of_subject_and_text() {
    assert_eq!(compose_message(some("S"), "b".to_string()), "S\n\nb");
    assert_eq!(compose_message(None, "b".to_string()), "b");
    assert_eq!(compose_message(some(""), String::new()), "\n\n");
}

#[test]
fn import_from_a_file_url_is_the_import_of_the_file() {
    let url = "file:///tmp/0001-Fix It.patch";
    let fetched_name = download_file_name(url.as_bytes());
    let path = copy_instead(url, true).unwrap();
    assert_eq!(path, "/tmp/0001-Fix It.patch");
    let direct_name = path.rsplit('/').next().unwrap().to_string();
    assert_eq!(fetched_name, direct_name);
    let mut asked = options();
    asked.stripname = true;
    let plan = |name: &str| {
        let (headers, body) = split_headers(b"", b"Subject\n\nbody\n".to_vec()).unwrap();
        create_patch(&asked, Some(name), headers, &body, None, &stack(), Some(30), &default_author())
    };
    assert_eq!(plan(&fetched_name), plan(&direct_name));
    assert_eq!(used(&plan(&fetched_name).name), "fix-it");
}
