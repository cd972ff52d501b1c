use stgit::oid::ObjectId;
use stgit::stack::{
    select_branch, stack_ref_from_branch, PatchDescriptor, RawPatchDescriptor, RawStackState,
    StackError, StackState, StateError,
};

fn oid(n: u8) -> ObjectId {
    ObjectId::from_bytes([n; 20])
}

fn hex(n: u8) -> String {
    oid(n).to_hex()
}

fn patch(name: &str, n: u8) -> PatchDescriptor {
    PatchDescriptor { name: name.to_string(), oid: oid(n) }
}

fn sample() -> StackState {
    StackState::assemble(
        Some(oid(9)),
        oid(1),
        vec![patch("first", 2), patch("second", 3)],
        vec![patch("third", 4)],
        vec![patch("secret", 5)],
    )
    .unwrap()
}

fn raw_sample() -> RawStackState {
    RawStackState {
        version: "5".to_string(),
        prev: Some(hex(9)),
        head: hex(1),
        applied: vec!["first".to_string(), "second".to_string()],
        unapplied: vec!["third".to_string()],
        hidden: vec!["secret".to_string()],
        patches: vec![
            ("first".to_string(), RawPatchDescriptor { oid: hex(2) }),
            ("second".to_string(), RawPatchDescriptor { oid: hex(3) }),
            ("third".to_string(), RawPatchDescriptor { oid: hex(4) }),
            ("secret".to_string(), RawPatchDescriptor { oid: hex(5) }),
        ],
    }
}

#[test]
fn stack_ref_names_the_branch() {
    assert_eq!(stack_ref_from_branch("main"), "refs/stacks/main");
    assert_eq!(stack_ref_from_branch("topic/a"), "refs/stacks/topic/a");
    assert_eq!(stack_ref_from_branch(""), "refs/stacks/");
}

#[test]
fn new_state_has_no_patches() {
    let state = StackState::new(oid(7));
    assert_eq!(state.prev(), None);
    assert_eq!(state.head(), oid(7));
    assert!(state.applied().is_empty());
    assert!(state.unapplied().is_empty());
    assert!(state.hidden().is_empty());
    assert_eq!(state.top(), oid(7));
    assert!(state.all_names().is_empty());
}

#[test]
fn top_is_the_last_applied_patch() {
    assert_eq!(sample().top(), oid(3));
}

#[test]
fn top_is_the_head_without_applied_patches() {
    let state =
        StackState::assemble(None, oid(1), vec![], vec![patch("held", 4)], vec![]).unwrap();
    assert_eq!(state.top(), oid(1));
}

#[test]
fn all_patches_go_applied_unapplied_hidden() {
    let state = sample();
    let mut walk = state.all_patches();
    let mut seen: Vec<String> = Vec::new();
    while let Some(name) = walk.next() {
        seen.push(name.clone());
    }
    assert_eq!(seen, vec!["first", "second", "third", "secret"]);
    assert_eq!(walk.next(), None);
    assert_eq!(state.all_names(), seen);
}

#[test]
fn patch_table_has_every_listed_name_and_no_other() {
    let state = sample();
    assert_eq!(state.patch_oid("first"), Some(oid(2)));
    assert_eq!(state.patch_oid("second"), Some(oid(3)));
    assert_eq!(state.patch_oid("third"), Some(oid(4)));
    assert_eq!(state.patch_oid("secret"), Some(oid(5)));
    assert_eq!(state.patch_oid("other"), None);
    assert_eq!(state.patch_oid(""), None);
}

#[test]
fn assemble_refuses_a_name_in_two_lists() {
    let r = StackState::assemble(None, oid(1), vec![patch("a", 2)], vec![patch("a", 3)], vec![]);
    assert_eq!(r, Err(StateError::DuplicateName));
}

#[test]
fn assemble_refuses_a_name_twice_in_one_list() {
    let r = StackState::assemble(
        None,
        oid(1),
        vec![],
        vec![],
        vec![patch("a", 2), patch("b", 3), patch("a", 4)],
    );
    assert_eq!(r, Err(StateError::DuplicateName));
}

#[test]
fn serialize_spells_the_state_out() {
    assert_eq!(sample().serialize(), raw_sample());
}

#[test]
fn serialize_writes_version_five_and_no_prev_for_a_first_state() {
    let raw = StackState::new(oid(0xab)).serialize();
    assert_eq!(raw.version, "5");
    assert_eq!(raw.prev, None);
    assert_eq!(raw.head, "abababababababababababababababababababab");
    assert!(raw.patches.is_empty());
}

#[test]
fn deserialize_gives_back_what_serialize_wrote() {
    let state = sample();
    assert_eq!(StackState::deserialize(&state.serialize()), Ok(sample()));
    let empty = StackState::new(oid(1));
    assert_eq!(StackState::deserialize(&empty.serialize()), Ok(StackState::new(oid(1))));
}

#[test]
fn deserialize_takes_the_table_in_any_order() {
    let mut raw = raw_sample();
    raw.patches.reverse();
    assert_eq!(StackState::deserialize(&raw), Ok(sample()));
}

#[test]
fn deserialize_reads_upper_case_ids() {
    let mut raw = raw_sample();
    raw.head = "ABABABABABABABABABABABABABABABABABABABAB".to_string();
    let state = StackState::deserialize(&raw).unwrap();
    assert_eq!(state.head(), oid(0xab));
}

#[test]
fn deserialize_wants_version_five() {
    for version in ["4", "6", "", "five", "5.0", "+5", " 5", "50", "55"] {
        let mut raw = raw_sample();
        raw.version = version.to_string();
        assert_eq!(StackState::deserialize(&raw), Err(StateError::UnsupportedVersion));
    }
    for version in ["5", "05", "0005"] {
        let mut raw = raw_sample();
        raw.version = version.to_string();
        assert_eq!(StackState::deserialize(&raw), Ok(sample()));
    }
}

#[test]
fn deserialize_refuses_a_bad_id() {
    let mut raw = raw_sample();
    raw.head = "123".to_string();
    assert_eq!(StackState::deserialize(&raw), Err(StateError::InvalidOid));
    let mut raw = raw_sample();
    raw.prev = Some("z".repeat(40));
    assert_eq!(StackState::deserialize(&raw), Err(StateError::InvalidOid));
    let mut raw = raw_sample();
    raw.patches[2].1.oid = String::new();
    assert_eq!(StackState::deserialize(&raw), Err(StateError::InvalidOid));
}

#[test]
fn deserialize_refuses_a_name_listed_twice() {
    let mut raw = raw_sample();
    raw.hidden.push("first".to_string());
    assert_eq!(StackState::deserialize(&raw), Err(StateError::DuplicateName));
    let mut raw = raw_sample();
    raw.patches.push(("third".to_string(), RawPatchDescriptor { oid: hex(8) }));
    assert_eq!(StackState::deserialize(&raw), Err(StateError::DuplicateName));
}

#[test]
fn deserialize_refuses_a_listed_patch_without_entry() {
    let mut raw = raw_sample();
    raw.unapplied.push("ghost".to_string());
    assert_eq!(StackState::deserialize(&raw), Err(StateError::MissingPatch));
}

#[test]
fn deserialize_refuses_an_entry_that_no_list_names() {
    let mut raw = raw_sample();
    raw.patches.push(("stray".to_string(), RawPatchDescriptor { oid: hex(8) }));
    assert_eq!(StackState::deserialize(&raw), Err(StateError::UnlistedPatch));
}

#[test]
fn deserialize_reports_the_version_before_anything_else() {
    let mut raw = raw_sample();
    raw.version = "4".to_string();
    raw.head = "bad".to_string();
    raw.unapplied.push("first".to_string());
    assert_eq!(StackState::deserialize(&raw), Err(StateError::UnsupportedVersion));
}

#[test]
fn branch_without_state_file_has_no_stack() {
    assert_eq!(
        StackState::from_branch("main", None),
        Err(StackError::NotInitialized("main".to_string()))
    );
}

#[test]
fn branch_with_state_of_another_version_has_no_stack() {
    let mut raw = raw_sample();
    raw.version = "4".to_string();
    assert_eq!(
        StackState::from_branch("topic", Some(&raw)),
        Err(StackError::NotInitialized("topic".to_string()))
    );
}

#[test]
fn branch_with_faulty_state_reports_the_fault() {
    let mut raw = raw_sample();
    raw.head = "xyz".to_string();
    assert_eq!(
        StackState::from_branch("main", Some(&raw)),
        Err(StackError::Invalid(StateError::InvalidOid))
    );
}

#[test]
fn branch_with_state_gives_the_state() {
    assert_eq!(StackState::from_branch("main", Some(&raw_sample())), Ok(sample()));
}

#[test]
fn branch_asked_for_wins_over_the_head() {
    assert_eq!(select_branch(Some("topic"), Some("main")), Ok("topic"));
    assert_eq!(select_branch(Some("topic"), None), Ok("topic"));
    assert_eq!(select_branch(None, Some("main")), Ok("main"));
    assert_eq!(select_branch(None, None), Err(StackError::HeadDetached));
}
