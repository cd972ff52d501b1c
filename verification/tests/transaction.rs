use stgit::oid::ObjectId;
use stgit::outcome::{exit_code, Outcome};
use stgit::stack::{PatchDescriptor, StackState};
use stgit::transaction::{
    ListKind, MergeResult, Operation, StatusLine, Transaction, TransactionError,
    TransactionOptions,
};

fn oid(n: u8) -> ObjectId {
    ObjectId::from_bytes([n; 20])
}

fn patch(name: &str, n: u8) -> PatchDescriptor {
    PatchDescriptor { name: name.to_string(), oid: oid(n) }
}

fn options() -> TransactionOptions {
    TransactionOptions {
        use_index_and_worktree: true,
        allow_conflicts: false,
        discard_changes: false,
        allow_bad_head: false,
    }
}

fn base() -> StackState {
    StackState::assemble(
        Some(oid(90)),
        oid(1),
        vec![patch("a1", 11), patch("a2", 12)],
        vec![patch("u1", 21), patch("u2", 22)],
        vec![patch("h1", 31)],
    )
    .unwrap()
}

fn start() -> Transaction {
    Transaction::new(base(), options())
}

fn names(list: &Vec<PatchDescriptor>) -> Vec<String> {
    list.iter().map(|p| p.name.clone()).collect()
}

fn line(mark: char, name: &str) -> StatusLine {
    StatusLine { mark, name: name.to_string() }
}

fn list(items: &[&str]) -> Vec<String> {
    items.iter().map(|s| s.to_string()).collect()
}

#[test]
fn begin_checks_the_head() {
    let r = Transaction::begin(base(), options(), &oid(1), true);
    assert_eq!(r.err(), Some(TransactionError::HeadMismatch));
    let r = Transaction::begin(base(), options(), &oid(12), true);
    assert!(r.is_ok());
    let mut lax = options();
    lax.allow_bad_head = true;
    assert!(Transaction::begin(base(), lax, &oid(1), true).is_ok());
}

#[test]
fn begin_checks_the_work_tree() {
    let r = Transaction::begin(base(), options(), &oid(12), false);
    assert_eq!(r.err(), Some(TransactionError::DirtyWorktree));
    let mut discarding = options();
    discarding.discard_changes = true;
    assert!(Transaction::begin(base(), discarding, &oid(12), false).is_ok());
    let mut detached = options();
    detached.use_index_and_worktree = false;
    assert!(Transaction::begin(base(), detached, &oid(12), false).is_ok());
    let r = Transaction::begin(base(), options(), &oid(1), false);
    assert_eq!(r.err(), Some(TransactionError::HeadMismatch));
}

#[test]
fn push_moves_a_patch_on_top() {
    let mut t = start();
    assert_eq!(t.push("u2"), Ok(()));
    assert_eq!(names(t.current().applied()), list(&["a1", "a2", "u2"]));
    assert_eq!(names(t.current().unapplied()), list(&["u1"]));
    assert_eq!(t.top(), oid(22));
    assert_eq!(t.push("u2"), Err(TransactionError::NoSuchPatch));
    assert_eq!(t.push("h1"), Err(TransactionError::NoSuchPatch));
    assert_eq!(t.push("nothing"), Err(TransactionError::NoSuchPatch));
    assert_eq!(names(t.current().applied()), list(&["a1", "a2", "u2"]));
}

#[test]
fn pop_moves_a_patch_to_the_front_of_the_unapplied() {
    let mut t = start();
    assert_eq!(t.pop("a2"), Ok(()));
    assert_eq!(names(t.current().applied()), list(&["a1"]));
    assert_eq!(names(t.current().unapplied()), list(&["a2", "u1", "u2"]));
    assert_eq!(t.top(), oid(11));
    assert_eq!(t.pop("a1"), Ok(()));
    assert_eq!(names(t.current().unapplied()), list(&["a1", "a2", "u1", "u2"]));
    assert_eq!(t.top(), oid(1));
    assert_eq!(t.pop("a1"), Err(TransactionError::NoSuchPatch));
}

#[test]
fn hide_and_unhide_move_between_unapplied_and_hidden() {
    let mut t = start();
    assert_eq!(t.hide_patch("u1"), Ok(()));
    assert_eq!(names(t.current().unapplied()), list(&["u2"]));
    assert_eq!(names(t.current().hidden()), list(&["h1", "u1"]));
    assert_eq!(t.hide_patch("a1"), Err(TransactionError::NoSuchPatch));
    assert_eq!(t.unhide_patch("h1"), Ok(()));
    assert_eq!(names(t.current().unapplied()), list(&["u2", "h1"]));
    assert_eq!(names(t.current().hidden()), list(&["u1"]));
    assert_eq!(t.unhide_patch("u2"), Err(TransactionError::NoSuchPatch));
}

#[test]
fn reorder_takes_a_rearrangement_only() {
    let mut t = start();
    assert_eq!(t.reorder(ListKind::Unapplied, &list(&["u2", "u1"])), Ok(()));
    assert_eq!(t.current().unapplied(), &vec![patch("u2", 22), patch("u1", 21)]);
    assert_eq!(t.reorder(ListKind::Applied, &list(&["a2", "a1"])), Ok(()));
    assert_eq!(t.top(), oid(11));
    assert_eq!(t.reorder(ListKind::Hidden, &list(&["h1"])), Ok(()));
    for bad in [list(&["a1"]), list(&["a1", "a1"]), list(&["a1", "u1"]), list(&["a1", "a2", "a1"])]
    {
        assert_eq!(t.reorder(ListKind::Applied, &bad), Err(TransactionError::NotARearrangement));
    }
    assert_eq!(names(t.current().applied()), list(&["a2", "a1"]));
}

#[test]
fn update_patch_changes_the_commit_in_place() {
    let mut t = start();
    assert_eq!(t.update_patch("u1", oid(77)), Ok(()));
    assert_eq!(t.current().unapplied(), &vec![patch("u1", 77), patch("u2", 22)]);
    assert_eq!(t.update_patch("a2", oid(78)), Ok(()));
    assert_eq!(t.top(), oid(78));
    assert_eq!(t.update_patch("h1", oid(79)), Ok(()));
    assert_eq!(t.current().patch_oid("h1"), Some(oid(79)));
    assert_eq!(t.update_patch("none", oid(80)), Err(TransactionError::NoSuchPatch));
}

#[test]
fn new_patches_need_a_new_name() {
    let mut t = start();
    assert_eq!(t.new_applied("n1", oid(41)), Ok(()));
    assert_eq!(names(t.current().applied()), list(&["a1", "a2", "n1"]));
    assert_eq!(t.top(), oid(41));
    assert_eq!(t.new_unapplied("n2", oid(42), 1), Ok(()));
    assert_eq!(names(t.current().unapplied()), list(&["u1", "n2", "u2"]));
    assert_eq!(t.new_unapplied("n3", oid(43), 3), Ok(()));
    assert_eq!(names(t.current().unapplied()), list(&["u1", "n2", "u2", "n3"]));
    assert_eq!(t.new_unapplied("n4", oid(44), 0), Ok(()));
    assert_eq!(names(t.current().unapplied()), list(&["n4", "u1", "n2", "u2", "n3"]));
    assert_eq!(t.new_unapplied("n5", oid(45), 6), Err(TransactionError::BadPosition));
    for taken in ["a1", "u1", "h1", "n1", "n2"] {
        assert_eq!(t.new_applied(taken, oid(46)), Err(TransactionError::PatchExists));
        assert_eq!(t.new_unapplied(taken, oid(46), 0), Err(TransactionError::PatchExists));
        assert_eq!(t.new_unapplied(taken, oid(46), 99), Err(TransactionError::PatchExists));
    }
}

#[test]
fn delete_patches_takes_them_out_of_every_list() {
    let mut t = start();
    assert_eq!(t.delete_patches(&list(&["a1", "u2", "h1", "none", "a1"])), Ok(()));
    assert_eq!(names(t.current().applied()), list(&["a2"]));
    assert_eq!(names(t.current().unapplied()), list(&["u1"]));
    assert!(t.current().hidden().is_empty());
    assert_eq!(t.delete_patches(&vec![]), Ok(()));
    assert_eq!(t.current().all_names(), list(&["a2", "u1"]));
}

#[test]
fn rebase_needs_all_patches_popped() {
    let mut t = start();
    assert_eq!(t.rebase(oid(2)), Err(TransactionError::PatchesApplied));
    assert_eq!(t.pop("a2"), Ok(()));
    assert_eq!(t.pop("a1"), Ok(()));
    assert_eq!(t.rebase(oid(2)), Ok(()));
    assert_eq!(t.current().head(), oid(2));
    assert_eq!(t.top(), oid(2));
    assert_eq!(t.current().prev(), Some(oid(90)));
}

#[test]
fn clean_merge_puts_the_new_commit_on_top() {
    let mut t = start();
    assert_eq!(t.push_merged("u1", MergeResult::Clean(oid(51))), Ok(()));
    assert_eq!(t.current().applied(), &vec![patch("a1", 11), patch("a2", 12), patch("u1", 51)]);
    assert_eq!(t.top(), oid(51));
    assert_eq!(
        t.push_merged("u1", MergeResult::Clean(oid(52))),
        Err(TransactionError::NoSuchPatch)
    );
}

#[test]
fn conflict_fails_a_transaction_that_allows_none() {
    let mut t = start();
    assert_eq!(
        t.push_merged("u1", MergeResult::Conflict),
        Err(TransactionError::CheckoutConflicts)
    );
    assert_eq!(t.current(), &base());
    assert_eq!(t.push_merged("zz", MergeResult::Conflict), Err(TransactionError::NoSuchPatch));
    assert_eq!(t.push("u1"), Ok(()));
}

#[test]
fn conflict_halts_a_transaction_that_allows_it() {
    let mut lenient = options();
    lenient.allow_conflicts = true;
    let state =
        StackState::assemble(Some(oid(90)), oid(1), vec![], vec![patch("foo", 21), patch("bar", 22)], vec![])
            .unwrap();
    let mut t = Transaction::new(state, lenient);
    assert_eq!(t.push_merged("foo", MergeResult::Conflict), Ok(()));
    assert_eq!(t.current().applied(), &vec![patch("foo", 21)]);
    assert_eq!(t.push("bar"), Err(TransactionError::Halted));
    assert_eq!(t.pop("foo"), Err(TransactionError::Halted));
    assert_eq!(t.hide_patch("bar"), Err(TransactionError::Halted));
    assert_eq!(t.unhide_patch("bar"), Err(TransactionError::Halted));
    assert_eq!(t.new_applied("n", oid(3)), Err(TransactionError::Halted));
    assert_eq!(t.new_unapplied("n", oid(3), 0), Err(TransactionError::Halted));
    assert_eq!(t.update_patch("foo", oid(3)), Err(TransactionError::Halted));
    assert_eq!(t.delete_patches(&list(&["bar"])), Err(TransactionError::Halted));
    assert_eq!(t.reorder(ListKind::Unapplied, &list(&["bar"])), Err(TransactionError::Halted));
    assert_eq!(t.rebase(oid(2)), Err(TransactionError::Halted));
    assert_eq!(
        t.push_merged("bar", MergeResult::Clean(oid(4))),
        Err(TransactionError::Halted)
    );
    let done = t.execute(oid(91), false).unwrap();
    assert!(done.conflicts);
    assert_eq!(done.state.applied(), &vec![patch("foo", 21)]);
    assert_eq!(done.state.unapplied(), &vec![patch("bar", 22)]);
    assert_eq!(done.state.prev(), Some(oid(91)));
    assert_eq!(done.branch_tip, oid(21));
    assert_eq!(done.log, vec![line('!', "foo"), line('>', "foo")]);
    assert_eq!(exit_code(Outcome::Halted { conflicts: done.conflicts }), 3);
}

#[test]
fn execute_links_the_state_to_the_one_before() {
    let mut t = start();
    assert_eq!(t.pop("a2"), Ok(()));
    assert_eq!(t.push("u1"), Ok(()));
    let done = t.execute(oid(91), true).unwrap();
    assert!(!done.conflicts);
    assert_eq!(done.state.prev(), Some(oid(91)));
    assert_eq!(done.state.head(), oid(1));
    assert_eq!(done.state.applied(), &vec![patch("a1", 11), patch("u1", 21)]);
    assert_eq!(done.state.unapplied(), &vec![patch("a2", 12), patch("u2", 22)]);
    assert_eq!(done.state.hidden(), &vec![patch("h1", 31)]);
    assert_eq!(done.branch_tip, oid(21));
    assert_eq!(done.branch_tip, done.state.top());
    assert_eq!(done.log, vec![line('-', "a2"), line('+', "u1"), line('>', "u1")]);
}

#[test]
fn execute_points_the_branch_at_the_head_without_applied_patches() {
    let mut t = start();
    assert_eq!(t.pop("a2"), Ok(()));
    assert_eq!(t.pop("a1"), Ok(()));
    let done = t.execute(oid(91), true).unwrap();
    assert_eq!(done.branch_tip, oid(1));
    assert_eq!(done.log, vec![line('-', "a2"), line('-', "a1")]);
}

#[test]
fn execute_fails_on_conflicts_at_the_checkout() {
    let t = start();
    assert_eq!(t.execute(oid(91), false).err(), Some(TransactionError::CheckoutConflicts));
    let mut detached = options();
    detached.use_index_and_worktree = false;
    let t = Transaction::new(base(), detached);
    assert!(t.execute(oid(91), false).is_ok());
}

#[test]
fn lines_of_progress_are_kept_in_order() {
    let mut t = start();
    assert_eq!(t.hide_patch("u2"), Ok(()));
    assert_eq!(t.unhide_patch("h1"), Ok(()));
    assert_eq!(t.new_applied("n", oid(5)), Ok(()));
    assert_eq!(t.push("nope"), Err(TransactionError::NoSuchPatch));
    assert_eq!(t.push_merged("u1", MergeResult::Clean(oid(6))), Ok(()));
    let done = t.execute(oid(91), true).unwrap();
    assert_eq!(
        done.log,
        vec![line('!', "u2"), line('-', "h1"), line('+', "n"), line('+', "u1"), line('>', "u1")]
    );
}

#[test]
fn operations_are_applied_in_their_order() {
    let mut t = start();
    let ops = vec![
        Operation::Pop("a2".to_string()),
        Operation::Hide("u1".to_string()),
        Operation::Unhide("h1".to_string()),
        Operation::Push("u2".to_string()),
        Operation::UpdatePatch("u2".to_string(), oid(62)),
        Operation::NewApplied("n1".to_string(), oid(41)),
        Operation::NewUnapplied("n2".to_string(), oid(42), 0),
        Operation::Reorder(ListKind::Applied, list(&["n1", "u2", "a1"])),
        Operation::DeletePatches(list(&["a2"])),
    ];
    assert_eq!(t.stage_all(&ops), Ok(()));
    assert_eq!(t.current().applied(), &vec![patch("n1", 41), patch("u2", 62), patch("a1", 11)]);
    assert_eq!(t.current().unapplied(), &vec![patch("n2", 42), patch("h1", 31)]);
    assert_eq!(t.current().hidden(), &vec![patch("u1", 21)]);
    assert_eq!(t.top(), oid(11));
    let done = t.execute(oid(91), true).unwrap();
    assert_eq!(
        done.log,
        vec![
            line('-', "a2"),
            line('!', "u1"),
            line('-', "h1"),
            line('+', "u2"),
            line('+', "n1"),
            line('>', "a1")
        ]
    );
}

#[test]
fn operations_stop_at_the_first_that_is_refused() {
    let mut t = start();
    let ops = vec![
        Operation::Pop("a2".to_string()),
        Operation::Rebase(oid(2)),
        Operation::Pop("a1".to_string()),
    ];
    assert_eq!(t.stage_all(&ops), Err((1, TransactionError::PatchesApplied)));
    assert_eq!(names(t.current().applied()), list(&["a1"]));
    assert_eq!(names(t.current().unapplied()), list(&["a2", "u1", "u2"]));
    assert_eq!(t.current().head(), oid(1));
    assert_eq!(t.stage_all(&vec![]), Ok(()));
    assert_eq!(t.stage(&Operation::Pop("a1".to_string())), Ok(()));
    assert_eq!(t.stage(&Operation::Rebase(oid(2))), Ok(()));
    assert_eq!(t.top(), oid(2));
    assert_eq!(
        t.stage(&Operation::NewUnapplied("x".to_string(), oid(3), 9)),
        Err(TransactionError::BadPosition)
    );
}

#[test]
fn halted_transaction_takes_no_operation() {
    let mut lenient = options();
    lenient.allow_conflicts = true;
    let mut t = Transaction::new(base(), lenient);
    assert_eq!(t.push_merged("u1", MergeResult::Conflict), Ok(()));
    assert_eq!(
        t.stage_all(&vec![Operation::Pop("a1".to_string())]),
        Err((0, TransactionError::Halted))
    );
    assert_eq!(t.stage_all(&vec![]), Ok(()));
    assert_eq!(names(t.current().applied()), list(&["a1", "a2", "u1"]));
}

#[test]
fn added_patches_are_applied_in_their_order() {
    let mut t = start();
    let ops = vec![
        Operation::NewApplied("n1".to_string(), oid(41)),
        Operation::NewApplied("n2".to_string(), oid(42)),
        Operation::NewApplied("n3".to_string(), oid(43)),
    ];
    assert_eq!(t.stage_all(&ops), Ok(()));
    assert_eq!(names(t.current().applied()), list(&["a1", "a2", "n1", "n2", "n3"]));
    assert_eq!(t.current().unapplied(), base().unapplied());
    assert_eq!(t.current().hidden(), base().hidden());
    assert_eq!(t.top(), oid(43));
}
