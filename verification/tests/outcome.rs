use stgit::outcome::{exit_code, lists_conflicts, Outcome};

#[test]
fn exit_codes_tell_how_a_command_ended() {
    assert_eq!(exit_code(Outcome::Success), 0);
    assert_eq!(exit_code(Outcome::Usage { on_stderr: true }), 1);
    assert_eq!(exit_code(Outcome::Usage { on_stderr: false }), 0);
    assert_eq!(exit_code(Outcome::Failed), 2);
    assert_eq!(exit_code(Outcome::Halted { conflicts: true }), 3);
    assert_eq!(exit_code(Outcome::Halted { conflicts: false }), 3);
    assert_eq!(exit_code(Outcome::CheckoutConflicts), 3);
    assert_eq!(exit_code(Outcome::CausedConflicts), 3);
}

#[test]
fn conflicts_are_listed_after_a_halt_on_conflicts() {
    assert!(lists_conflicts(Outcome::Halted { conflicts: true }));
    assert!(!lists_conflicts(Outcome::Halted { conflicts: false }));
    assert!(!lists_conflicts(Outcome::CheckoutConflicts));
    assert!(!lists_conflicts(Outcome::Success));
}
