use stgit::console::{
    alias_target, hook_runs, hooks_base, is_executable, message_segments, needs_shell,
    AliasTarget, HooksBase, Segment,
};

fn plain(text: &str) -> Segment {
    Segment { text: text.to_string(), highlighted: false }
}

fn bright(text: &str) -> Segment {
    Segment { text: text.to_string(), highlighted: true }
}

fn flat(segments: &[Segment]) -> Vec<(char, bool)> {
    segments.iter().flat_map(|s| s.text.chars().map(move |c| (c, s.highlighted))).collect()
}

#[test]
fn message_without_backticks_is_plain() {
    assert_eq!(message_segments("nothing special"), vec![plain("nothing special")]);
    assert_eq!(message_segments(""), vec![plain("")]);
}

#[test]
fn message_between_backticks_is_highlighted() {
    assert_eq!(
        message_segments("patch `foo` exists"),
        vec![plain("patch `"), bright("foo"), plain("`"), plain(" exists")]
    );
    assert_eq!(
        message_segments("`a` and `b`"),
        vec![
            plain("`"),
            bright("a"),
            plain("`"),
            plain(" and `"),
            bright("b"),
            plain("`"),
            plain("")
        ]
    );
}

#[test]
fn backtick_without_partner_highlights_nothing() {
    assert_eq!(message_segments("one ` only"), vec![plain("one ` only")]);
    let segments = message_segments("`a` then ` alone");
    assert_eq!(
        flat(&segments),
        "`a` then ` alone".chars().enumerate().map(|(i, c)| (c, i == 1)).collect::<Vec<_>>()
    );
}

#[test]
fn segments_spell_the_message() {
    for msg in ["", "`", "``", "```", "a`b`c`d`e", "``x``y", "é `ü` ß"] {
        let text: String = message_segments(msg).iter().map(|s| s.text.as_str()).collect();
        assert_eq!(text, msg);
    }
    assert_eq!(flat(&message_segments("``x``y")), vec![
        ('`', false),
        ('`', false),
        ('x', false),
        ('`', false),
        ('`', false),
        ('y', false),
    ]);
}

#[test]
fn shell_is_needed_for_its_characters() {
    for command in ["ls | wc", "a && b", "echo $HOME", "push -a", "x;y", "say 'hi'", "a\tb", "~"] {
        assert!(needs_shell(command));
    }
    for command in ["series", "git-log", "/usr/bin/true", "", "a.b-c_d/e", "é"] {
        assert!(!needs_shell(command));
    }
}

#[test]
fn alias_for_a_command_wins() {
    assert_eq!(alias_target(true, false), AliasTarget::Command);
    assert_eq!(alias_target(true, true), AliasTarget::Command);
    assert_eq!(alias_target(false, true), AliasTarget::Recursive);
    assert_eq!(alias_target(false, false), AliasTarget::Unknown);
}

#[test]
fn hooks_lie_where_they_are_configured() {
    assert_eq!(hooks_base(None, false), HooksBase::Default);
    assert_eq!(hooks_base(None, true), HooksBase::Default);
    assert_eq!(hooks_base(Some(true), false), HooksBase::Configured);
    assert_eq!(hooks_base(Some(true), true), HooksBase::Configured);
    assert_eq!(hooks_base(Some(false), true), HooksBase::ConfiguredInGitDir);
    assert_eq!(hooks_base(Some(false), false), HooksBase::ConfiguredInWorkTree);
}

#[test]
fn hooks_run_where_they_are_executable_files() {
    assert!(is_executable(0o755));
    assert!(is_executable(0o100));
    assert!(is_executable(0o001));
    assert!(!is_executable(0o644));
    assert!(!is_executable(0));
    assert!(hook_runs(true, 0o755));
    assert!(!hook_runs(false, 0o755));
    assert!(!hook_runs(true, 0o644));
}
