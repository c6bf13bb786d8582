use rua::audit::scan_members;
use rua::audit::AuditReport;
use rua::member::Member;
use rua::names::copy_names;
use rua::review::option_key;
use rua::review::AuditAction;
use rua::review::AuditOutcome;

fn report(privileged: bool, install: &str) -> AuditReport {
    let mut members = vec![
        Member { path: "usr/bin/tool".to_string(), mode: 0o755 },
        Member { path: "usr/share/doc/tool".to_string(), mode: 0o644 },
    ];
    if privileged {
        members.push(Member { path: "usr/bin/su-tool".to_string(), mode: 0o4755 });
    }
    scan_members(&members, install.to_string())
}

fn answers(list: &[&str]) -> Vec<String> {
    list.iter().map(|s| s.to_string()).collect()
}

#[test]
fn menu_follows_the_report() {
    let plain = report(false, "").menu();
    assert!(plain.no_privileged_notice);
    assert!(!plain.offers_install_script);
    assert!(!plain.offers_privileged);
    let risky = report(true, "post_install() { :; }").menu();
    assert!(!risky.no_privileged_notice);
    assert!(risky.offers_install_script);
    assert!(risky.offers_privileged);
}

#[test]
fn each_answer_selects_its_action() {
    let r = report(true, "script");
    assert_eq!(r.action("s"), AuditAction::ListPrivileged);
    assert_eq!(r.action("e"), AuditAction::ListExecutable);
    assert_eq!(r.action("l"), AuditAction::ListAll);
    assert_eq!(r.action("i"), AuditAction::ShowInstallScript);
    assert_eq!(r.action("t"), AuditAction::InspectShell);
    assert_eq!(r.action("o"), AuditAction::Accept);
    assert_eq!(r.action("q"), AuditAction::Abort);
    assert_eq!(r.action(""), AuditAction::Reprompt);
    assert_eq!(r.action("x"), AuditAction::Reprompt);
    assert_eq!(r.action("ok"), AuditAction::Reprompt);
    assert_eq!(r.action("O"), AuditAction::Reprompt);
    assert_eq!(r.action(" o"), AuditAction::Reprompt);
}

#[test]
fn options_that_are_not_offered_select_nothing() {
    let r = report(false, "");
    assert_eq!(r.action("s"), AuditAction::Reprompt);
    assert_eq!(r.action("i"), AuditAction::Reprompt);
    assert_eq!(r.action("e"), AuditAction::ListExecutable);
}

#[test]
fn actions_show_their_lists() {
    let r = report(true, "script text");
    assert_eq!(r.shown(AuditAction::ListPrivileged), vec!["usr/bin/su-tool"]);
    assert_eq!(r.shown(AuditAction::ListExecutable), vec!["usr/bin/tool", "usr/bin/su-tool"]);
    assert_eq!(
        r.shown(AuditAction::ListAll),
        vec!["usr/bin/tool", "usr/share/doc/tool", "usr/bin/su-tool"]
    );
    assert_eq!(r.shown(AuditAction::ShowInstallScript), vec!["script text"]);
    assert!(r.shown(AuditAction::InspectShell).is_empty());
    assert!(r.shown(AuditAction::Accept).is_empty());
    assert!(r.shown(AuditAction::Abort).is_empty());
    assert!(r.shown(AuditAction::Reprompt).is_empty());
}

#[test]
fn setuid_member_is_offered_with_a_warning_and_review_waits() {
    let members = vec![Member { path: "usr/bin/passwd".to_string(), mode: 0o4755 }];
    let r = scan_members(&members, String::new());
    assert_eq!(r.suid_files, vec!["usr/bin/passwd"]);
    assert!(r.menu().offers_privileged);
    assert!(!r.menu().no_privileged_notice);
    let waiting = answers(&["x", "", "s", "yes", "no", "l", "e", "t", "i", "abort", "accept"]);
    assert_eq!(r.run_audit(&waiting), AuditOutcome::Pending);
    let mut long = Vec::new();
    for _ in 0..1000 {
        long.push("what".to_string());
    }
    assert_eq!(r.run_audit(&long), AuditOutcome::Pending);
}

#[test]
fn first_verdict_decides() {
    let r = report(true, "");
    assert_eq!(r.run_audit(&answers(&[])), AuditOutcome::Pending);
    assert_eq!(r.run_audit(&answers(&["o"])), AuditOutcome::Approved);
    assert_eq!(r.run_audit(&answers(&["q"])), AuditOutcome::Aborted);
    assert_eq!(r.run_audit(&answers(&["l", "s", "o", "q"])), AuditOutcome::Approved);
    assert_eq!(r.run_audit(&answers(&["l", "q", "o"])), AuditOutcome::Aborted);
    assert_eq!(r.run_audit(&answers(&["l", "e"])), AuditOutcome::Pending);
}

#[test]
fn prompt_lists_what_can_be_chosen() {
    let lists = vec![AuditAction::ListExecutable, AuditAction::ListAll, AuditAction::InspectShell];
    let verdicts = vec![AuditAction::Accept, AuditAction::Abort];
    let with = |middle: Vec<AuditAction>| -> Vec<AuditAction> {
        lists.iter().chain(middle.iter()).chain(verdicts.iter()).cloned().collect()
    };
    assert_eq!(report(false, "").options(), with(vec![]));
    assert_eq!(report(true, "").options(), with(vec![AuditAction::ListPrivileged]));
    assert_eq!(report(false, "x").options(), with(vec![AuditAction::ShowInstallScript]));
    let full = report(true, "x");
    assert_eq!(
        full.options(),
        with(vec![AuditAction::ShowInstallScript, AuditAction::ListPrivileged])
    );
    for option in full.options() {
        let key = option_key(option).unwrap().to_string();
        assert_eq!(full.action(&key), option);
    }
    assert_eq!(option_key(AuditAction::Abort), Some('q'));
    assert_eq!(option_key(AuditAction::Accept), Some('o'));
    assert_eq!(option_key(AuditAction::Reprompt), None);
}

#[test]
fn copy_is_equal() {
    let list = answers(&["a", "", "c"]);
    assert_eq!(copy_names(&list), list);
    assert!(copy_names(&Vec::new()).is_empty());
}
