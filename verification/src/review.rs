//! The operator's review of an audited archive, as a state machine: the menu
//! that a report calls for, the action that each answer selects, and the
//! verdict that a run of answers ends in.

use crate::audit::AuditReport;
use crate::audit::ReportView;
use crate::names::copy_names;
use crate::text::is_letter;
use crate::text::same_text;
use vstd::prelude::*;

verus! {

/// What the caller does after one answer of the operator.
#[derive(Clone, Copy, Debug, PartialEq, Eq, Structural)]
pub enum AuditAction {
    /// Print the privileged files, then ask again.
    ListPrivileged,
    /// Print the executable files, then ask again.
    ListExecutable,
    /// Print all normal files, then ask again.
    ListAll,
    /// Print the install script, then ask again.
    ShowInstallScript,
    /// Run a shell in the archive's directory, then ask again.
    InspectShell,
    /// The archive is accepted: the audit is complete.
    Accept,
    /// The operator stops the whole run.
    Abort,
    /// The answer selects nothing: ask again.
    Reprompt,
}

/// The parts of the menu that depend on the report.
#[derive(Clone, Copy, Debug, PartialEq, Eq, Structural)]
pub struct Menu {
    /// Tell the operator that the archive has no privileged files.
    pub no_privileged_notice: bool,
    /// Offer to show the install script.
    pub offers_install_script: bool,
    /// Offer, as a warning, to list the privileged files.
    pub offers_privileged: bool,
}

/// Where a run of answers has brought the review.
#[derive(Clone, Copy, Debug, PartialEq, Eq, Structural)]
pub enum AuditOutcome {
    /// The operator accepted the archive.
    Approved,
    /// The operator aborted.
    Aborted,
    /// No verdict yet: the review waits for another answer.
    Pending,
}

/// The archive carries an install script.
pub open spec fn spec_has_install(report: ReportView) -> bool {
    report.install_file.len() > 0
}

/// The archive has privileged members.
pub open spec fn spec_has_privileged(report: ReportView) -> bool {
    report.suid_files.len() > 0
}

/// The menu for a report.
pub open spec fn spec_menu(report: ReportView) -> Menu {
    Menu {
        no_privileged_notice: !spec_has_privileged(report),
        offers_install_script: spec_has_install(report),
        offers_privileged: spec_has_privileged(report),
    }
}

/// The action that the lower-cased answer selects. An option that the menu
/// does not offer selects nothing.
pub open spec fn spec_action(report: ReportView, answer: Seq<char>) -> AuditAction {
    if is_letter(answer, 's') && spec_has_privileged(report) {
        AuditAction::ListPrivileged
    } else if is_letter(answer, 'e') {
        AuditAction::ListExecutable
    } else if is_letter(answer, 'l') {
        AuditAction::ListAll
    } else if is_letter(answer, 'i') && spec_has_install(report) {
        AuditAction::ShowInstallScript
    } else if is_letter(answer, 't') {
        AuditAction::InspectShell
    } else if is_letter(answer, 'o') {
        AuditAction::Accept
    } else if is_letter(answer, 'q') {
        AuditAction::Abort
    } else {
        AuditAction::Reprompt
    }
}

/// The options that the menu offers, in the order in which they are shown:
/// the lists, the shell, the install script where there is one, the
/// privileged files where there are any, and the two verdicts.
pub open spec fn spec_options(report: ReportView) -> Seq<AuditAction> {
    seq![AuditAction::ListExecutable, AuditAction::ListAll, AuditAction::InspectShell] + (
    if spec_has_install(report) {
        seq![AuditAction::ShowInstallScript]
    } else {
        Seq::empty()
    }) + (if spec_has_privileged(report) {
        seq![AuditAction::ListPrivileged]
    } else {
        Seq::empty()
    }) + seq![AuditAction::Accept, AuditAction::Abort]
}

/// The letter that selects an option; asking again has none.
pub open spec fn spec_option_key(action: AuditAction) -> Option<char> {
    match action {
        AuditAction::ListPrivileged => Some('s'),
        AuditAction::ListExecutable => Some('e'),
        AuditAction::ListAll => Some('l'),
        AuditAction::ShowInstallScript => Some('i'),
        AuditAction::InspectShell => Some('t'),
        AuditAction::Accept => Some('o'),
        AuditAction::Abort => Some('q'),
        AuditAction::Reprompt => None,
    }
}

/// The answer is the letter of the option.
pub open spec fn selects(answer: Seq<char>, option: AuditAction) -> bool {
    match spec_option_key(option) {
        Some(key) => is_letter(answer, key),
        None => false,
    }
}

/// Whether the action ends the review.
pub open spec fn is_verdict(action: AuditAction) -> bool {
    action == AuditAction::Accept || action == AuditAction::Abort
}

/// The verdict after the answers, read from the first on: the first accept or
/// abort decides, and what follows it is not read.
pub open spec fn spec_outcome(report: ReportView, answers: Seq<Seq<char>>) -> AuditOutcome
    decreases answers.len(),
{
    if answers.len() == 0 {
        AuditOutcome::Pending
    } else {
        match spec_action(report, answers.first()) {
            AuditAction::Accept => AuditOutcome::Approved,
            AuditAction::Abort => AuditOutcome::Aborted,
            _ => spec_outcome(report, answers.drop_first()),
        }
    }
}

/// The lines that an action puts before the operator.
pub open spec fn spec_shown(report: ReportView, action: AuditAction) -> Seq<Seq<char>> {
    match action {
        AuditAction::ListPrivileged => report.suid_files,
        AuditAction::ListExecutable => report.executable_files,
        AuditAction::ListAll => report.all_files,
        AuditAction::ShowInstallScript => seq![report.install_file],
        _ => Seq::empty(),
    }
}

impl AuditReport {
    /// Whether an install script was captured.
    pub fn has_install(&self) -> (r: bool)
        ensures
            r == spec_has_install(self.deep_view()),
    {
        !self.install_file.as_str().is_empty()
    }

    /// Whether any member is privileged.
    pub fn has_privileged(&self) -> (r: bool)
        ensures
            r == spec_has_privileged(self.deep_view()),
    {
        self.suid_files.len() > 0
    }

    /// The menu to show before each answer.
    pub fn menu(&self) -> (r: Menu)
        ensures
            r == spec_menu(self.deep_view()),
    {
        let privileged = self.has_privileged();
        Menu {
            no_privileged_notice: !privileged,
            offers_install_script: self.has_install(),
            offers_privileged: privileged,
        }
    }

    /// The options to list in the prompt, in order. Accepting and aborting
    /// are always among them.
    pub fn options(&self) -> (r: Vec<AuditAction>)
        ensures
            r@ == spec_options(self.deep_view()),
    {
        let mut options: Vec<AuditAction> = Vec::new();
        options.push(AuditAction::ListExecutable);
        options.push(AuditAction::ListAll);
        options.push(AuditAction::InspectShell);
        if self.has_install() {
            options.push(AuditAction::ShowInstallScript);
        }
        if self.has_privileged() {
            options.push(AuditAction::ListPrivileged);
        }
        options.push(AuditAction::Accept);
        options.push(AuditAction::Abort);
        assert(options@ =~= spec_options(self.deep_view()));
        options
    }

    /// The action for one lower-cased answer.
    pub fn action(&self, answer: &str) -> (r: AuditAction)
        ensures
            r == spec_action(self.deep_view(), answer@),
    {
        proof {
            reveal_strlit("s");
            reveal_strlit("e");
            reveal_strlit("l");
            reveal_strlit("i");
            reveal_strlit("t");
            reveal_strlit("o");
            reveal_strlit("q");
            let a = answer@;
            assert(a == "s"@ <==> is_letter(a, 's')) by {
                assert(is_letter(a, 's') ==> a =~= "s"@);
            }
            assert(a == "e"@ <==> is_letter(a, 'e')) by {
                assert(is_letter(a, 'e') ==> a =~= "e"@);
            }
            assert(a == "l"@ <==> is_letter(a, 'l')) by {
                assert(is_letter(a, 'l') ==> a =~= "l"@);
            }
            assert(a == "i"@ <==> is_letter(a, 'i')) by {
                assert(is_letter(a, 'i') ==> a =~= "i"@);
            }
            assert(a == "t"@ <==> is_letter(a, 't')) by {
                assert(is_letter(a, 't') ==> a =~= "t"@);
            }
            assert(a == "o"@ <==> is_letter(a, 'o')) by {
                assert(is_letter(a, 'o') ==> a =~= "o"@);
            }
            assert(a == "q"@ <==> is_letter(a, 'q')) by {
                assert(is_letter(a, 'q') ==> a =~= "q"@);
            }
        }
        if same_text(answer, "s") && self.has_privileged() {
            AuditAction::ListPrivileged
        } else if same_text(answer, "e") {
            AuditAction::ListExecutable
        } else if same_text(answer, "l") {
            AuditAction::ListAll
        } else if same_text(answer, "i") && self.has_install() {
            AuditAction::ShowInstallScript
        } else if same_text(answer, "t") {
            AuditAction::InspectShell
        } else if same_text(answer, "o") {
            AuditAction::Accept
        } else if same_text(answer, "q") {
            AuditAction::Abort
        } else {
            AuditAction::Reprompt
        }
    }

    /// The lines to print for an action.
    pub fn shown(&self, action: AuditAction) -> (r: Vec<String>)
        ensures
            r.deep_view() == spec_shown(self.deep_view(), action),
    {
        match action {
            AuditAction::ListPrivileged => copy_names(&self.suid_files),
            AuditAction::ListExecutable => copy_names(&self.executable_files),
            AuditAction::ListAll => copy_names(&self.all_files),
            AuditAction::ShowInstallScript => {
                let mut lines: Vec<String> = Vec::new();
                lines.push(self.install_file.clone());
                assert(lines.deep_view() =~= seq![self.install_file@]);
                lines
            },
            _ => {
                let lines: Vec<String> = Vec::new();
                assert(lines.deep_view() =~= Seq::<Seq<char>>::empty());
                lines
            },
        }
    }

    /// Feeds a script of answers to the review and says where it ends.
    pub fn run_audit(&self, answers: &Vec<String>) -> (r: AuditOutcome)
        ensures
            r == spec_outcome(self.deep_view(), answers.deep_view()),
    {
        let ghost all = answers.deep_view();
        let ghost report = self.deep_view();
        let mut i: usize = 0;
        assert(all.skip(0) =~= all);
        while i < answers.len()
            invariant
                i <= answers.len(),
                all == answers.deep_view(),
                report == self.deep_view(),
                spec_outcome(report, all) == spec_outcome(report, all.skip(i as int)),
            decreases answers.len() - i,
        {
            let action = self.action(answers[i].as_str());
            proof {
                assert(all.skip(i as int).first() == answers[i as int]@);
                assert(all.skip(i as int).drop_first() =~= all.skip(i + 1));
            }
            match action {
                AuditAction::Accept => {
                    return AuditOutcome::Approved;
                },
                AuditAction::Abort => {
                    return AuditOutcome::Aborted;
                },
                _ => {},
            }
            i += 1;
        }
        AuditOutcome::Pending
    }
}

/// The letter that selects an option.
pub fn option_key(action: AuditAction) -> (r: Option<char>)
    ensures
        r == spec_option_key(action),
{
    match action {
        AuditAction::ListPrivileged => Some('s'),
        AuditAction::ListExecutable => Some('e'),
        AuditAction::ListAll => Some('l'),
        AuditAction::ShowInstallScript => Some('i'),
        AuditAction::InspectShell => Some('t'),
        AuditAction::Accept => Some('o'),
        AuditAction::Abort => Some('q'),
        AuditAction::Reprompt => None,
    }
}

/// The prompt and the answers agree: an answer selects an option exactly when
/// the option is offered and the answer is its letter. So every option of the
/// prompt can be chosen, accepting and aborting always, and nothing can be
/// chosen that the prompt does not offer.
pub proof fn law_answers_select_what_is_offered(
    report: ReportView,
    answer: Seq<char>,
    option: AuditAction,
)
    ensures
        (spec_action(report, answer) == option && option != AuditAction::Reprompt) <==> (
        spec_options(report).contains(option) && selects(answer, option)),
        spec_options(report).contains(AuditAction::Accept),
        spec_options(report).contains(AuditAction::Abort),
{
    let options = spec_options(report);
    let install: Seq<AuditAction> = if spec_has_install(report) {
        seq![AuditAction::ShowInstallScript]
    } else {
        Seq::empty()
    };
    let privileged: Seq<AuditAction> = if spec_has_privileged(report) {
        seq![AuditAction::ListPrivileged]
    } else {
        Seq::empty()
    };
    let n = options.len() as int;
    assert(n == 5 + install.len() + privileged.len());
    assert(options[0] == AuditAction::ListExecutable);
    assert(options[1] == AuditAction::ListAll);
    assert(options[2] == AuditAction::InspectShell);
    assert(options[n - 2] == AuditAction::Accept);
    assert(options[n - 1] == AuditAction::Abort);
    if spec_has_install(report) {
        assert(options[3] == AuditAction::ShowInstallScript);
    }
    if spec_has_privileged(report) {
        assert(options[3 + install.len() as int] == AuditAction::ListPrivileged);
    }
    assert forall|k: int| 0 <= k < n implies (#[trigger] options[k] == AuditAction::ListExecutable
        || options[k] == AuditAction::ListAll || options[k] == AuditAction::InspectShell
        || options[k] == AuditAction::Accept || options[k] == AuditAction::Abort || (options[k]
        == AuditAction::ShowInstallScript && spec_has_install(report)) || (options[k]
        == AuditAction::ListPrivileged && spec_has_privileged(report))) by {
        if k >= 3 && k < n - 2 {
            if k < 3 + install.len() as int {
                assert(options[k] == install[k - 3]);
            } else {
                assert(options[k] == privileged[k - 3 - install.len() as int]);
            }
        }
    }
}

/// As long as no answer accepts or aborts, the review keeps asking: it never
/// ends by itself, however many answers come.
pub proof fn law_review_waits_for_a_verdict(report: ReportView, answers: Seq<Seq<char>>)
    requires
        forall|i: int| 0 <= i < answers.len() ==> !is_verdict(spec_action(report, #[trigger] answers[i])),
    ensures
        spec_outcome(report, answers) == AuditOutcome::Pending,
    decreases answers.len(),
{
    if answers.len() > 0 {
        assert(!is_verdict(spec_action(report, answers[0])));
        assert forall|i: int| 0 <= i < answers.drop_first().len() implies !is_verdict(
            spec_action(report, #[trigger] answers.drop_first()[i]),
        ) by {
            assert(answers.drop_first()[i] == answers[i + 1]);
        }
        law_review_waits_for_a_verdict(report, answers.drop_first());
    }
}

/// The first accept or abort among the answers decides, whatever follows it.
pub proof fn law_first_verdict_decides(report: ReportView, answers: Seq<Seq<char>>, k: int)
    requires
        0 <= k < answers.len(),
        is_verdict(spec_action(report, answers[k])),
        forall|i: int| 0 <= i < k ==> !is_verdict(spec_action(report, #[trigger] answers[i])),
    ensures
        spec_outcome(report, answers) == if spec_action(report, answers[k]) == AuditAction::Accept {
            AuditOutcome::Approved
        } else {
            AuditOutcome::Aborted
        },
    decreases k,
{
    if k > 0 {
        assert(!is_verdict(spec_action(report, answers[0])));
        assert forall|i: int| 0 <= i < k - 1 implies !is_verdict(
            spec_action(report, #[trigger] answers.drop_first()[i]),
        ) by {
            assert(answers.drop_first()[i] == answers[i + 1]);
        }
        assert(answers.drop_first()[k - 1] == answers[k]);
        law_first_verdict_decides(report, answers.drop_first(), k - 1);
    }
}

} // verus!
