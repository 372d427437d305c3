//! Dialogs: what each backend shows, and how its reply reads.

use crate::command;
use crate::command::{CommandLine, CommandModel};
use crate::decision::PromptDecision;
use crate::escape;
use crate::host;
use crate::platform::DialogBackend;
use crate::policy::PromptOutcome;
use crate::script;
use crate::text;
use crate::text_laws;
use vstd::prelude::*;

verus! {

/// Window title shared by every dialog backend so the notifier can find
/// and focus the dialog when the user clicks the notification.
pub const DIALOG_WINDOW_TITLE: &'static str = "nono: network access";

// ---------------------------------------------------------------------------
// Replies
// ---------------------------------------------------------------------------

/// The token with which a dialog reports a decision.
pub open spec fn token_of(decision: PromptDecision) -> Seq<char> {
    match decision {
        PromptDecision::AllowOnce => "allow_once"@,
        PromptDecision::AllowPermanentHost => "allow_permanent_host"@,
        PromptDecision::AllowPermanentSuffix => "allow_permanent_suffix"@,
        PromptDecision::DenyOnce => "deny_once"@,
        PromptDecision::DenyPermanentHost => "deny_permanent_host"@,
        PromptDecision::DenyPermanentSuffix => "deny_permanent_suffix"@,
    }
}

/// No two decisions share a token.
proof fn lemma_tokens_differ(a: PromptDecision, b: PromptDecision)
    requires
        token_of(a) == token_of(b),
    ensures
        a == b,
{
    reveal_strlit("allow_once");
    reveal_strlit("allow_permanent_host");
    reveal_strlit("allow_permanent_suffix");
    reveal_strlit("deny_once");
    reveal_strlit("deny_permanent_host");
    reveal_strlit("deny_permanent_suffix");
    assert(token_of(a).len() == token_of(b).len());
    if token_of(a).len() == 20 {
        assert(token_of(a)[0] == token_of(b)[0]);
    }
}

/// Reads the token of a decision.
#[must_use]
pub fn parse_decision_token(token: &str) -> (r: Option<PromptDecision>)
    ensures
        match r {
            Some(decision) => token@ == token_of(decision),
            None => forall|decision: PromptDecision| token@ != #[trigger] token_of(decision),
        },
{
    if text::same_text(token, "allow_once") {
        Some(PromptDecision::AllowOnce)
    } else if text::same_text(token, "allow_permanent_host") {
        Some(PromptDecision::AllowPermanentHost)
    } else if text::same_text(token, "allow_permanent_suffix") {
        Some(PromptDecision::AllowPermanentSuffix)
    } else if text::same_text(token, "deny_once") {
        Some(PromptDecision::DenyOnce)
    } else if text::same_text(token, "deny_permanent_host") {
        Some(PromptDecision::DenyPermanentHost)
    } else if text::same_text(token, "deny_permanent_suffix") {
        Some(PromptDecision::DenyPermanentSuffix)
    } else {
        None
    }
}

/// The decision that a token reports.
pub open spec fn token_decision(token: Seq<char>) -> Option<PromptDecision> {
    if exists|decision: PromptDecision| token == #[trigger] token_of(decision) {
        Some(choose|decision: PromptDecision| token == #[trigger] token_of(decision))
    } else {
        None
    }
}

/// Every decision has a token of its own, which reads as that decision.
pub proof fn law_token_names_decision(decision: PromptDecision)
    ensures
        token_decision(token_of(decision)) == Some(decision),
{
    let read = choose|d: PromptDecision| token_of(decision) == #[trigger] token_of(d);
    assert(token_of(decision) == token_of(read));
    lemma_tokens_differ(decision, read);
}

/// A reply that is no decision.
pub struct UnrecognisedReply {
    pub program: String,
    pub token: String,
}

/// The program behind a backend.
pub open spec fn program_of(backend: DialogBackend) -> Seq<char> {
    match backend {
        DialogBackend::MacOsOsascript => "osascript"@,
        DialogBackend::LinuxZenity => "zenity"@,
        DialogBackend::LinuxKdialog => "kdialog"@,
        DialogBackend::WslPowershell => "powershell.exe"@,
    }
}

/// Where a reply holds its token: the last line of what PowerShell prints, all
/// of what the others print.
pub open spec fn reply_token(backend: DialogBackend, stdout: Seq<char>) -> Seq<char> {
    match backend {
        DialogBackend::WslPowershell => text::trimmed(text::last_line(stdout)),
        _ => text::trimmed(stdout),
    }
}

/// Whether a status means that the user cancelled the dialog.
pub open spec fn is_cancelled(backend: DialogBackend, status: i32) -> bool {
    (backend is LinuxZenity || backend is LinuxKdialog) && status != 0
}

/// The decision in a reply, where it holds one. A cancelled dialog denies.
pub open spec fn reply_decision(
    backend: DialogBackend,
    status: i32,
    stdout: Seq<char>,
) -> Option<PromptDecision> {
    if is_cancelled(backend, status) {
        Some(PromptDecision::DenyOnce)
    } else {
        token_decision(reply_token(backend, stdout))
    }
}

// ---------------------------------------------------------------------------
// What the dialogs show
// ---------------------------------------------------------------------------

/// A host and a port with a colon between them.
pub open spec fn destination(host: Seq<char>, port: u16) -> Seq<char> {
    host + ":"@ + text::decimal(port as nat)
}

/// A host and a port with a colon between them.
pub fn destination_text(host: &str, port: u16) -> (r: String)
    ensures
        r@ == destination(host@, port),
{
    let mut out = host.to_owned();
    out.append(":");
    out.append(text::decimal_text(port).as_str());
    out
}

/// The label of the choice that allows by suffix.
pub open spec fn allow_suffix_label(suffix: Seq<char>) -> Seq<char> {
    "Allow permanently (*."@ + suffix + ")"@
}

/// The label of the choice that denies by suffix.
pub open spec fn deny_suffix_label(suffix: Seq<char>) -> Seq<char> {
    "Deny permanently (*."@ + suffix + ")"@
}

/// Puts a text between two others.
fn between(before: &str, middle: &str, after: &str) -> (r: String)
    ensures
        r@ == before@ + middle@ + after@,
{
    let mut out = before.to_owned();
    out.append(middle);
    out.append(after);
    out
}

/// The AppleScript of a dialog about a host, with the suggested suffix.
pub open spec fn osascript_dialog(host: Seq<char>, port: u16) -> Seq<char> {
    let suffix = escape::applescript_escaped(host::suffix_hint(host));
    script::OSASCRIPT_ALLOW_CHOICES@ + suffix + script::OSASCRIPT_DENY_CHOICES@ + suffix
        + script::OSASCRIPT_TITLE@ + escape::applescript_escaped(DIALOG_WINDOW_TITLE@)
        + script::OSASCRIPT_PROMPT@ + destination(escape::applescript_escaped(host), port)
        + script::OSASCRIPT_ALLOW_REPLIES@ + suffix + script::OSASCRIPT_DENY_REPLIES@ + suffix
        + script::OSASCRIPT_END@
}

/// The dialog of `osascript`.
#[must_use]
pub fn osascript_prompt(host: &str, port: u16) -> (r: CommandLine)
    ensures
        r@ == command::osascript_model(osascript_dialog(host@, port)),
{
    let hint = host::registered_suffix_hint(host);
    let suffix = escape::escape_applescript(hint.as_str());
    let title = escape::escape_applescript(DIALOG_WINDOW_TITLE);
    let escaped = escape::escape_applescript(host);
    let target = destination_text(escaped.as_str(), port);
    let mut script = script::OSASCRIPT_ALLOW_CHOICES.to_owned();
    script.append(suffix.as_str());
    script.append(script::OSASCRIPT_DENY_CHOICES);
    script.append(suffix.as_str());
    script.append(script::OSASCRIPT_TITLE);
    script.append(title.as_str());
    script.append(script::OSASCRIPT_PROMPT);
    script.append(target.as_str());
    script.append(script::OSASCRIPT_ALLOW_REPLIES);
    script.append(suffix.as_str());
    script.append(script::OSASCRIPT_DENY_REPLIES);
    script.append(suffix.as_str());
    script.append(script::OSASCRIPT_END);
    command::osascript_command(script)
}

/// The text of a zenity dialog.
pub open spec fn zenity_text(host: Seq<char>, port: u16) -> Seq<char> {
    "The sandboxed process is trying to reach:\n\n    "@ + destination(host, port)
        + "\n\nHow should nono handle this destination?"@
}

/// The arguments of a zenity dialog: a radio list with the choices and their
/// tokens, the denial of this request picked.
pub open spec fn zenity_args(host: Seq<char>, port: u16) -> Seq<Seq<char>> {
    let suffix = host::suffix_hint(host);
    seq![
        "--list"@,
        "--radiolist"@,
        "--title="@ + DIALOG_WINDOW_TITLE@,
        "--text"@,
        zenity_text(host, port),
        "--column=Pick"@,
        "--column=Action"@,
        "--column=id"@,
        "--hide-column=3"@,
        "--print-column=3"@,
        "FALSE"@,
        "Allow once"@,
        "allow_once"@,
        "FALSE"@,
        "Allow permanently (this host)"@,
        "allow_permanent_host"@,
        "FALSE"@,
        allow_suffix_label(suffix),
        "allow_permanent_suffix"@,
        "TRUE"@,
        "Deny once"@,
        "deny_once"@,
        "FALSE"@,
        "Deny permanently (this host)"@,
        "deny_permanent_host"@,
        "FALSE"@,
        deny_suffix_label(suffix),
        "deny_permanent_suffix"@,
    ]
}

/// The dialog of `zenity`.
#[must_use]
pub fn zenity_prompt(host: &str, port: u16) -> (r: CommandLine)
    ensures
        r@ == (CommandModel { program: "zenity"@, args: zenity_args(host@, port), stdin: None }),
{
    let target = destination_text(host, port);
    let text = between(
        "The sandboxed process is trying to reach:\n\n    ",
        target.as_str(),
        "\n\nHow should nono handle this destination?",
    );
    let suffix = host::registered_suffix_hint(host);
    let allow_suffix = between("Allow permanently (*.", suffix.as_str(), ")");
    let deny_suffix = between("Deny permanently (*.", suffix.as_str(), ")");
    let mut title = "--title=".to_owned();
    title.append(DIALOG_WINDOW_TITLE);
    let args: Vec<String> = vec![
        "--list".to_owned(),
        "--radiolist".to_owned(),
        title,
        "--text".to_owned(),
        text,
        "--column=Pick".to_owned(),
        "--column=Action".to_owned(),
        "--column=id".to_owned(),
        "--hide-column=3".to_owned(),
        "--print-column=3".to_owned(),
        "FALSE".to_owned(),
        "Allow once".to_owned(),
        "allow_once".to_owned(),
        "FALSE".to_owned(),
        "Allow permanently (this host)".to_owned(),
        "allow_permanent_host".to_owned(),
        "FALSE".to_owned(),
        allow_suffix,
        "allow_permanent_suffix".to_owned(),
        "TRUE".to_owned(),
        "Deny once".to_owned(),
        "deny_once".to_owned(),
        "FALSE".to_owned(),
        "Deny permanently (this host)".to_owned(),
        "deny_permanent_host".to_owned(),
        "FALSE".to_owned(),
        deny_suffix,
        "deny_permanent_suffix".to_owned(),
    ];
    assert(text::texts(args@) =~= zenity_args(host@, port));
    CommandLine { program: "zenity".to_owned(), args, stdin: None }
}

/// The text of a kdialog dialog.
pub open spec fn kdialog_text(host: Seq<char>, port: u16) -> Seq<char> {
    "The sandboxed process is trying to reach "@ + destination(host, port)
        + ".\nHow should nono handle this destination?"@
}

/// The arguments of a kdialog dialog: a radio list of tokens, choices and
/// whether they are picked, the denial of this request being so.
pub open spec fn kdialog_args(host: Seq<char>, port: u16) -> Seq<Seq<char>> {
    let suffix = host::suffix_hint(host);
    seq![
        "--title"@,
        DIALOG_WINDOW_TITLE@,
        "--radiolist"@,
        kdialog_text(host, port),
        "allow_once"@,
        "Allow once"@,
        "off"@,
        "allow_permanent_host"@,
        "Allow permanently (this host)"@,
        "off"@,
        "allow_permanent_suffix"@,
        allow_suffix_label(suffix),
        "off"@,
        "deny_once"@,
        "Deny once"@,
        "on"@,
        "deny_permanent_host"@,
        "Deny permanently (this host)"@,
        "off"@,
        "deny_permanent_suffix"@,
        deny_suffix_label(suffix),
        "off"@,
    ]
}

/// The dialog of `kdialog`.
#[must_use]
pub fn kdialog_prompt(host: &str, port: u16) -> (r: CommandLine)
    ensures
        r@ == (CommandModel { program: "kdialog"@, args: kdialog_args(host@, port), stdin: None }),
{
    let target = destination_text(host, port);
    let text = between(
        "The sandboxed process is trying to reach ",
        target.as_str(),
        ".\nHow should nono handle this destination?",
    );
    let suffix = host::registered_suffix_hint(host);
    let allow_suffix = between("Allow permanently (*.", suffix.as_str(), ")");
    let deny_suffix = between("Deny permanently (*.", suffix.as_str(), ")");
    let args: Vec<String> = vec![
        "--title".to_owned(),
        DIALOG_WINDOW_TITLE.to_owned(),
        "--radiolist".to_owned(),
        text,
        "allow_once".to_owned(),
        "Allow once".to_owned(),
        "off".to_owned(),
        "allow_permanent_host".to_owned(),
        "Allow permanently (this host)".to_owned(),
        "off".to_owned(),
        "allow_permanent_suffix".to_owned(),
        allow_suffix,
        "off".to_owned(),
        "deny_once".to_owned(),
        "Deny once".to_owned(),
        "on".to_owned(),
        "deny_permanent_host".to_owned(),
        "Deny permanently (this host)".to_owned(),
        "off".to_owned(),
        "deny_permanent_suffix".to_owned(),
        deny_suffix,
        "off".to_owned(),
    ];
    assert(text::texts(args@) =~= kdialog_args(host@, port));
    CommandLine { program: "kdialog".to_owned(), args, stdin: None }
}

/// The PowerShell script of a dialog about a host, with the suggested suffix.
pub open spec fn powershell_dialog(host: Seq<char>, port: u16) -> Seq<char> {
    let suffix = host::suffix_hint(host);
    script::POWERSHELL_FORM@ + DIALOG_WINDOW_TITLE@ + script::POWERSHELL_LABEL@ + destination(
        host,
        port,
    ) + script::POWERSHELL_ALLOW_ITEMS@ + suffix + script::POWERSHELL_DENY_ITEMS@ + suffix
        + script::POWERSHELL_REPLIES@
}

/// The dialog of `powershell.exe`.
#[must_use]
pub fn powershell_prompt(host: &str, port: u16) -> (r: CommandLine)
    ensures
        r@ == command::powershell_model(powershell_dialog(host@, port)),
{
    let suffix = host::registered_suffix_hint(host);
    let target = destination_text(host, port);
    let mut script = script::POWERSHELL_FORM.to_owned();
    script.append(DIALOG_WINDOW_TITLE);
    script.append(script::POWERSHELL_LABEL);
    script.append(target.as_str());
    script.append(script::POWERSHELL_ALLOW_ITEMS);
    script.append(suffix.as_str());
    script.append(script::POWERSHELL_DENY_ITEMS);
    script.append(suffix.as_str());
    script.append(script::POWERSHELL_REPLIES);
    command::powershell_command(script)
}

/// The dialog of a backend about a host.
pub open spec fn dialog_model(backend: DialogBackend, host: Seq<char>, port: u16) -> CommandModel {
    match backend {
        DialogBackend::MacOsOsascript => command::osascript_model(osascript_dialog(host, port)),
        DialogBackend::LinuxZenity => (CommandModel {
            program: "zenity"@,
            args: zenity_args(host, port),
            stdin: None,
        }),
        DialogBackend::LinuxKdialog => (CommandModel {
            program: "kdialog"@,
            args: kdialog_args(host, port),
            stdin: None,
        }),
        DialogBackend::WslPowershell => command::powershell_model(powershell_dialog(host, port)),
    }
}

impl DialogBackend {
    /// The command that shows the dialog about a host.
    #[must_use]
    pub fn prompt(&self, host: &str, port: u16) -> (r: CommandLine)
        ensures
            r@ == dialog_model(*self, host@, port),
    {
        match self {
            DialogBackend::MacOsOsascript => osascript_prompt(host, port),
            DialogBackend::LinuxZenity => zenity_prompt(host, port),
            DialogBackend::LinuxKdialog => kdialog_prompt(host, port),
            DialogBackend::WslPowershell => powershell_prompt(host, port),
        }
    }

    /// Reads the reply of the dialog from its exit status and what it printed.
    pub fn read_reply(&self, status: i32, stdout: &str) -> (r: Result<
        PromptDecision,
        UnrecognisedReply,
    >)
        ensures
            match r {
                Ok(decision) => reply_decision(*self, status, stdout@) == Some(decision),
                Err(error) => reply_decision(*self, status, stdout@) is None && error.program@
                    == program_of(*self) && error.token@ == reply_token(*self, stdout@),
            },
    {
        let (program, cancels) = match self {
            DialogBackend::MacOsOsascript => ("osascript", false),
            DialogBackend::LinuxZenity => ("zenity", true),
            DialogBackend::LinuxKdialog => ("kdialog", true),
            DialogBackend::WslPowershell => ("powershell.exe", false),
        };
        if cancels && status != 0 {
            return Ok(PromptDecision::DenyOnce);
        }
        let token = match self {
            DialogBackend::WslPowershell => text::trim(text::last_line_of(stdout).as_str()),
            _ => text::trim(stdout),
        };
        match parse_decision_token(token.as_str()) {
            Some(decision) => {
                proof {
                    law_token_names_decision(decision);
                }
                Ok(decision)
            },
            None => Err(UnrecognisedReply { program: program.to_owned(), token }),
        }
    }
}

// ---------------------------------------------------------------------------
// Trying one backend after the other
// ---------------------------------------------------------------------------

/// What to do next about a prompt.
#[derive(Debug, Clone, Copy, PartialEq, Eq, Structural)]
pub enum PromptStep {
    /// Show the dialog of a backend.
    Ask(DialogBackend),
    /// The prompt is over.
    Done(PromptDecision),
}

/// The first answer among outcomes.
pub open spec fn first_answer(outcomes: Seq<PromptOutcome>) -> Option<PromptDecision>
    decreases outcomes.len(),
{
    if outcomes.len() == 0 {
        None
    } else {
        match first_answer(outcomes.drop_last()) {
            Some(decision) => Some(decision),
            None => match outcomes.last() {
                PromptOutcome::Answered(decision) => Some(decision),
                _ => None,
            },
        }
    }
}

/// What to do after the given outcomes: an answer ends the prompt, otherwise the
/// next backend is asked. Where none is left, a prompt that timed out denies,
/// and one that only failed yields the fallback.
pub open spec fn prompt_step(
    backends: Seq<DialogBackend>,
    outcomes: Seq<PromptOutcome>,
    on_unavailable: PromptDecision,
) -> PromptStep {
    match first_answer(outcomes) {
        Some(decision) => PromptStep::Done(decision),
        None => if outcomes.len() < backends.len() {
            PromptStep::Ask(backends[outcomes.len() as int])
        } else if outcomes.contains(PromptOutcome::TimedOut) {
            PromptStep::Done(PromptDecision::DenyOnce)
        } else {
            PromptStep::Done(on_unavailable)
        },
    }
}

/// Dialog prompter that asks OS-native utilities.
#[derive(Debug, Clone, Copy, PartialEq, Eq, Structural)]
pub struct NativePrompter;

impl Default for NativePrompter {
    fn default() -> (r: NativePrompter)
        ensures
            r == NativePrompter,
    {
        NativePrompter::new()
    }
}

impl NativePrompter {
    #[must_use]
    pub fn new() -> (r: Self)
        ensures
            r == NativePrompter,
    {
        NativePrompter
    }

    /// What to do next about a prompt, given the backends to try and how those
    /// tried so far ended.
    #[must_use]
    pub fn prompt(
        &self,
        backends: &Vec<DialogBackend>,
        outcomes: &Vec<PromptOutcome>,
        on_unavailable: PromptDecision,
    ) -> (r: PromptStep)
        ensures
            r == prompt_step(backends@, outcomes@, on_unavailable),
    {
        let mut timed_out = false;
        let mut i: usize = 0;
        while i < outcomes.len()
            invariant
                i <= outcomes@.len(),
                first_answer(outcomes@.take(i as int)) is None,
                timed_out == outcomes@.take(i as int).contains(PromptOutcome::TimedOut),
            decreases outcomes@.len() - i,
        {
            let ghost front = outcomes@.take(i as int);
            let ghost longer = outcomes@.take(i + 1);
            assert(longer.drop_last() =~= front);
            assert(longer =~= front.push(outcomes@[i as int]));
            match outcomes[i] {
                PromptOutcome::Answered(decision) => {
                    proof {
                        lemma_answer_stays(outcomes@, i + 1);
                    }
                    return PromptStep::Done(decision);
                },
                PromptOutcome::TimedOut => {
                    timed_out = true;
                    assert(longer[i as int] == PromptOutcome::TimedOut);
                },
                PromptOutcome::Failed => {},
            }
            proof {
                if front.contains(PromptOutcome::TimedOut) {
                    let k = choose|k: int| 0 <= k < front.len() && front[k] == PromptOutcome::TimedOut;
                    assert(longer[k] == PromptOutcome::TimedOut);
                }
                if longer.contains(PromptOutcome::TimedOut) && !timed_out {
                    let k = choose|k: int|
                        0 <= k < longer.len() && longer[k] == PromptOutcome::TimedOut;
                    assert(front[k] == PromptOutcome::TimedOut);
                }
            }
            i += 1;
        }
        assert(outcomes@.take(outcomes@.len() as int) =~= outcomes@);
        if outcomes.len() < backends.len() {
            PromptStep::Ask(backends[outcomes.len()])
        } else if timed_out {
            PromptStep::Done(PromptDecision::DenyOnce)
        } else {
            PromptStep::Done(on_unavailable)
        }
    }
}

/// Later outcomes do not change the first answer.
proof fn lemma_answer_stays(outcomes: Seq<PromptOutcome>, n: int)
    requires
        0 <= n <= outcomes.len(),
        first_answer(outcomes.take(n)) is Some,
    ensures
        first_answer(outcomes) == first_answer(outcomes.take(n)),
    decreases outcomes.len() - n,
{
    if n == outcomes.len() {
        assert(outcomes.take(n) =~= outcomes);
    } else {
        assert(outcomes.take(n + 1).drop_last() =~= outcomes.take(n));
        lemma_answer_stays(outcomes, n + 1);
    }
}

/// A prompt is over once somebody answered, and the first answer is the
/// decision.
pub proof fn law_first_answer_decides(
    backends: Seq<DialogBackend>,
    outcomes: Seq<PromptOutcome>,
    later: Seq<PromptOutcome>,
    on_unavailable: PromptDecision,
    decision: PromptDecision,
)
    requires
        first_answer(outcomes) is None,
    ensures
        prompt_step(
            backends,
            outcomes.push(PromptOutcome::Answered(decision)) + later,
            on_unavailable,
        ) == PromptStep::Done(decision),
{
    let answered = outcomes.push(PromptOutcome::Answered(decision));
    let all = answered + later;
    assert(answered.drop_last() =~= outcomes);
    assert(all.take(answered.len() as int) =~= answered);
    lemma_answer_stays(all, answered.len() as int);
}

/// Every backend is tried before the fallback, each once and in order.
pub proof fn law_every_backend_is_tried(
    backends: Seq<DialogBackend>,
    outcomes: Seq<PromptOutcome>,
    on_unavailable: PromptDecision,
)
    requires
        first_answer(outcomes) is None,
    ensures
        outcomes.len() < backends.len() ==> prompt_step(backends, outcomes, on_unavailable)
            == PromptStep::Ask(backends[outcomes.len() as int]),
        outcomes.len() >= backends.len() ==> prompt_step(backends, outcomes, on_unavailable) is Done,
{
}

/// A missed prompt never silently allows: where nobody answered and a dialog
/// timed out, the request is denied whatever the fallback.
pub proof fn law_missed_prompt_denies(
    backends: Seq<DialogBackend>,
    outcomes: Seq<PromptOutcome>,
    on_unavailable: PromptDecision,
    decision: PromptDecision,
)
    requires
        first_answer(outcomes) is None,
        outcomes.contains(PromptOutcome::TimedOut),
        prompt_step(backends, outcomes, on_unavailable) == PromptStep::Done(decision),
    ensures
        decision == PromptDecision::DenyOnce,
{
}

// ---------------------------------------------------------------------------
// What is shown and read
// ---------------------------------------------------------------------------

/// A destination is the host, a colon and the port in decimal.
pub proof fn law_destination_is_host_and_port(host: Seq<char>, port: u16)
    ensures
        destination(host, port).take(host.len() as int) == host,
        destination(host, port).len() > host.len(),
        destination(host, port)[host.len() as int] == ':',
        destination(host, port).skip((host.len() + 1) as int) == text::decimal(port as nat),
{
    reveal_strlit(":");
    let d = destination(host, port);
    assert(d.take(host.len() as int) =~= host);
    assert(d.skip((host.len() + 1) as int) =~= text::decimal(port as nat));
}

/// The six tokens, and that a token reports a decision exactly where it is the
/// token of that decision.
pub proof fn law_tokens(token: Seq<char>, decision: PromptDecision)
    ensures
        token_decision(token) == Some(decision) <==> token == token_of(decision),
        token_of(PromptDecision::AllowOnce) == "allow_once"@,
        token_of(PromptDecision::AllowPermanentHost) == "allow_permanent_host"@,
        token_of(PromptDecision::AllowPermanentSuffix) == "allow_permanent_suffix"@,
        token_of(PromptDecision::DenyOnce) == "deny_once"@,
        token_of(PromptDecision::DenyPermanentHost) == "deny_permanent_host"@,
        token_of(PromptDecision::DenyPermanentSuffix) == "deny_permanent_suffix"@,
{
    law_token_names_decision(decision);
    if token_decision(token) == Some(decision) {
        let read = choose|d: PromptDecision| token == #[trigger] token_of(d);
        assert(token == token_of(read));
    }
}

/// A reply is what was printed without the white space around it; of what
/// PowerShell prints only the last line. A zenity or kdialog dialog that exits
/// with another status than 0 was cancelled, and denies; in every other case the
/// token decides.
pub proof fn law_replies(
    backend: DialogBackend,
    status: i32,
    lines: Seq<char>,
    before: Seq<char>,
    token: Seq<char>,
    after: Seq<char>,
)
    requires
        text_laws::is_blank(before),
        text_laws::is_blank(after),
        !(before + token + after).contains('\n'),
        token.len() > 0,
        !text::white_space(token[0]),
        !text::white_space(token[token.len() - 1]),
    ensures
        reply_token(backend, before + token + after) == token,
        reply_token(backend, (before + token + after).push('\n')) == token,
        reply_token(
            DialogBackend::WslPowershell,
            lines.push('\n') + (before + token + after),
        ) == token,
        reply_token(
            DialogBackend::WslPowershell,
            (lines.push('\n') + (before + token + after)).push('\n'),
        ) == token,
        (backend == DialogBackend::LinuxZenity || backend == DialogBackend::LinuxKdialog) && status
            != 0 ==> reply_decision(backend, status, before + token + after) == Some(
            PromptDecision::DenyOnce,
        ),
        backend == DialogBackend::MacOsOsascript || backend == DialogBackend::WslPowershell || status
            == 0 ==> reply_decision(backend, status, before + token + after) == token_decision(token),
{
    let line = before + token + after;
    text_laws::law_trimming_leaves_the_core(before, token, after);
    text_laws::law_last_line_follows_the_break(lines, line);
    let ended = after.push('\n');
    assert(text_laws::is_blank(ended)) by {
        assert forall|i: int| 0 <= i < ended.len() implies text::white_space(#[trigger] ended[i]) by {
            if i < after.len() {
                assert(ended[i] == after[i]);
            }
        }
    }
    text_laws::law_trimming_leaves_the_core(before, token, ended);
    assert(line.push('\n') =~= before + token + ended);
}

/// The first answer among outcomes is the one that no other stands before.
pub proof fn law_first_answer(outcomes: Seq<PromptOutcome>, i: int, decision: PromptDecision)
    ensures
        0 <= i < outcomes.len() && outcomes[i] == PromptOutcome::Answered(decision) && (forall|j: int|
            0 <= j < i ==> !((#[trigger] outcomes[j]) is Answered)) ==> first_answer(outcomes) == Some(
            decision,
        ),
        (forall|j: int| 0 <= j < outcomes.len() ==> !((#[trigger] outcomes[j]) is Answered))
            ==> first_answer(outcomes) is None,
    decreases outcomes.len(),
{
    if outcomes.len() > 0 {
        let front = outcomes.drop_last();
        assert(forall|j: int| 0 <= j < front.len() ==> front[j] == #[trigger] outcomes[j]);
        law_first_answer(front, i, decision);
        assert(outcomes.last() == outcomes[outcomes.len() - 1]);
    }
}

/// How a prompt goes on: it is over with the first answer; else the next backend
/// is asked, each once and in order; and where none is left, it is denied if one
/// timed out, and ends with the fallback if not.
pub proof fn law_prompt_steps(
    backends: Seq<DialogBackend>,
    outcomes: Seq<PromptOutcome>,
    on_unavailable: PromptDecision,
    i: int,
)
    ensures
        0 <= i < outcomes.len() && outcomes[i] is Answered && (forall|j: int|
            0 <= j < i ==> !((#[trigger] outcomes[j]) is Answered)) ==> prompt_step(
            backends,
            outcomes,
            on_unavailable,
        ) == PromptStep::Done(outcomes[i]->Answered_0),
        (forall|j: int| 0 <= j < outcomes.len() ==> !((#[trigger] outcomes[j]) is Answered)) ==> {
            let step = prompt_step(backends, outcomes, on_unavailable);
            &&& outcomes.len() < backends.len() ==> step == PromptStep::Ask(
                backends[outcomes.len() as int],
            )
            &&& outcomes.len() >= backends.len() && 0 <= i < outcomes.len() && outcomes[i]
                == PromptOutcome::TimedOut ==> step == PromptStep::Done(PromptDecision::DenyOnce)
            &&& outcomes.len() >= backends.len() && (forall|j: int|
                0 <= j < outcomes.len() ==> (#[trigger] outcomes[j]) == PromptOutcome::Failed)
                ==> step == PromptStep::Done(on_unavailable)
        },
{
    if 0 <= i < outcomes.len() && outcomes[i] is Answered {
        law_first_answer(outcomes, i, outcomes[i]->Answered_0);
    }
    law_first_answer(outcomes, 0, on_unavailable);
    if 0 <= i < outcomes.len() && outcomes[i] == PromptOutcome::TimedOut {
        assert(outcomes.contains(outcomes[i]));
    }
    if outcomes.contains(PromptOutcome::TimedOut) {
        let k = choose|k: int| 0 <= k < outcomes.len() && outcomes[k] == PromptOutcome::TimedOut;
        assert(outcomes[k] == PromptOutcome::TimedOut);
    }
}

/// The zenity dialogs about two hosts differ in the text, which names the
/// destination, and in the two labels that name the suggested suffix.
pub proof fn law_zenity_dialogs_differ_in_the_host(
    host: Seq<char>,
    port: u16,
    other: Seq<char>,
    other_port: u16,
    i: int,
)
    ensures
        dialog_model(DialogBackend::LinuxZenity, host, port).program == "zenity"@,
        dialog_model(DialogBackend::LinuxZenity, host, port).stdin is None,
        dialog_model(DialogBackend::LinuxZenity, host, port).args == zenity_args(host, port),
        zenity_args(host, port).len() == 28,
        0 <= i < 28 && i != 4 && i != 17 && i != 26 ==> zenity_args(host, port)[i] == zenity_args(
            other,
            other_port,
        )[i],
        zenity_args(host, port)[4] == "The sandboxed process is trying to reach:\n\n    "@
            + destination(host, port) + "\n\nHow should nono handle this destination?"@,
        zenity_args(host, port)[17] == "Allow permanently (*."@ + host::suffix_hint(host) + ")"@,
        zenity_args(host, port)[26] == "Deny permanently (*."@ + host::suffix_hint(host) + ")"@,
{
}

/// The kdialog dialogs about two hosts differ in the text, which names the
/// destination, and in the two labels that name the suggested suffix.
pub proof fn law_kdialog_dialogs_differ_in_the_host(
    host: Seq<char>,
    port: u16,
    other: Seq<char>,
    other_port: u16,
    i: int,
)
    ensures
        dialog_model(DialogBackend::LinuxKdialog, host, port).program == "kdialog"@,
        dialog_model(DialogBackend::LinuxKdialog, host, port).stdin is None,
        dialog_model(DialogBackend::LinuxKdialog, host, port).args == kdialog_args(host, port),
        kdialog_args(host, port).len() == 22,
        0 <= i < 22 && i != 3 && i != 11 && i != 20 ==> kdialog_args(host, port)[i] == kdialog_args(
            other,
            other_port,
        )[i],
        kdialog_args(host, port)[3] == "The sandboxed process is trying to reach "@ + destination(
            host,
            port,
        ) + ".\nHow should nono handle this destination?"@,
        kdialog_args(host, port)[11] == "Allow permanently (*."@ + host::suffix_hint(host) + ")"@,
        kdialog_args(host, port)[20] == "Deny permanently (*."@ + host::suffix_hint(host) + ")"@,
{
}

/// The scripts of the two dialogs that run one are the same for all hosts but for
/// the destination and, in each place, the suggested suffix; for AppleScript
/// these are escaped.
pub proof fn law_dialog_scripts_differ_in_the_host(
    host: Seq<char>,
    port: u16,
    other: Seq<char>,
    other_port: u16,
) -> (parts: (
    (Seq<char>, Seq<char>, Seq<char>, Seq<char>),
    (Seq<char>, Seq<char>, Seq<char>, Seq<char>, Seq<char>, Seq<char>),
))
    ensures
        ({
            let (a, b, c, d) = parts.0;
            let hint = host::suffix_hint(host);
            let other_hint = host::suffix_hint(other);
            &&& powershell_dialog(host, port) == a + destination(host, port) + b + hint + c + hint + d
            &&& powershell_dialog(other, other_port) == a + destination(other, other_port) + b
                + other_hint + c + other_hint + d
        }),
        ({
            let (a, b, c, d, e, f) = parts.1;
            let hint = escape::applescript_escaped(host::suffix_hint(host));
            let other_hint = escape::applescript_escaped(host::suffix_hint(other));
            &&& osascript_dialog(host, port) == a + hint + b + hint + c + destination(
                escape::applescript_escaped(host),
                port,
            ) + d + hint + e + hint + f
            &&& osascript_dialog(other, other_port) == a + other_hint + b + other_hint + c
                + destination(escape::applescript_escaped(other), other_port) + d + other_hint + e
                + other_hint + f
        }),
        dialog_model(DialogBackend::WslPowershell, host, port).stdin == Some(
            powershell_dialog(host, port),
        ),
        dialog_model(DialogBackend::MacOsOsascript, host, port).args == seq![
            "-e"@,
            osascript_dialog(host, port),
        ],
{
    let a = script::POWERSHELL_FORM@ + DIALOG_WINDOW_TITLE@ + script::POWERSHELL_LABEL@;
    let b = script::POWERSHELL_ALLOW_ITEMS@;
    let c = script::POWERSHELL_DENY_ITEMS@;
    let d = script::POWERSHELL_REPLIES@;
    let p = script::OSASCRIPT_ALLOW_CHOICES@;
    let q = script::OSASCRIPT_DENY_CHOICES@;
    let r = script::OSASCRIPT_TITLE@ + escape::applescript_escaped(DIALOG_WINDOW_TITLE@)
        + script::OSASCRIPT_PROMPT@;
    let s = script::OSASCRIPT_ALLOW_REPLIES@;
    let t = script::OSASCRIPT_DENY_REPLIES@;
    let u = script::OSASCRIPT_END@;
    lemma_osascript_parts(host, port, p, q, r, s, t, u);
    lemma_osascript_parts(other, other_port, p, q, r, s, t, u);
    ((a, b, c, d), (p, q, r, s, t, u))
}

proof fn lemma_osascript_parts(
    host: Seq<char>,
    port: u16,
    p: Seq<char>,
    q: Seq<char>,
    r: Seq<char>,
    s: Seq<char>,
    t: Seq<char>,
    u: Seq<char>,
)
    requires
        p == script::OSASCRIPT_ALLOW_CHOICES@,
        q == script::OSASCRIPT_DENY_CHOICES@,
        r == script::OSASCRIPT_TITLE@ + escape::applescript_escaped(DIALOG_WINDOW_TITLE@)
            + script::OSASCRIPT_PROMPT@,
        s == script::OSASCRIPT_ALLOW_REPLIES@,
        t == script::OSASCRIPT_DENY_REPLIES@,
        u == script::OSASCRIPT_END@,
    ensures
        ({
            let hint = escape::applescript_escaped(host::suffix_hint(host));
            osascript_dialog(host, port) == p + hint + q + hint + r + destination(
                escape::applescript_escaped(host),
                port,
            ) + s + hint + t + hint + u
        }),
{
    let hint = escape::applescript_escaped(host::suffix_hint(host));
    let front = p + hint + q + hint;
    let title = script::OSASCRIPT_TITLE@;
    let name = escape::applescript_escaped(DIALOG_WINDOW_TITLE@);
    let ask = script::OSASCRIPT_PROMPT@;
    assert(front + title + name + ask =~= front + (title + name + ask));
}

/// What a reply amounts to: another status than 0 of zenity or kdialog is a
/// cancelled dialog, which denies; else the token decides, which for all but
/// PowerShell is everything that was printed, without the white space around it.
pub proof fn law_status_and_token_decide(
    backend: DialogBackend,
    status: i32,
    stdout: Seq<char>,
    before: Seq<char>,
    token: Seq<char>,
    after: Seq<char>,
)
    requires
        text_laws::is_blank(before),
        text_laws::is_blank(after),
        token.len() > 0 ==> !text::white_space(token[0]) && !text::white_space(
            token[token.len() - 1],
        ),
    ensures
        (backend == DialogBackend::LinuxZenity || backend == DialogBackend::LinuxKdialog) && status
            != 0 ==> reply_decision(backend, status, stdout) == Some(PromptDecision::DenyOnce),
        backend == DialogBackend::MacOsOsascript || backend == DialogBackend::WslPowershell || status
            == 0 ==> reply_decision(backend, status, stdout) == token_decision(
            reply_token(backend, stdout),
        ),
        backend != DialogBackend::WslPowershell ==> reply_token(backend, before + token + after)
            == token,
        text::last_line(stdout) == before + token + after ==> reply_token(
            DialogBackend::WslPowershell,
            stdout,
        ) == token,
        program_of(DialogBackend::MacOsOsascript) == "osascript"@,
        program_of(DialogBackend::LinuxZenity) == "zenity"@,
        program_of(DialogBackend::LinuxKdialog) == "kdialog"@,
        program_of(DialogBackend::WslPowershell) == "powershell.exe"@,
{
    text_laws::law_trimming_leaves_the_core(before, token, after);
}

/// Where a decision stands among the choices of a dialog.
pub open spec fn choice_row(decision: PromptDecision) -> int {
    match decision {
        PromptDecision::AllowOnce => 0,
        PromptDecision::AllowPermanentHost => 1,
        PromptDecision::AllowPermanentSuffix => 2,
        PromptDecision::DenyOnce => 3,
        PromptDecision::DenyPermanentHost => 4,
        PromptDecision::DenyPermanentSuffix => 5,
    }
}

/// What the choice of a decision reads.
pub open spec fn choice_label(decision: PromptDecision, suffix: Seq<char>) -> Seq<char> {
    match decision {
        PromptDecision::AllowOnce => "Allow once"@,
        PromptDecision::AllowPermanentHost => "Allow permanently (this host)"@,
        PromptDecision::AllowPermanentSuffix => "Allow permanently (*."@ + suffix + ")"@,
        PromptDecision::DenyOnce => "Deny once"@,
        PromptDecision::DenyPermanentHost => "Deny permanently (this host)"@,
        PromptDecision::DenyPermanentSuffix => "Deny permanently (*."@ + suffix + ")"@,
    }
}

/// Every decision is a choice of the zenity and of the kdialog dialog, beside its
/// token, and the denial of this request is the one that is picked already.
pub proof fn law_dialogs_offer_every_decision(
    host: Seq<char>,
    port: u16,
    decision: PromptDecision,
)
    ensures
        ({
            let row = choice_row(decision);
            let label = choice_label(decision, host::suffix_hint(host));
            let zenity = zenity_args(host, port);
            let kdialog = kdialog_args(host, port);
            &&& zenity[10 + 3 * row] == if decision == PromptDecision::DenyOnce {
                "TRUE"@
            } else {
                "FALSE"@
            }
            &&& zenity[11 + 3 * row] == label
            &&& zenity[12 + 3 * row] == token_of(decision)
            &&& kdialog[4 + 3 * row] == token_of(decision)
            &&& kdialog[5 + 3 * row] == label
            &&& kdialog[6 + 3 * row] == if decision == PromptDecision::DenyOnce {
                "on"@
            } else {
                "off"@
            }
        }),
        zenity_args(host, port).take(4) == seq![
            "--list"@,
            "--radiolist"@,
            "--title="@ + "nono: network access"@,
            "--text"@,
        ],
        zenity_args(host, port).subrange(5, 10) == seq![
            "--column=Pick"@,
            "--column=Action"@,
            "--column=id"@,
            "--hide-column=3"@,
            "--print-column=3"@,
        ],
        kdialog_args(host, port).take(3) == seq![
            "--title"@,
            "nono: network access"@,
            "--radiolist"@,
        ],
{
}

} // verus!
