//! Notifications: what each backend shows, and what follows from its reply.

use crate::command;
use crate::command::{CommandLine, CommandModel, TimedCommand};
use crate::dialog;
use crate::escape;
use crate::platform::NotifyBackend;
use crate::script;
use crate::text;
use crate::text_laws;
use vstd::prelude::*;

verus! {

/// Title of every notification.
pub const NOTIFY_TITLE: &'static str = "nono: network request";

/// The text of a notification about a host.
pub open spec fn notification_text(host: Seq<char>, port: u16) -> Seq<char> {
    "Sandboxed process wants to reach "@ + dialog::destination(host, port)
        + " \u{2014} a decision dialog is waiting."@
}

/// The text of a notification about a host.
#[must_use]
pub fn notification_body(host: &str, port: u16) -> (r: String)
    ensures
        r@ == notification_text(host@, port),
{
    let mut out = "Sandboxed process wants to reach ".to_owned();
    out.append(dialog::destination_text(host, port).as_str());
    out.append(" \u{2014} a decision dialog is waiting.");
    out
}

/// The AppleScript of a notification about a host.
pub open spec fn osascript_notification(host: Seq<char>, port: u16) -> Seq<char> {
    "display notification \""@ + escape::applescript_escaped(notification_text(host, port))
        + "\" with title \""@ + escape::applescript_escaped(NOTIFY_TITLE@)
        + "\" sound name \"Ping\""@
}

/// macOS notification.
///
/// Posts a banner via `osascript display notification` and returns. It does
/// not wire up any click action: users are expected to treat the notification
/// as passive.
#[must_use]
pub fn osascript_notify(host: &str, port: u16) -> (r: TimedCommand)
    ensures
        r.command@ == command::osascript_model(osascript_notification(host@, port)),
        r.timeout_secs == 5,
{
    let body = escape::escape_applescript(notification_body(host, port).as_str());
    let title = escape::escape_applescript(NOTIFY_TITLE);
    let mut script = "display notification \"".to_owned();
    script.append(body.as_str());
    script.append("\" with title \"");
    script.append(title.as_str());
    script.append("\" sound name \"Ping\"");
    TimedCommand { command: command::osascript_command(script), timeout_secs: 5 }
}

/// `notify-send` with an action that raises the dialog window.
pub open spec fn rich_notification(host: Seq<char>, port: u16) -> CommandModel {
    CommandModel {
        program: "notify-send"@,
        args: seq![
            "--app-name=nono"@,
            "--urgency=normal"@,
            "--action=show=Show"@,
            "--wait"@,
            NOTIFY_TITLE@,
            notification_text(host, port),
        ],
        stdin: None,
    }
}

/// `notify-send` without an action.
pub open spec fn plain_notification(host: Seq<char>, port: u16) -> CommandModel {
    CommandModel {
        program: "notify-send"@,
        args: seq![
            "--app-name=nono"@,
            "--urgency=normal"@,
            NOTIFY_TITLE@,
            notification_text(host, port),
        ],
        stdin: None,
    }
}

/// Linux notification with a "Show" action that raises the dialog window.
///
/// `--wait` blocks until the notification is dismissed or an action is invoked.
/// What follows from the reply is for [`after_notify_send`] to say.
#[must_use]
pub fn notify_send(host: &str, port: u16) -> (r: TimedCommand)
    ensures
        r.command@ == rich_notification(host@, port),
        r.timeout_secs == 120,
{
    let args: Vec<String> = vec![
        "--app-name=nono".to_owned(),
        "--urgency=normal".to_owned(),
        "--action=show=Show".to_owned(),
        "--wait".to_owned(),
        NOTIFY_TITLE.to_owned(),
        notification_body(host, port),
    ];
    assert(text::texts(args@) =~= rich_notification(host@, port).args);
    TimedCommand {
        command: CommandLine { program: "notify-send".to_owned(), args, stdin: None },
        timeout_secs: 120,
    }
}

/// What follows from a notification with an action.
pub enum NotifySendNext {
    /// The user wants to see the dialog: raise its window.
    Raise,
    /// Nothing more to do.
    Done,
    /// The action is not supported: show a plain notification.
    Plain(TimedCommand),
}

/// Whether a reply means that the user clicked the action.
pub open spec fn is_show(stdout: Seq<char>) -> bool {
    text::trimmed(stdout) == "show"@
}

/// What follows from the reply of [`notify_send`]: its exit status and what it
/// printed, or nothing where it could not be run to its end. Older versions do
/// not know the action and exit with a usage error.
#[must_use]
pub fn after_notify_send(reply: Option<(i32, String)>, host: &str, port: u16) -> (r: NotifySendNext)
    ensures
        r is Raise == (reply matches Some((status, stdout)) && status == 0 && is_show(stdout@)),
        r is Done == (reply matches Some((status, stdout)) && status == 0 && !is_show(stdout@)),
        r matches NotifySendNext::Plain(plain) ==> plain.command@ == plain_notification(host@, port)
            && plain.timeout_secs == 5,
{
    match reply {
        Some((status, stdout)) => {
            if status == 0 {
                let chosen = text::trim(stdout.as_str());
                if text::same_text(chosen.as_str(), "show") {
                    return NotifySendNext::Raise;
                }
                return NotifySendNext::Done;
            }
        },
        None => {},
    }
    let args: Vec<String> = vec![
        "--app-name=nono".to_owned(),
        "--urgency=normal".to_owned(),
        NOTIFY_TITLE.to_owned(),
        notification_body(host, port),
    ];
    assert(text::texts(args@) =~= plain_notification(host@, port).args);
    NotifySendNext::Plain(
        TimedCommand {
            command: CommandLine { program: "notify-send".to_owned(), args, stdin: None },
            timeout_secs: 5,
        },
    )
}

/// The command that raises a window by its title, where there is a program for
/// it.
pub open spec fn raise_model(wmctrl: bool, xdotool: bool, title: Seq<char>) -> Option<CommandModel> {
    if wmctrl {
        Some((CommandModel { program: "wmctrl"@, args: seq!["-a"@, title], stdin: None }))
    } else if xdotool {
        Some(
            (CommandModel {
                program: "xdotool"@,
                args: seq!["search"@, "--name"@, title, "windowactivate"@],
                stdin: None,
            }),
        )
    } else {
        None
    }
}

/// Raise a Linux X11 window by title. Tries `wmctrl` first, then `xdotool`.
/// Best-effort: there is nothing to run if no WM tool is available.
#[must_use]
pub fn raise_linux_window(wmctrl: bool, xdotool: bool, title: &str) -> (r: Option<TimedCommand>)
    ensures
        match r {
            Some(raise) => raise_model(wmctrl, xdotool, title@) == Some(raise.command@)
                && raise.timeout_secs == 3,
            None => raise_model(wmctrl, xdotool, title@) is None,
        },
{
    if wmctrl {
        let args: Vec<String> = vec!["-a".to_owned(), title.to_owned()];
        assert(text::texts(args@) =~= seq!["-a"@, title@]);
        return Some(
            TimedCommand {
                command: CommandLine { program: "wmctrl".to_owned(), args, stdin: None },
                timeout_secs: 3,
            },
        );
    }
    if xdotool {
        let args: Vec<String> = vec![
            "search".to_owned(),
            "--name".to_owned(),
            title.to_owned(),
            "windowactivate".to_owned(),
        ];
        assert(text::texts(args@) =~= seq!["search"@, "--name"@, title@, "windowactivate"@]);
        return Some(
            TimedCommand {
                command: CommandLine { program: "xdotool".to_owned(), args, stdin: None },
                timeout_secs: 3,
            },
        );
    }
    None
}

/// The PowerShell script of a notification about a host.
pub open spec fn powershell_notification(host: Seq<char>, port: u16) -> Seq<char> {
    script::POWERSHELL_BALLOON_TITLE@ + escape::powershell_escaped(NOTIFY_TITLE@)
        + script::POWERSHELL_BALLOON_TEXT@ + escape::powershell_escaped(
        notification_text(host, port),
    ) + script::POWERSHELL_BALLOON_CLICK@ + escape::powershell_escaped(dialog::DIALOG_WINDOW_TITLE@)
        + script::POWERSHELL_BALLOON_LOOP@
}

/// WSL notification that activates the dialog window on click.
#[must_use]
pub fn powershell_notify(host: &str, port: u16) -> (r: TimedCommand)
    ensures
        r.command@ == command::powershell_model(powershell_notification(host@, port)),
        r.timeout_secs == 15,
{
    let title = escape::powershell_escape(NOTIFY_TITLE);
    let body = escape::powershell_escape(notification_body(host, port).as_str());
    let window = escape::powershell_escape(dialog::DIALOG_WINDOW_TITLE);
    let mut script = script::POWERSHELL_BALLOON_TITLE.to_owned();
    script.append(title.as_str());
    script.append(script::POWERSHELL_BALLOON_TEXT);
    script.append(body.as_str());
    script.append(script::POWERSHELL_BALLOON_CLICK);
    script.append(window.as_str());
    script.append(script::POWERSHELL_BALLOON_LOOP);
    TimedCommand { command: command::powershell_command(script), timeout_secs: 15 }
}

/// The first command of a backend for a notification about a host.
pub open spec fn notification_model(backend: NotifyBackend, host: Seq<char>, port: u16) -> (
    CommandModel,
    int,
) {
    match backend {
        NotifyBackend::MacOsOsascript => (
            command::osascript_model(osascript_notification(host, port)),
            5,
        ),
        NotifyBackend::LinuxNotifySend => (rich_notification(host, port), 120),
        NotifyBackend::WslPowershell => (
            command::powershell_model(powershell_notification(host, port)),
            15,
        ),
    }
}

impl NotifyBackend {
    /// The first command of the backend for a notification about a host.
    #[must_use]
    pub fn notify(&self, host: &str, port: u16) -> (r: TimedCommand)
        ensures
            (r.command@, r.timeout_secs as int) == notification_model(*self, host@, port),
    {
        match self {
            NotifyBackend::MacOsOsascript => osascript_notify(host, port),
            NotifyBackend::LinuxNotifySend => notify_send(host, port),
            NotifyBackend::WslPowershell => powershell_notify(host, port),
        }
    }

    /// Whether the backend ends early when the dialog is dismissed. A banner on
    /// macOS is gone by itself.
    #[must_use]
    pub fn is_cancellable(&self) -> (r: bool)
        ensures
            r == (*self !is MacOsOsascript),
    {
        !matches!(self, NotifyBackend::MacOsOsascript)
    }
}

/// Notifier that asks OS-native notification utilities.
#[derive(Debug, Clone, Copy, PartialEq, Eq, Structural)]
pub struct NativeNotifier;

impl Default for NativeNotifier {
    fn default() -> (r: NativeNotifier)
        ensures
            r == NativeNotifier,
    {
        NativeNotifier::new()
    }
}

/// The backend to try next: none once one has succeeded or all have failed.
pub open spec fn notify_step(backends: Seq<NotifyBackend>, succeeded: Seq<bool>) -> Option<
    NotifyBackend,
> {
    if succeeded.contains(true) || succeeded.len() >= backends.len() {
        None
    } else {
        Some(backends[succeeded.len() as int])
    }
}

impl NativeNotifier {
    #[must_use]
    pub fn new() -> (r: Self)
        ensures
            r == NativeNotifier,
    {
        NativeNotifier
    }

    /// The backend to try next, given the backends and which of those tried so
    /// far succeeded.
    #[must_use]
    pub fn notify(&self, backends: &Vec<NotifyBackend>, succeeded: &Vec<bool>) -> (r: Option<
        NotifyBackend,
    >)
        ensures
            r == notify_step(backends@, succeeded@),
    {
        let mut i: usize = 0;
        while i < succeeded.len()
            invariant
                i <= succeeded@.len(),
                forall|k: int| 0 <= k < i ==> !(#[trigger] succeeded@[k]),
            decreases succeeded@.len() - i,
        {
            if succeeded[i] {
                assert(succeeded@[i as int]);
                return None;
            }
            i += 1;
        }
        if succeeded.len() >= backends.len() {
            return None;
        }
        Some(backends[succeeded.len()])
    }
}

/// Notifier that does nothing. Useful for tests and for disabling
/// notifications without taking the prompter offline.
#[derive(Debug, Clone, Copy, PartialEq, Eq, Structural)]
pub struct NoopNotifier;

impl Default for NoopNotifier {
    fn default() -> (r: NoopNotifier)
        ensures
            r == NoopNotifier,
    {
        NoopNotifier
    }
}

/// Notification backends are tried in order until one succeeds, and none after.
pub proof fn law_notifies_until_success(backends: Seq<NotifyBackend>, succeeded: Seq<bool>)
    ensures
        !succeeded.contains(true) && succeeded.len() < backends.len() ==> notify_step(
            backends,
            succeeded,
        ) == Some(backends[succeeded.len() as int]),
        notify_step(backends, succeeded.push(true)) is None,
{
    assert(succeeded.push(true)[succeeded.len() as int]);
}

// ---------------------------------------------------------------------------
// What is shown and read
// ---------------------------------------------------------------------------

/// Every notification carries the same text about a destination: alone with a
/// title where `notify-send` shows it, escaped inside a script otherwise.
pub proof fn law_notifications_differ_in_the_host(
    host: Seq<char>,
    port: u16,
    other: Seq<char>,
    other_port: u16,
    i: int,
) -> (parts: ((Seq<char>, Seq<char>), (Seq<char>, Seq<char>)))
    ensures
        notification_text(host, port) == "Sandboxed process wants to reach "@ + dialog::destination(
            host,
            port,
        ) + " \u{2014} a decision dialog is waiting."@,
        rich_notification(host, port).program == "notify-send"@,
        rich_notification(host, port).stdin is None,
        rich_notification(host, port).args.len() == 6,
        rich_notification(host, port).args[5] == notification_text(host, port),
        0 <= i < 5 ==> rich_notification(host, port).args[i] == rich_notification(
            other,
            other_port,
        ).args[i],
        plain_notification(host, port).program == "notify-send"@,
        plain_notification(host, port).stdin is None,
        plain_notification(host, port).args.len() == 4,
        plain_notification(host, port).args[3] == notification_text(host, port),
        0 <= i < 3 ==> plain_notification(host, port).args[i] == plain_notification(
            other,
            other_port,
        ).args[i],
        osascript_notification(host, port) == parts.0.0 + escape::applescript_escaped(
            notification_text(host, port),
        ) + parts.0.1,
        osascript_notification(other, other_port) == parts.0.0 + escape::applescript_escaped(
            notification_text(other, other_port),
        ) + parts.0.1,
        powershell_notification(host, port) == parts.1.0 + escape::powershell_escaped(
            notification_text(host, port),
        ) + parts.1.1,
        powershell_notification(other, other_port) == parts.1.0 + escape::powershell_escaped(
            notification_text(other, other_port),
        ) + parts.1.1,
        notification_model(NotifyBackend::MacOsOsascript, host, port) == (
            command::osascript_model(osascript_notification(host, port)),
            5int,
        ),
        notification_model(NotifyBackend::LinuxNotifySend, host, port) == (
            rich_notification(host, port),
            120int,
        ),
        notification_model(NotifyBackend::WslPowershell, host, port) == (
            command::powershell_model(powershell_notification(host, port)),
            15int,
        ),
{
    let mid = "\" with title \""@;
    let title = escape::applescript_escaped(NOTIFY_TITLE@);
    let end = "\" sound name \"Ping\""@;
    let a = "display notification \""@;
    let b = mid + title + end;
    let c = script::POWERSHELL_BALLOON_TITLE@ + escape::powershell_escaped(NOTIFY_TITLE@)
        + script::POWERSHELL_BALLOON_TEXT@;
    let click = script::POWERSHELL_BALLOON_CLICK@;
    let window = escape::powershell_escaped(dialog::DIALOG_WINDOW_TITLE@);
    let rest = script::POWERSHELL_BALLOON_LOOP@;
    let d = click + window + rest;
    let text = escape::applescript_escaped(notification_text(host, port));
    let other_text = escape::applescript_escaped(notification_text(other, other_port));
    assert(a + text + mid + title + end =~= a + text + b);
    assert(a + other_text + mid + title + end =~= a + other_text + b);
    let shell = escape::powershell_escaped(notification_text(host, port));
    let other_shell = escape::powershell_escaped(notification_text(other, other_port));
    assert(c + shell + click + window + rest =~= c + shell + d);
    assert(c + other_shell + click + window + rest =~= c + other_shell + d);
    ((a, b), (c, d))
}

/// A reply means that the action was clicked exactly where it is `show` between
/// white space.
pub proof fn law_clicked_action(before: Seq<char>, word: Seq<char>, after: Seq<char>)
    requires
        text_laws::is_blank(before),
        text_laws::is_blank(after),
        word.len() > 0 ==> !text::white_space(word[0]) && !text::white_space(word[word.len() - 1]),
    ensures
        is_show(before + word + after) <==> word == "show"@,
{
    text_laws::law_trimming_leaves_the_core(before, word, after);
}

/// A window is raised by its title, with `wmctrl` where it is there, else with
/// `xdotool`, else not.
pub proof fn law_raising_a_window(wmctrl: bool, xdotool: bool, title: Seq<char>)
    ensures
        wmctrl ==> raise_model(wmctrl, xdotool, title) is Some && raise_model(
            wmctrl,
            xdotool,
            title,
        )->0.program == "wmctrl"@ && raise_model(wmctrl, xdotool, title)->0.args == seq![
            "-a"@,
            title,
        ],
        !wmctrl && xdotool ==> raise_model(wmctrl, xdotool, title) is Some && raise_model(
            wmctrl,
            xdotool,
            title,
        )->0.program == "xdotool"@ && raise_model(wmctrl, xdotool, title)->0.args == seq![
            "search"@,
            "--name"@,
            title,
            "windowactivate"@,
        ],
        !wmctrl && !xdotool ==> raise_model(wmctrl, xdotool, title) is None,
{
}

/// The next backend to notify is the first that was not tried, unless one of
/// those tried succeeded or none is left.
pub proof fn law_next_notification(backends: Seq<NotifyBackend>, succeeded: Seq<bool>, i: int)
    ensures
        0 <= i < succeeded.len() && succeeded[i] ==> notify_step(backends, succeeded) is None,
        (forall|j: int| 0 <= j < succeeded.len() ==> !(#[trigger] succeeded[j])) ==> {
            &&& succeeded.len() < backends.len() ==> notify_step(backends, succeeded) == Some(
                backends[succeeded.len() as int],
            )
            &&& succeeded.len() >= backends.len() ==> notify_step(backends, succeeded) is None
        },
{
    if 0 <= i < succeeded.len() && succeeded[i] {
        assert(succeeded.contains(true));
    }
}

/// The fixed arguments of `notify-send`: the name of the program, the urgency,
/// the action and the wait where there is one, and the title.
pub proof fn law_fixed_arguments_of_notifications(host: Seq<char>, port: u16)
    ensures
        rich_notification(host, port).args.take(5) == seq![
            "--app-name=nono"@,
            "--urgency=normal"@,
            "--action=show=Show"@,
            "--wait"@,
            "nono: network request"@,
        ],
        plain_notification(host, port).args.take(3) == seq![
            "--app-name=nono"@,
            "--urgency=normal"@,
            "nono: network request"@,
        ],
        NOTIFY_TITLE@ == "nono: network request"@,
        dialog::DIALOG_WINDOW_TITLE@ == "nono: network access"@,
{
}

} // verus!
