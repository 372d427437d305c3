//! What dialogs and notifications show, and how their replies read.

use nono_proxy::command::CommandLine;
use nono_proxy::decision::PromptDecision;
use nono_proxy::dialog::{
    destination_text, kdialog_prompt, osascript_prompt, parse_decision_token, powershell_prompt,
    zenity_prompt, NativePrompter, PromptStep, DIALOG_WINDOW_TITLE,
};
use nono_proxy::escape::{escape_applescript, powershell_escape};
use nono_proxy::notify::{
    after_notify_send, notification_body, notify_send, osascript_notify, powershell_notify,
    raise_linux_window, NativeNotifier, NoopNotifier, NotifySendNext, NOTIFY_TITLE,
};
use nono_proxy::platform::{
    detect_backends, detect_notify_backends, is_wsl, DialogBackend, NotifyBackend, OsFamily,
    Platform,
};
use nono_proxy::policy::PromptOutcome;

fn assert_command(command: &CommandLine, program: &str, args: &[&str], stdin: Option<&str>) {
    assert_eq!(command.program, program);
    assert_eq!(command.args, args);
    assert_eq!(command.stdin.as_deref(), stdin);
}

const POWERSHELL_ARGS: [&str; 5] = ["-NoProfile", "-ExecutionPolicy", "Bypass", "-Command", "-"];

#[test]
fn parse_decision_tokens() {
    assert_eq!(
        parse_decision_token("allow_once"),
        Some(PromptDecision::AllowOnce)
    );
    assert_eq!(
        parse_decision_token("deny_permanent_suffix"),
        Some(PromptDecision::DenyPermanentSuffix)
    );
    assert_eq!(parse_decision_token("nonsense"), None);
}

#[test]
fn every_token_reads_as_its_decision() {
    let tokens = [
        ("allow_once", PromptDecision::AllowOnce),
        ("allow_permanent_host", PromptDecision::AllowPermanentHost),
        ("allow_permanent_suffix", PromptDecision::AllowPermanentSuffix),
        ("deny_once", PromptDecision::DenyOnce),
        ("deny_permanent_host", PromptDecision::DenyPermanentHost),
        ("deny_permanent_suffix", PromptDecision::DenyPermanentSuffix),
    ];
    for (token, decision) in tokens {
        assert_eq!(parse_decision_token(token), Some(decision));
    }
    assert_eq!(parse_decision_token(""), None);
    assert_eq!(parse_decision_token("Allow_once"), None);
    assert_eq!(parse_decision_token("allow_once "), None);
}

#[test]
fn destination_is_host_and_port() {
    assert_eq!(destination_text("a.example", 0), "a.example:0");
    assert_eq!(destination_text("a.example", 443), "a.example:443");
    assert_eq!(destination_text("", 65535), ":65535");
}

#[test]
fn applescript_is_escaped() {
    assert_eq!(escape_applescript("a\\b\"c\nd"), "a\\\\b\\\"c d");
    assert_eq!(escape_applescript("plain"), "plain");
}

#[test]
fn powershell_is_escaped() {
    assert_eq!(powershell_escape("a`b\"c$d\ne"), "a``b`\"c`$d e");
    assert_eq!(powershell_escape("plain"), "plain");
}

#[test]
fn osascript_dialog_is_a_list() {
    let host = "api\"x.example.com";
    let port = 443;
    let script = format!(
        r#"
set theChoices to {{"Allow once", "Allow permanently (this host)", "Allow permanently (*.{suffix})", "Deny once", "Deny permanently (this host)", "Deny permanently (*.{suffix})"}}
set theChoice to choose from list theChoices with title "{dialog_title}" with prompt "The sandboxed process is trying to reach:

    {host}:{port}

How should nono handle this destination?" default items {{"Deny once"}} OK button name "Select" cancel button name "Cancel"
if theChoice is false then
    return "deny_once"
else
    set c to item 1 of theChoice
    if c is "Allow once" then
        return "allow_once"
    else if c is "Allow permanently (this host)" then
        return "allow_permanent_host"
    else if c is "Allow permanently (*.{suffix})" then
        return "allow_permanent_suffix"
    else if c is "Deny once" then
        return "deny_once"
    else if c is "Deny permanently (this host)" then
        return "deny_permanent_host"
    else if c is "Deny permanently (*.{suffix})" then
        return "deny_permanent_suffix"
    else
        return "deny_once"
    end if
end if
"#,
        dialog_title = "nono: network access",
        host = "api\\\"x.example.com",
        port = port,
        suffix = "example.com",
    );
    assert_command(&osascript_prompt(host, port), "osascript", &["-e", &script], None);
}

#[test]
fn powershell_dialog_is_a_form() {
    let script = format!(
        r#"
Add-Type -AssemblyName System.Windows.Forms
Add-Type -AssemblyName System.Drawing
$form = New-Object System.Windows.Forms.Form
$form.Text = "{dialog_title}"
$form.Size = New-Object System.Drawing.Size(480,260)
$form.StartPosition = "CenterScreen"
$form.TopMost = $true

$label = New-Object System.Windows.Forms.Label
$label.Location = New-Object System.Drawing.Point(10,10)
$label.Size = New-Object System.Drawing.Size(460,60)
$label.Text = "The sandboxed process is trying to reach:`n`n    {host}:{port}`n`nHow should nono handle this destination?"
$form.Controls.Add($label)

$combo = New-Object System.Windows.Forms.ComboBox
$combo.Location = New-Object System.Drawing.Point(10,80)
$combo.Size = New-Object System.Drawing.Size(440,20)
$combo.DropDownStyle = "DropDownList"
$combo.Items.Add("Allow once")           | Out-Null
$combo.Items.Add("Allow permanently (this host)") | Out-Null
$combo.Items.Add("Allow permanently (*.{suffix})") | Out-Null
$combo.Items.Add("Deny once")            | Out-Null
$combo.Items.Add("Deny permanently (this host)") | Out-Null
$combo.Items.Add("Deny permanently (*.{suffix})") | Out-Null
$combo.SelectedIndex = 3
$form.Controls.Add($combo)

$ok = New-Object System.Windows.Forms.Button
$ok.Location = New-Object System.Drawing.Point(280,180)
$ok.Size = New-Object System.Drawing.Size(80,25)
$ok.Text = "OK"
$ok.DialogResult = [System.Windows.Forms.DialogResult]::OK
$form.AcceptButton = $ok
$form.Controls.Add($ok)

$cancel = New-Object System.Windows.Forms.Button
$cancel.Location = New-Object System.Drawing.Point(370,180)
$cancel.Size = New-Object System.Drawing.Size(80,25)
$cancel.Text = "Cancel"
$cancel.DialogResult = [System.Windows.Forms.DialogResult]::Cancel
$form.CancelButton = $cancel
$form.Controls.Add($cancel)

$result = $form.ShowDialog()
if ($result -ne [System.Windows.Forms.DialogResult]::OK) {{
    Write-Output "deny_once"
    exit 0
}}
switch ($combo.SelectedIndex) {{
    0 {{ Write-Output "allow_once" }}
    1 {{ Write-Output "allow_permanent_host" }}
    2 {{ Write-Output "allow_permanent_suffix" }}
    3 {{ Write-Output "deny_once" }}
    4 {{ Write-Output "deny_permanent_host" }}
    5 {{ Write-Output "deny_permanent_suffix" }}
    default {{ Write-Output "deny_once" }}
}}
"#,
        dialog_title = "nono: network access",
        host = "api.example.com",
        port = 8443,
        suffix = "example.com",
    );
    let command = powershell_prompt("api.example.com", 8443);
    assert_command(&command, "powershell.exe", &POWERSHELL_ARGS, Some(&script));
}

#[test]
fn zenity_dialog_is_a_radio_list() {
    let text = "The sandboxed process is trying to reach:\n\n    api.example.com:443\n\nHow should nono handle this destination?";
    assert_command(
        &zenity_prompt("api.example.com", 443),
        "zenity",
        &[
            "--list",
            "--radiolist",
            "--title=nono: network access",
            "--text",
            text,
            "--column=Pick",
            "--column=Action",
            "--column=id",
            "--hide-column=3",
            "--print-column=3",
            "FALSE",
            "Allow once",
            "allow_once",
            "FALSE",
            "Allow permanently (this host)",
            "allow_permanent_host",
            "FALSE",
            "Allow permanently (*.example.com)",
            "allow_permanent_suffix",
            "TRUE",
            "Deny once",
            "deny_once",
            "FALSE",
            "Deny permanently (this host)",
            "deny_permanent_host",
            "FALSE",
            "Deny permanently (*.example.com)",
            "deny_permanent_suffix",
        ],
        None,
    );
}

#[test]
fn kdialog_dialog_is_a_radio_list() {
    let text = "The sandboxed process is trying to reach api.example.com:443.\nHow should nono handle this destination?";
    assert_command(
        &kdialog_prompt("api.example.com", 443),
        "kdialog",
        &[
            "--title",
            "nono: network access",
            "--radiolist",
            text,
            "allow_once",
            "Allow once",
            "off",
            "allow_permanent_host",
            "Allow permanently (this host)",
            "off",
            "allow_permanent_suffix",
            "Allow permanently (*.example.com)",
            "off",
            "deny_once",
            "Deny once",
            "on",
            "deny_permanent_host",
            "Deny permanently (this host)",
            "off",
            "deny_permanent_suffix",
            "Deny permanently (*.example.com)",
            "off",
        ],
        None,
    );
}

#[test]
fn backend_shows_its_own_dialog() {
    for (backend, program) in [
        (DialogBackend::MacOsOsascript, "osascript"),
        (DialogBackend::LinuxZenity, "zenity"),
        (DialogBackend::LinuxKdialog, "kdialog"),
        (DialogBackend::WslPowershell, "powershell.exe"),
    ] {
        assert_eq!(backend.prompt("a.example", 443).program, program);
    }
}

#[test]
fn replies_are_trimmed() {
    for backend in [
        DialogBackend::MacOsOsascript,
        DialogBackend::LinuxZenity,
        DialogBackend::LinuxKdialog,
        DialogBackend::WslPowershell,
    ] {
        let reply = backend.read_reply(0, " allow_permanent_host\r\n");
        assert!(matches!(reply, Ok(PromptDecision::AllowPermanentHost)));
    }
}

#[test]
fn only_the_last_line_of_powershell_counts() {
    let stdout = "loading assemblies\nallow_once\r\n";
    let reply = DialogBackend::WslPowershell.read_reply(0, stdout);
    assert!(matches!(reply, Ok(PromptDecision::AllowOnce)));
    match DialogBackend::MacOsOsascript.read_reply(0, stdout) {
        Err(error) => {
            assert_eq!(error.program, "osascript");
            assert_eq!(error.token, "loading assemblies\nallow_once");
        }
        Ok(_) => panic!("all of the output is read"),
    }
}

#[test]
fn cancelled_dialog_denies() {
    for backend in [DialogBackend::LinuxZenity, DialogBackend::LinuxKdialog] {
        let reply = backend.read_reply(1, "allow_once");
        assert!(matches!(reply, Ok(PromptDecision::DenyOnce)));
    }
    // The others report a cancelled dialog in what they print.
    for backend in [DialogBackend::MacOsOsascript, DialogBackend::WslPowershell] {
        let reply = backend.read_reply(1, "allow_once");
        assert!(matches!(reply, Ok(PromptDecision::AllowOnce)));
    }
}

#[test]
fn unrecognised_reply_is_an_error() {
    for (backend, program) in [
        (DialogBackend::MacOsOsascript, "osascript"),
        (DialogBackend::LinuxZenity, "zenity"),
        (DialogBackend::LinuxKdialog, "kdialog"),
        (DialogBackend::WslPowershell, "powershell.exe"),
    ] {
        match backend.read_reply(0, " huh \n") {
            Err(error) => {
                assert_eq!(error.program, program);
                assert_eq!(error.token, "huh");
            }
            Ok(_) => panic!("this is no decision"),
        }
    }
    assert!(DialogBackend::WslPowershell.read_reply(0, "").is_err());
}

#[test]
fn prompter_tries_backends_in_order() {
    let backends = vec![DialogBackend::LinuxZenity, DialogBackend::LinuxKdialog];
    let prompter = NativePrompter::new();
    let step = |outcomes: Vec<PromptOutcome>| {
        prompter.prompt(&backends, &outcomes, PromptDecision::AllowOnce)
    };
    assert_eq!(step(vec![]), PromptStep::Ask(DialogBackend::LinuxZenity));
    assert_eq!(
        step(vec![PromptOutcome::Failed]),
        PromptStep::Ask(DialogBackend::LinuxKdialog)
    );
    assert_eq!(
        step(vec![
            PromptOutcome::Failed,
            PromptOutcome::Answered(PromptDecision::DenyPermanentHost),
        ]),
        PromptStep::Done(PromptDecision::DenyPermanentHost)
    );
    assert_eq!(
        step(vec![PromptOutcome::Failed, PromptOutcome::Failed]),
        PromptStep::Done(PromptDecision::AllowOnce)
    );
}

#[test]
fn missed_prompt_never_allows() {
    let backends = vec![DialogBackend::LinuxZenity, DialogBackend::LinuxKdialog];
    let outcomes = vec![PromptOutcome::TimedOut, PromptOutcome::Failed];
    assert_eq!(
        NativePrompter::new().prompt(&backends, &outcomes, PromptDecision::AllowOnce),
        PromptStep::Done(PromptDecision::DenyOnce)
    );
    // An answer at another dialog still counts.
    let outcomes = vec![
        PromptOutcome::TimedOut,
        PromptOutcome::Answered(PromptDecision::AllowOnce),
    ];
    assert_eq!(
        NativePrompter::new().prompt(&backends, &outcomes, PromptDecision::DenyOnce),
        PromptStep::Done(PromptDecision::AllowOnce)
    );
}

#[test]
fn prompter_without_backends_falls_back() {
    let prompter = NativePrompter::default();
    for fallback in [PromptDecision::AllowOnce, PromptDecision::DenyOnce] {
        assert_eq!(
            prompter.prompt(&vec![], &vec![], fallback),
            PromptStep::Done(fallback)
        );
    }
}

#[test]
fn notification_names_the_destination() {
    assert_eq!(
        notification_body("a.example", 443),
        "Sandboxed process wants to reach a.example:443 \u{2014} a decision dialog is waiting."
    );
    assert_eq!(NOTIFY_TITLE, "nono: network request");
    assert_eq!(DIALOG_WINDOW_TITLE, "nono: network access");
}

#[test]
fn macos_notification_is_a_banner() {
    let script = format!(
        "display notification \"{body}\" with title \"{ntitle}\" sound name \"Ping\"",
        body = "Sandboxed process wants to reach a\\\"b:443 \u{2014} a decision dialog is waiting.",
        ntitle = "nono: network request",
    );
    let notification = osascript_notify("a\"b", 443);
    assert_command(&notification.command, "osascript", &["-e", &script], None);
    assert_eq!(notification.timeout_secs, 5);
}

#[test]
fn linux_notification_offers_an_action() {
    let body = notification_body("a.example", 443);
    let notification = notify_send("a.example", 443);
    assert_command(
        &notification.command,
        "notify-send",
        &[
            "--app-name=nono",
            "--urgency=normal",
            "--action=show=Show",
            "--wait",
            "nono: network request",
            &body,
        ],
        None,
    );
    assert_eq!(notification.timeout_secs, 120);
}

#[test]
fn clicked_action_raises_the_dialog() {
    let after = |reply| after_notify_send(reply, "a.example", 443);
    assert!(matches!(after(Some((0, "show\n".to_string()))), NotifySendNext::Raise));
    assert!(matches!(after(Some((0, String::new()))), NotifySendNext::Done));
    assert!(matches!(after(Some((0, "hide".to_string()))), NotifySendNext::Done));
}

#[test]
fn unsupported_action_falls_back_to_a_plain_notification() {
    let body = notification_body("a.example", 443);
    for reply in [None, Some((1, "show".to_string()))] {
        match after_notify_send(reply, "a.example", 443) {
            NotifySendNext::Plain(plain) => {
                assert_command(
                    &plain.command,
                    "notify-send",
                    &["--app-name=nono", "--urgency=normal", "nono: network request", &body],
                    None,
                );
                assert_eq!(plain.timeout_secs, 5);
            }
            _ => panic!("the action did not work"),
        }
    }
}

#[test]
fn window_is_raised_by_what_is_there() {
    let raise = raise_linux_window(true, true, "title").unwrap();
    assert_command(&raise.command, "wmctrl", &["-a", "title"], None);
    assert_eq!(raise.timeout_secs, 3);
    let raise = raise_linux_window(false, true, "title").unwrap();
    assert_command(
        &raise.command,
        "xdotool",
        &["search", "--name", "title", "windowactivate"],
        None,
    );
    assert_eq!(raise.timeout_secs, 3);
    assert!(raise_linux_window(false, false, "title").is_none());
}

#[test]
fn wsl_notification_is_a_balloon() {
    let script = format!(
        r#"
Add-Type -AssemblyName System.Windows.Forms
Add-Type -AssemblyName System.Drawing
$sig = @'
[DllImport("user32.dll", SetLastError = true, CharSet = CharSet.Auto)]
public static extern System.IntPtr FindWindow(string lpClassName, string lpWindowName);
[DllImport("user32.dll")]
public static extern bool SetForegroundWindow(System.IntPtr hWnd);
[DllImport("user32.dll")]
public static extern bool ShowWindowAsync(System.IntPtr hWnd, int nCmdShow);
'@
if (-not ([System.Management.Automation.PSTypeName]'NonoWin32').Type) {{
    Add-Type -MemberDefinition $sig -Name 'NonoWin32' -Namespace 'Nono' -PassThru | Out-Null
}}
$n = New-Object System.Windows.Forms.NotifyIcon
$n.Icon = [System.Drawing.SystemIcons]::Information
$n.BalloonTipTitle = "{ntitle}"
$n.BalloonTipText = "{body}"
$n.Visible = $true
$script:shouldExit = $false
$onClick = {{
    try {{
        $h = [Nono.NonoWin32]::FindWindow($null, "{dtitle}")
        if ($h -ne [System.IntPtr]::Zero) {{
            [Nono.NonoWin32]::ShowWindowAsync($h, 9) | Out-Null  # SW_RESTORE
            [Nono.NonoWin32]::SetForegroundWindow($h) | Out-Null
        }}
    }} catch {{}}
    $script:shouldExit = $true
}}
$onClosed = {{ $script:shouldExit = $true }}
$n.add_BalloonTipClicked($onClick)
$n.add_BalloonTipClosed($onClosed)
$n.ShowBalloonTip(10000)
# Drain the Windows message queue for up to ~12s so click events are
# delivered. Exits early once the balloon is clicked/closed.
$end = (Get-Date).AddSeconds(12)
while ((Get-Date) -lt $end -and -not $script:shouldExit) {{
    [System.Windows.Forms.Application]::DoEvents()
    Start-Sleep -Milliseconds 100
}}
$n.Visible = $false
$n.Dispose()
"#,
        ntitle = "nono: network request",
        body = "Sandboxed process wants to reach a`$b:80 \u{2014} a decision dialog is waiting.",
        dtitle = "nono: network access",
    );
    let notification = powershell_notify("a$b", 80);
    assert_command(&notification.command, "powershell.exe", &POWERSHELL_ARGS, Some(&script));
    assert_eq!(notification.timeout_secs, 15);
}

#[test]
fn notify_backend_shows_its_own_notification() {
    for (backend, program, timeout_secs, cancellable) in [
        (NotifyBackend::MacOsOsascript, "osascript", 5, false),
        (NotifyBackend::LinuxNotifySend, "notify-send", 120, true),
        (NotifyBackend::WslPowershell, "powershell.exe", 15, true),
    ] {
        let notification = backend.notify("a.example", 443);
        assert_eq!(notification.command.program, program);
        assert_eq!(notification.timeout_secs, timeout_secs);
        assert_eq!(backend.is_cancellable(), cancellable);
    }
}

#[test]
fn notifier_stops_at_the_first_success() {
    let backends = vec![NotifyBackend::LinuxNotifySend, NotifyBackend::WslPowershell];
    let notifier = NativeNotifier::new();
    assert_eq!(notifier, NativeNotifier::default());
    assert_eq!(notifier.notify(&backends, &vec![]), Some(NotifyBackend::LinuxNotifySend));
    assert_eq!(notifier.notify(&backends, &vec![true]), None);
    assert_eq!(notifier.notify(&backends, &vec![false]), Some(NotifyBackend::WslPowershell));
    assert_eq!(notifier.notify(&backends, &vec![false, false]), None);
    assert_eq!(NoopNotifier::default(), NoopNotifier);
}

const LINUX: Platform = Platform {
    os: OsFamily::Linux,
    wsl: true,
    osascript: true,
    zenity: true,
    kdialog: true,
    powershell: true,
    notify_send: true,
};

#[test]
fn dialogs_of_a_platform() {
    assert_eq!(
        detect_backends(&LINUX),
        vec![
            DialogBackend::WslPowershell,
            DialogBackend::LinuxZenity,
            DialogBackend::LinuxKdialog,
        ]
    );
    let no_wsl = Platform { wsl: false, ..LINUX };
    assert_eq!(
        detect_backends(&no_wsl),
        vec![DialogBackend::LinuxZenity, DialogBackend::LinuxKdialog]
    );
    let macos = Platform { os: OsFamily::MacOs, ..LINUX };
    assert_eq!(detect_backends(&macos), vec![DialogBackend::MacOsOsascript]);
    let other = Platform { os: OsFamily::Other, ..LINUX };
    assert!(detect_backends(&other).is_empty());
    let headless = Platform { wsl: false, zenity: false, kdialog: false, ..LINUX };
    assert!(detect_backends(&headless).is_empty());
}

#[test]
fn notifications_of_a_platform() {
    assert_eq!(
        detect_notify_backends(&LINUX),
        vec![NotifyBackend::LinuxNotifySend, NotifyBackend::WslPowershell]
    );
    let no_powershell = Platform { powershell: false, ..LINUX };
    assert_eq!(detect_notify_backends(&no_powershell), vec![NotifyBackend::LinuxNotifySend]);
    let macos = Platform { os: OsFamily::MacOs, ..LINUX };
    assert_eq!(detect_notify_backends(&macos), vec![NotifyBackend::MacOsOsascript]);
    let other = Platform { os: OsFamily::Other, ..LINUX };
    assert!(detect_notify_backends(&other).is_empty());
}

#[test]
fn wsl_is_recognised() {
    assert!(is_wsl(OsFamily::Linux, true, false, None));
    assert!(is_wsl(OsFamily::Linux, false, true, None));
    let marked = "Linux version 5.15 (root@host) Microsoft standard";
    assert!(is_wsl(OsFamily::Linux, false, false, Some(marked)));
    assert!(is_wsl(OsFamily::Linux, false, false, Some("Linux 5.15-WSL2")));
    assert!(!is_wsl(OsFamily::Linux, false, false, Some("Linux version 6.1 (debian)")));
    assert!(!is_wsl(OsFamily::Linux, false, false, None));
    assert!(!is_wsl(OsFamily::MacOs, true, true, Some(marked)));
}
