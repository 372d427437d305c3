//! The fixed parts of the scripts that dialogs and notifications run.

use vstd::prelude::*;

verus! {

// AppleScript list dialog

/// The list of choices, up to the suffix of the allowing one.
pub const OSASCRIPT_ALLOW_CHOICES: &'static str = r#"
set theChoices to {"Allow once", "Allow permanently (this host)", "Allow permanently (*."#;

/// The list of choices, up to the suffix of the denying one.
pub const OSASCRIPT_DENY_CHOICES: &'static str = r#")", "Deny once", "Deny permanently (this host)", "Deny permanently (*."#;

/// The end of the list, up to the title of the dialog.
pub const OSASCRIPT_TITLE: &'static str = r#")"}
set theChoice to choose from list theChoices with title ""#;

/// What is asked, up to the host.
pub const OSASCRIPT_PROMPT: &'static str = r#"" with prompt "The sandboxed process is trying to reach:

    "#;

/// The replies, up to the suffix of the allowing choice.
pub const OSASCRIPT_ALLOW_REPLIES: &'static str = r#"

How should nono handle this destination?" default items {"Deny once"} OK button name "Select" cancel button name "Cancel"
if theChoice is false then
    return "deny_once"
else
    set c to item 1 of theChoice
    if c is "Allow once" then
        return "allow_once"
    else if c is "Allow permanently (this host)" then
        return "allow_permanent_host"
    else if c is "Allow permanently (*."#;

/// The replies, up to the suffix of the denying choice.
pub const OSASCRIPT_DENY_REPLIES: &'static str = r#")" then
        return "allow_permanent_suffix"
    else if c is "Deny once" then
        return "deny_once"
    else if c is "Deny permanently (this host)" then
        return "deny_permanent_host"
    else if c is "Deny permanently (*."#;

/// The reply to the denying choice, and the default one.
pub const OSASCRIPT_END: &'static str = r#")" then
        return "deny_permanent_suffix"
    else
        return "deny_once"
    end if
end if
"#;

// PowerShell form dialog

/// The form, up to its title.
pub const POWERSHELL_FORM: &'static str = r#"
Add-Type -AssemblyName System.Windows.Forms
Add-Type -AssemblyName System.Drawing
$form = New-Object System.Windows.Forms.Form
$form.Text = ""#;

/// The label of the form, up to the host.
pub const POWERSHELL_LABEL: &'static str = r#""
$form.Size = New-Object System.Drawing.Size(480,260)
$form.StartPosition = "CenterScreen"
$form.TopMost = $true

$label = New-Object System.Windows.Forms.Label
$label.Location = New-Object System.Drawing.Point(10,10)
$label.Size = New-Object System.Drawing.Size(460,60)
$label.Text = "The sandboxed process is trying to reach:`n`n    "#;

/// The items to pick from, up to the suffix of the allowing one.
pub const POWERSHELL_ALLOW_ITEMS: &'static str = r#"`n`nHow should nono handle this destination?"
$form.Controls.Add($label)

$combo = New-Object System.Windows.Forms.ComboBox
$combo.Location = New-Object System.Drawing.Point(10,80)
$combo.Size = New-Object System.Drawing.Size(440,20)
$combo.DropDownStyle = "DropDownList"
$combo.Items.Add("Allow once")           | Out-Null
$combo.Items.Add("Allow permanently (this host)") | Out-Null
$combo.Items.Add("Allow permanently (*."#;

/// The items to pick from, up to the suffix of the denying one.
pub const POWERSHELL_DENY_ITEMS: &'static str = r#")") | Out-Null
$combo.Items.Add("Deny once")            | Out-Null
$combo.Items.Add("Deny permanently (this host)") | Out-Null
$combo.Items.Add("Deny permanently (*."#;

/// The buttons, and the replies to the picked item.
pub const POWERSHELL_REPLIES: &'static str = r#")") | Out-Null
$combo.SelectedIndex = 3
$form.Controls.Add($combo)

$ok = New-Object System.Windows.Forms.Button
$ok.Location = New-Object System.Drawing.Point(280,180)
$ok.Size = New-Object System.Drawing.Size(80,25)
$ok.Text = "OK"
$ok.DialogResult = [System.Windows.Forms.DialogResult]::OK
$form.AcceptButton = $ok
$form.Controls.Add($ok)

$cancel = New-Object System.Windows.Forms.Button
$cancel.Location = New-Object System.Drawing.Point(370,180)
$cancel.Size = New-Object System.Drawing.Size(80,25)
$cancel.Text = "Cancel"
$cancel.DialogResult = [System.Windows.Forms.DialogResult]::Cancel
$form.CancelButton = $cancel
$form.Controls.Add($cancel)

$result = $form.ShowDialog()
if ($result -ne [System.Windows.Forms.DialogResult]::OK) {
    Write-Output "deny_once"
    exit 0
}
switch ($combo.SelectedIndex) {
    0 { Write-Output "allow_once" }
    1 { Write-Output "allow_permanent_host" }
    2 { Write-Output "allow_permanent_suffix" }
    3 { Write-Output "deny_once" }
    4 { Write-Output "deny_permanent_host" }
    5 { Write-Output "deny_permanent_suffix" }
    default { Write-Output "deny_once" }
}
"#;

// PowerShell balloon notification

/// The balloon, up to its title.
pub const POWERSHELL_BALLOON_TITLE: &'static str = r#"
Add-Type -AssemblyName System.Windows.Forms
Add-Type -AssemblyName System.Drawing
$sig = @'
[DllImport("user32.dll", SetLastError = true, CharSet = CharSet.Auto)]
public static extern System.IntPtr FindWindow(string lpClassName, string lpWindowName);
[DllImport("user32.dll")]
public static extern bool SetForegroundWindow(System.IntPtr hWnd);
[DllImport("user32.dll")]
public static extern bool ShowWindowAsync(System.IntPtr hWnd, int nCmdShow);
'@
if (-not ([System.Management.Automation.PSTypeName]'NonoWin32').Type) {
    Add-Type -MemberDefinition $sig -Name 'NonoWin32' -Namespace 'Nono' -PassThru | Out-Null
}
$n = New-Object System.Windows.Forms.NotifyIcon
$n.Icon = [System.Drawing.SystemIcons]::Information
$n.BalloonTipTitle = ""#;

/// The balloon, up to its text.
pub const POWERSHELL_BALLOON_TEXT: &'static str = r#""
$n.BalloonTipText = ""#;

/// What a click does, up to the title of the window to raise.
pub const POWERSHELL_BALLOON_CLICK: &'static str = r#""
$n.Visible = $true
$script:shouldExit = $false
$onClick = {
    try {
        $h = [Nono.NonoWin32]::FindWindow($null, ""#;

/// The loop that waits for a click.
pub const POWERSHELL_BALLOON_LOOP: &'static str = r#"")
        if ($h -ne [System.IntPtr]::Zero) {
            [Nono.NonoWin32]::ShowWindowAsync($h, 9) | Out-Null  # SW_RESTORE
            [Nono.NonoWin32]::SetForegroundWindow($h) | Out-Null
        }
    } catch {}
    $script:shouldExit = $true
}
$onClosed = { $script:shouldExit = $true }
$n.add_BalloonTipClicked($onClick)
$n.add_BalloonTipClosed($onClosed)
$n.ShowBalloonTip(10000)
# Drain the Windows message queue for up to ~12s so click events are
# delivered. Exits early once the balloon is clicked/closed.
$end = (Get-Date).AddSeconds(12)
while ((Get-Date) -lt $end -and -not $script:shouldExit) {
    [System.Windows.Forms.Application]::DoEvents()
    Start-Sleep -Milliseconds 100
}
$n.Visible = $false
$n.Dispose()
"#;

} // verus!
