//! Which dialogs and notifications a platform offers.

use crate::text;
use crate::text_laws;
use vstd::prelude::*;

verus! {

/// The operating system.
#[derive(Debug, Clone, Copy, PartialEq, Eq, Structural)]
pub enum OsFamily {
    MacOs,
    Linux,
    Other,
}

/// What is found on a machine: its system, and which programs are on the path.
#[derive(Debug, Clone, Copy, PartialEq, Eq, Structural)]
pub struct Platform {
    pub os: OsFamily,
    pub wsl: bool,
    pub osascript: bool,
    pub zenity: bool,
    pub kdialog: bool,
    pub powershell: bool,
    pub notify_send: bool,
}

/// A program that shows dialogs.
#[derive(Debug, Clone, Copy, PartialEq, Eq, Structural)]
pub enum DialogBackend {
    MacOsOsascript,
    LinuxZenity,
    LinuxKdialog,
    WslPowershell,
}

/// A program that shows notifications.
#[derive(Debug, Clone, Copy, PartialEq, Eq, Structural)]
pub enum NotifyBackend {
    MacOsOsascript,
    LinuxNotifySend,
    WslPowershell,
}

/// One item where a condition holds, none where it does not.
pub open spec fn only_if<T>(condition: bool, item: T) -> Seq<T> {
    if condition {
        seq![item]
    } else {
        Seq::empty()
    }
}

impl Platform {
    /// The dialog backends to try, in order.
    pub open spec fn dialogs(self) -> Seq<DialogBackend> {
        match self.os {
            OsFamily::MacOs => only_if(self.osascript, DialogBackend::MacOsOsascript),
            OsFamily::Linux => only_if(self.wsl && self.powershell, DialogBackend::WslPowershell)
                + only_if(self.zenity, DialogBackend::LinuxZenity) + only_if(
                self.kdialog,
                DialogBackend::LinuxKdialog,
            ),
            OsFamily::Other => Seq::empty(),
        }
    }

    /// The notification backends to try, in order.
    pub open spec fn notifications(self) -> Seq<NotifyBackend> {
        match self.os {
            OsFamily::MacOs => only_if(self.osascript, NotifyBackend::MacOsOsascript),
            OsFamily::Linux => only_if(self.notify_send, NotifyBackend::LinuxNotifySend) + only_if(
                self.wsl && self.powershell,
                NotifyBackend::WslPowershell,
            ),
            OsFamily::Other => Seq::empty(),
        }
    }
}

/// The dialog backends to try, in order. On WSL `powershell.exe` comes first,
/// because there is usually no X or Wayland.
#[must_use]
pub fn detect_backends(platform: &Platform) -> (r: Vec<DialogBackend>)
    ensures
        r@ == platform.dialogs(),
{
    let mut out: Vec<DialogBackend> = Vec::new();
    match platform.os {
        OsFamily::MacOs => {
            if platform.osascript {
                out.push(DialogBackend::MacOsOsascript);
            }
        },
        OsFamily::Linux => {
            if platform.wsl && platform.powershell {
                out.push(DialogBackend::WslPowershell);
            }
            if platform.zenity {
                out.push(DialogBackend::LinuxZenity);
            }
            if platform.kdialog {
                out.push(DialogBackend::LinuxKdialog);
            }
        },
        OsFamily::Other => {},
    }
    assert(out@ =~= platform.dialogs());
    out
}

/// The notification backends to try, in order.
#[must_use]
pub fn detect_notify_backends(platform: &Platform) -> (r: Vec<NotifyBackend>)
    ensures
        r@ == platform.notifications(),
{
    let mut out: Vec<NotifyBackend> = Vec::new();
    match platform.os {
        OsFamily::MacOs => {
            if platform.osascript {
                out.push(NotifyBackend::MacOsOsascript);
            }
        },
        OsFamily::Linux => {
            if platform.notify_send {
                out.push(NotifyBackend::LinuxNotifySend);
            }
            if platform.wsl && platform.powershell {
                out.push(NotifyBackend::WslPowershell);
            }
        },
        OsFamily::Other => {},
    }
    assert(out@ =~= platform.notifications());
    out
}

/// Whether the kernel's version text carries a marker of WSL.
pub open spec fn has_wsl_marker(version: Seq<char>) -> bool {
    let lower = text::lowercase(version);
    text::has_substring(lower, "microsoft"@) || text::has_substring(lower, "wsl"@)
}

/// Whether this is Linux under WSL: one of the two variables of WSL is set
/// (`WSL_DISTRO_NAME` or `WSL_INTEROP`), or else the text of `/proc/version`,
/// where it can be read, carries a marker.
#[must_use]
pub fn is_wsl(
    os: OsFamily,
    distro_name_set: bool,
    interop_set: bool,
    proc_version: Option<&str>,
) -> (r: bool)
    ensures
        r == (os == OsFamily::Linux && (distro_name_set || interop_set || (proc_version matches Some(
            version,
        ) && has_wsl_marker(version@)))),
{
    if os != OsFamily::Linux {
        return false;
    }
    if distro_name_set || interop_set {
        return true;
    }
    match proc_version {
        Some(version) => {
            let lower = version.to_lowercase();
            text::contains(lower.as_str(), "microsoft") || text::contains(lower.as_str(), "wsl")
        },
        None => false,
    }
}

/// A machine offers a dialog exactly where its system has one of the programs
/// for it; elsewhere the fallback decides.
pub proof fn law_when_no_dialog_is_available(platform: Platform)
    ensures
        platform.dialogs().len() == 0 <==> match platform.os {
            OsFamily::MacOs => !platform.osascript,
            OsFamily::Linux => !(platform.wsl && platform.powershell) && !platform.zenity
                && !platform.kdialog,
            OsFamily::Other => true,
        },
        platform.dialogs().no_duplicates(),
        platform.notifications().no_duplicates(),
{
}

/// Which dialogs a machine offers, and that PowerShell comes before zenity and
/// zenity before kdialog.
pub proof fn law_dialogs_of_a_platform(platform: Platform, i: int, j: int)
    ensures
        platform.dialogs().contains(DialogBackend::MacOsOsascript) <==> platform.os
            == OsFamily::MacOs && platform.osascript,
        platform.dialogs().contains(DialogBackend::WslPowershell) <==> platform.os
            == OsFamily::Linux && platform.wsl && platform.powershell,
        platform.dialogs().contains(DialogBackend::LinuxZenity) <==> platform.os == OsFamily::Linux
            && platform.zenity,
        platform.dialogs().contains(DialogBackend::LinuxKdialog) <==> platform.os == OsFamily::Linux
            && platform.kdialog,
        0 <= i < platform.dialogs().len() && 0 <= j < platform.dialogs().len() ==> {
            &&& platform.dialogs()[i] == DialogBackend::WslPowershell && platform.dialogs()[j]
                != DialogBackend::WslPowershell ==> i < j
            &&& platform.dialogs()[i] == DialogBackend::LinuxZenity && platform.dialogs()[j]
                == DialogBackend::LinuxKdialog ==> i < j
        },
{
    let all = platform.dialogs();
    let shell = only_if(platform.wsl && platform.powershell, DialogBackend::WslPowershell);
    let zenity = only_if(platform.zenity, DialogBackend::LinuxZenity);
    let kdialog = only_if(platform.kdialog, DialogBackend::LinuxKdialog);
    if platform.os is MacOs && platform.osascript {
        assert(all[0] == DialogBackend::MacOsOsascript);
    }
    if platform.os is Linux {
        if shell.len() > 0 {
            assert(all[0] == DialogBackend::WslPowershell);
        }
        if zenity.len() > 0 {
            assert(all[shell.len() as int] == DialogBackend::LinuxZenity);
        }
        if kdialog.len() > 0 {
            assert(all[shell.len() + zenity.len() as int] == DialogBackend::LinuxKdialog);
        }
    }
}

/// Which notifications a machine offers, and that `notify-send` comes before
/// PowerShell.
pub proof fn law_notifications_of_a_platform(platform: Platform, i: int, j: int)
    ensures
        platform.notifications().contains(NotifyBackend::MacOsOsascript) <==> platform.os
            == OsFamily::MacOs && platform.osascript,
        platform.notifications().contains(NotifyBackend::LinuxNotifySend) <==> platform.os
            == OsFamily::Linux && platform.notify_send,
        platform.notifications().contains(NotifyBackend::WslPowershell) <==> platform.os
            == OsFamily::Linux && platform.wsl && platform.powershell,
        0 <= i < platform.notifications().len() && 0 <= j < platform.notifications().len()
            && platform.notifications()[i] == NotifyBackend::LinuxNotifySend
            && platform.notifications()[j] == NotifyBackend::WslPowershell ==> i < j,
{
    let all = platform.notifications();
    let send = only_if(platform.notify_send, NotifyBackend::LinuxNotifySend);
    if platform.os is MacOs && platform.osascript {
        assert(all[0] == NotifyBackend::MacOsOsascript);
    }
    if platform.os is Linux {
        if send.len() > 0 {
            assert(all[0] == NotifyBackend::LinuxNotifySend);
        }
        if platform.wsl && platform.powershell {
            assert(all[send.len() as int] == NotifyBackend::WslPowershell);
        }
    }
}

/// A kernel version is marked where its lowercase form holds one of the two
/// markers between any two texts, and only there.
pub proof fn law_wsl_markers(
    version: Seq<char>,
    before: Seq<char>,
    after: Seq<char>,
) -> (around: (Seq<char>, Seq<char>))
    ensures
        text::lowercase(version) == before + "microsoft"@ + after ==> has_wsl_marker(version),
        text::lowercase(version) == before + "wsl"@ + after ==> has_wsl_marker(version),
        has_wsl_marker(version) ==> text::lowercase(version) == around.0 + "microsoft"@ + around.1
            || text::lowercase(version) == around.0 + "wsl"@ + around.1,
{
    let lower = text::lowercase(version);
    text_laws::law_substring_is_found(before, "microsoft"@, after);
    text_laws::law_substring_is_found(before, "wsl"@, after);
    if text::has_substring(lower, "microsoft"@) {
        text_laws::law_found_substring_is_there(lower, "microsoft"@)
    } else if text::has_substring(lower, "wsl"@) {
        text_laws::law_found_substring_is_there(lower, "wsl"@)
    } else {
        (before, after)
    }
}

} // verus!
