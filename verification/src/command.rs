//! Commands to run, as plain values.

use crate::text;
use vstd::prelude::*;

verus! {

/// A program with its arguments and what to write to its standard input.
pub struct CommandLine {
    pub program: String,
    pub args: Vec<String>,
    pub stdin: Option<String>,
}

/// What a command line says.
#[verifier::ext_equal]
pub struct CommandModel {
    pub program: Seq<char>,
    pub args: Seq<Seq<char>>,
    pub stdin: Option<Seq<char>>,
}

impl View for CommandLine {
    type V = CommandModel;

    open spec fn view(&self) -> CommandModel {
        CommandModel {
            program: self.program@,
            args: text::texts(self.args@),
            stdin: match self.stdin {
                Some(data) => Some(data@),
                None => None,
            },
        }
    }
}

/// A command with the seconds it may take.
pub struct TimedCommand {
    pub command: CommandLine,
    pub timeout_secs: u64,
}

/// The arguments with which PowerShell runs a script from its standard input.
pub open spec fn powershell_args() -> Seq<Seq<char>> {
    seq!["-NoProfile"@, "-ExecutionPolicy"@, "Bypass"@, "-Command"@, "-"@]
}

/// PowerShell with a script on its standard input.
pub open spec fn powershell_model(script: Seq<char>) -> CommandModel {
    CommandModel {
        program: "powershell.exe"@,
        args: powershell_args(),
        stdin: Some(script),
    }
}

/// `osascript` with a script as its argument.
pub open spec fn osascript_model(script: Seq<char>) -> CommandModel {
    CommandModel { program: "osascript"@, args: seq!["-e"@, script], stdin: None }
}

/// Runs a script in PowerShell.
pub fn powershell_command(script: String) -> (r: CommandLine)
    ensures
        r@ == powershell_model(script@),
{
    let args: Vec<String> = vec![
        "-NoProfile".to_owned(),
        "-ExecutionPolicy".to_owned(),
        "Bypass".to_owned(),
        "-Command".to_owned(),
        "-".to_owned(),
    ];
    assert(text::texts(args@) =~= powershell_args());
    CommandLine { program: "powershell.exe".to_owned(), args, stdin: Some(script) }
}

/// Runs a script with `osascript`.
pub fn osascript_command(script: String) -> (r: CommandLine)
    ensures
        r@ == osascript_model(script@),
{
    let args: Vec<String> = vec!["-e".to_owned(), script];
    assert(text::texts(args@) =~= seq!["-e"@, script@]);
    CommandLine { program: "osascript".to_owned(), args, stdin: None }
}

/// A script runs in PowerShell from its standard input, and with `osascript` as
/// its argument, as it stands.
pub proof fn law_scripts_are_run_as_they_stand(script: Seq<char>)
    ensures
        powershell_model(script).program == "powershell.exe"@,
        powershell_model(script).stdin == Some(script),
        powershell_model(script).args == seq![
            "-NoProfile"@,
            "-ExecutionPolicy"@,
            "Bypass"@,
            "-Command"@,
            "-"@,
        ],
        osascript_model(script).program == "osascript"@,
        osascript_model(script).args == seq!["-e"@, script],
        osascript_model(script).stdin is None,
{
}

} // verus!
