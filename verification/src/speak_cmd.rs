use vstd::prelude::*;
use vstd::string::StringExecFns;

verus! {

/// The platform whose speech command is used.
#[derive(Debug, Clone, Copy, PartialEq, Eq, Structural)]
pub enum Platform {
    MacOs,
    Windows,
    Other,
}

/// A program and the arguments to run it with.
#[derive(Debug, Clone, PartialEq, Eq)]
pub struct CommandLine {
    pub program: String,
    pub args: Vec<String>,
}

/// The text that std's `Debug` for `str` writes for `message`: the
/// message between double quotes, with its special characters escaped.
pub uninterp spec fn debug_quoted(message: Seq<char>) -> Seq<char>;

/// The name of the program that speaks on `platform`.
pub open spec fn program_name(platform: Platform) -> Seq<char> {
    match platform {
        Platform::MacOs => "say"@,
        Platform::Windows => "powershell"@,
        Platform::Other => "espeak"@,
    }
}

/// The one argument that the program is run with.
pub open spec fn argument(platform: Platform, message: Seq<char>) -> Seq<char> {
    match platform {
        Platform::Windows =>
            "PowerShell -Command \"Add-Type –AssemblyName System.Speech; (New-Object System.Speech.Synthesis.SpeechSynthesizer).Speak('"@
                + message + "');\""@,
        _ => message,
    }
}

/// What is reported when the program has run and failed.
pub open spec fn failure_text(platform: Platform, message: Seq<char>) -> Seq<char> {
    "failed to run `"@ + program_name(platform) + "` with message "@ + debug_quoted(message)
}

/// `format!` with `{:?}` on a `str`, which is std's `Debug` for `str`.
/// The contract only gives the text a name: it depends on the message
/// alone.
#[verifier::external_body]
fn quoted(message: &str) -> (text: String)
    ensures
        text@ == debug_quoted(message@),
{
    format!("{:?}", message)
}

/// A speaker that runs a local command:
/// `say` on macOS, the speech API through PowerShell on Windows, and
/// `espeak` elsewhere.
#[derive(Debug)]
#[non_exhaustive]
pub struct LocalCommand {}

impl Default for LocalCommand {
    fn default() -> (speaker: Self) {
        LocalCommand {  }
    }
}

impl LocalCommand {
    /// Creates a new `LocalCommand`.
    pub fn new() -> (speaker: Self) {
        LocalCommand {  }
    }

    /// The command that speaks `message` on `platform`.
    pub fn command(&self, platform: Platform, message: &str) -> (line: CommandLine)
        ensures
            line.program@ == program_name(platform),
            line.args@.len() == 1,
            line.args@[0]@ == argument(platform, message@),
    {
        let mut args: Vec<String> = Vec::new();
        match platform {
            Platform::MacOs => {
                args.push(String::from_str(message));
                CommandLine { program: String::from_str("say"), args }
            },
            Platform::Other => {
                args.push(String::from_str(message));
                CommandLine { program: String::from_str("espeak"), args }
            },
            Platform::Windows => {
                let mut script = String::from_str(
                    "PowerShell -Command \"Add-Type –AssemblyName System.Speech; (New-Object System.Speech.Synthesis.SpeechSynthesizer).Speak('",
                );
                script.append(message);
                script.append("');\"");
                args.push(script);
                CommandLine { program: String::from_str("powershell"), args }
            },
        }
    }

    /// The outcome of speaking `message`, once the command has run on
    /// `platform`: success where the command succeeded, and a report that
    /// names the program and the message where it did not.
    pub fn try_speak(&self, platform: Platform, message: &str, succeeded: bool) -> (spoken: Result<(), String>)
        ensures
            succeeded <==> spoken is Ok,
            !succeeded ==> spoken.unwrap_err()@ == failure_text(platform, message@),
    {
        if succeeded {
            return Ok(());
        }
        let mut report = String::from_str("failed to run `");
        match platform {
            Platform::MacOs => report.append("say"),
            Platform::Windows => report.append("powershell"),
            Platform::Other => report.append("espeak"),
        }
        report.append("` with message ");
        let text = quoted(message);
        report.append(text.as_str());
        Err(report)
    }
}

} // verus!
