//! The shell script that runs a user-defined command in a terminal.

use vstd::prelude::*;
use crate::text::{blank, chars_of, is_blank, signed_decimal, signed_decimal_of};
use vstd::string::StringExecFns;

verus! {

/// The text of the script that runs `command`, after changing to `directory`
/// where one is given.
pub open spec fn script_body_of(command: Seq<char>, directory: Option<Seq<char>>) -> Seq<char> {
    "#!/bin/sh\n"@ + "echo 'Running Custom Script...'\n"@ + (match directory {
        Some(path) => "cd \""@ + path + "\" || exit\n"@ + "echo 'Changed directory to: "@ + path
            + "'\n"@,
        None => Seq::empty(),
    }) + command + "\n"@ + "echo '\n-----------------------------------'\n"@
        + "echo 'Script finished. Press any key to close.'\n"@ + "read -n 1\n"@
}

/// The directory that a script changes to: the working directory that was
/// asked for, unless it is blank.
pub open spec fn script_directory(cwd: Option<Seq<char>>) -> Option<Seq<char>> {
    match cwd {
        Some(path) => if is_blank(path) {
            None
        } else {
            Some(path)
        },
        None => None,
    }
}

/// The text of the script that runs `command` in the working directory `cwd`.
pub open spec fn script_text_of(command: Seq<char>, cwd: Option<Seq<char>>) -> Seq<char> {
    script_body_of(command, script_directory(cwd))
}

/// The name of the script file written at the time `millis`.
pub open spec fn script_file_name_of(millis: int) -> Seq<char> {
    "macappcontrol_script_"@ + signed_decimal_of(millis) + ".command"@
}

/// The text of the script that runs `command`, after changing to `directory`
/// where one is given.
pub fn script_body(command: &str, directory: Option<&str>) -> (out: String)
    ensures
        out@ == script_body_of(
            command@,
            match directory {
                Some(path) => Some(path@),
                None => None,
            },
        ),
{
    let mut out = "#!/bin/sh\n".to_string();
    out.append("echo 'Running Custom Script...'\n");
    let ghost head = out@;
    let ghost mut change: Seq<char> = Seq::empty();
    match directory {
        Some(path) => {
            out.append("cd \"");
            out.append(path);
            out.append("\" || exit\n");
            out.append("echo 'Changed directory to: ");
            out.append(path);
            out.append("'\n");
            proof {
                change = "cd \""@ + path@ + "\" || exit\n"@ + "echo 'Changed directory to: "@
                    + path@ + "'\n"@;
            }
        },
        None => {},
    }
    assert(out@ =~= head + change);
    out.append(command);
    out.append("\n");
    out.append("echo '\n-----------------------------------'\n");
    out.append("echo 'Script finished. Press any key to close.'\n");
    out.append("read -n 1\n");
    assert(out@ =~= head + change + command@ + "\n"@
        + "echo '\n-----------------------------------'\n"@
        + "echo 'Script finished. Press any key to close.'\n"@ + "read -n 1\n"@);
    out
}

/// The text of the script that runs `command` in the working directory `cwd`.
/// A blank working directory is none.
pub fn run_script(command: &str, cwd: Option<&str>) -> (out: String)
    ensures
        out@ == script_text_of(
            command@,
            match cwd {
                Some(path) => Some(path@),
                None => None,
            },
        ),
{
    match cwd {
        Some(path) => {
            if blank(&chars_of(path)) {
                script_body(command, None)
            } else {
                script_body(command, Some(path))
            }
        },
        None => script_body(command, None),
    }
}

/// The name of the script file written at the time `millis`, in milliseconds
/// since the epoch.
pub fn script_file_name(millis: i64) -> (out: String)
    ensures
        out@ == script_file_name_of(millis as int),
{
    let mut out = "macappcontrol_script_".to_string();
    out.append(signed_decimal(millis).as_str());
    out.append(".command");
    out
}

} // verus!
