//! Running commands without a shell: the module's description, the words a
//! command runs, where it runs and when its guards skip it.
use vstd::prelude::*;
use crate::inventory::ini::{shell_split, shell_split_words};
use crate::text::{concat3, copy_str, views};
use super::python::{join_path, joined_path};
use super::{ModuleClassification, ModuleError, ModuleResult};

verus! {

/// Module for executing commands.
pub struct CommandModule;

impl CommandModule {
    /// The module's name.
    pub fn name(&self) -> (r: &'static str)
        ensures
            r@ == "command"@,
    {
        "command"
    }

    /// What the module does.
    pub fn description(&self) -> (r: &'static str)
        ensures
            r@ == "Execute commands without going through a shell"@,
    {
        "Execute commands without going through a shell"
    }

    /// Commands run on the target.
    pub fn classification(&self) -> (r: ModuleClassification)
        ensures
            r == ModuleClassification::RemoteCommand,
    {
        ModuleClassification::RemoteCommand
    }

    /// The parameters the module cannot run without.
    pub fn required_params(&self) -> (r: &'static [&'static str])
        ensures
            r@.len() == 1,
            r@[0]@ == "cmd"@,
    {
        &["cmd"]
    }
}

/// The program and arguments a command runs: `argv` as given when there is
/// one, else the words of `cmd` (or, without it, of the free-form
/// `_raw_params`) as a POSIX shell splits them. The program must not be empty,
/// and quotes must be closed.
pub open spec fn command_words(
    cmd: Option<Seq<char>>,
    raw: Option<Seq<char>>,
    argv: Option<Seq<Seq<char>>>,
    r: ModuleResult<Vec<String>>,
) -> bool {
    match argv {
        Some(a) => if a.len() == 0 {
            r matches Err(ModuleError::InvalidParameter(m)) && m@ == "argv cannot be empty"@
        } else if a[0].len() == 0 {
            r matches Err(ModuleError::InvalidParameter(m)) && m@ == "argv program cannot be empty"@
        } else {
            r matches Ok(v) && views(v@) == a
        },
        None => {
            let text = match cmd {
                Some(c) => Some(c),
                None => raw,
            };
            match text {
                None => r matches Err(ModuleError::MissingParameter(m)) && m@ == "Either 'cmd' or 'argv' must be provided"@,
                Some(t) => match shell_split_words(t) {
                    None => r matches Err(ModuleError::InvalidParameter(m)) && m@ == "cmd has an unmatched quote"@,
                    Some(ws) => if ws.len() == 0 {
                        r matches Err(ModuleError::InvalidParameter(m)) && m@ == "cmd cannot be empty"@
                    } else if ws[0].len() == 0 {
                        r matches Err(ModuleError::InvalidParameter(m)) && m@ == "cmd program cannot be empty"@
                    } else {
                        r matches Ok(v) && views(v@) == ws
                    },
                },
            }
        },
    }
}

/// The directory a command runs in: `chdir` when given, else the context's
/// working directory, if any.
pub open spec fn working_directory(chdir: Option<Seq<char>>, work_dir: Option<Seq<char>>) -> Option<Seq<char>> {
    match chdir {
        Some(c) => Some(c),
        None => work_dir,
    }
}

/// The path a `creates` or `removes` guard names: relative to the directory
/// the command runs in, when there is one; an absolute guard as it is.
pub open spec fn guard_location(guard: Seq<char>, dir: Option<Seq<char>>) -> Seq<char> {
    match dir {
        Some(d) => joined_path(d, guard),
        None => guard,
    }
}

/// Why the guards skip a command: a `creates` path that exists, or else a
/// `removes` path that does not.
pub open spec fn skip_reason(
    creates: Option<Seq<char>>,
    creates_exists: bool,
    removes: Option<Seq<char>>,
    removes_exists: bool,
) -> Option<Seq<char>> {
    if creates is Some && creates_exists {
        Some("Skipped, '"@ + creates.unwrap() + "' exists"@)
    } else if removes is Some && !removes_exists {
        Some("Skipped, '"@ + removes.unwrap() + "' does not exist"@)
    } else {
        None
    }
}

impl CommandModule {
    /// The program and arguments a command runs.
    pub fn command_words(cmd: Option<&str>, raw_params: Option<&str>, argv: Option<&[String]>) -> (r: ModuleResult<Vec<String>>)
        ensures
            command_words(
                crate::text::str_opt(cmd),
                crate::text::str_opt(raw_params),
                match argv {
                    Some(a) => Some(views(a@)),
                    None => None,
                },
                r,
            ),
    {
        match argv {
            Some(a) => {
                if a.len() == 0 {
                    return Err(ModuleError::InvalidParameter(copy_str("argv cannot be empty")));
                }
                if crate::text::chars_of(a[0].as_str()).len() == 0 {
                    proof {
                        assert(views(a@)[0].len() == 0);
                    }
                    return Err(ModuleError::InvalidParameter(copy_str("argv program cannot be empty")));
                }
                proof {
                    assert(views(a@)[0] == a@[0]@);
                }
                let mut v: Vec<String> = Vec::new();
                let mut i: usize = 0;
                while i < a.len()
                    invariant
                        i <= a@.len(),
                        views(v@) == views(a@).take(i as int),
                    decreases a@.len() - i,
                {
                    let ghost prev = v@;
                    let w = copy_str(a[i].as_str());
                    v.push(w);
                    proof {
                        assert(views(v@) =~= views(prev).push(a@[i as int]@));
                        assert(views(a@).take(i + 1) =~= views(a@).take(i as int).push(a@[i as int]@));
                    }
                    i = i + 1;
                }
                proof {
                    assert(views(a@).take(a@.len() as int) =~= views(a@));
                    assert(views(a@)[0].len() != 0);
                }
                Ok(v)
            },
            None => {
                let text = match cmd {
                    Some(c) => Some(c),
                    None => raw_params,
                };
                match text {
                    None => Err(ModuleError::MissingParameter(copy_str("Either 'cmd' or 'argv' must be provided"))),
                    Some(t) => match shell_split(t) {
                        None => Err(ModuleError::InvalidParameter(copy_str("cmd has an unmatched quote"))),
                        Some(ws) => {
                            if ws.len() == 0 {
                                Err(ModuleError::InvalidParameter(copy_str("cmd cannot be empty")))
                            } else if crate::text::chars_of(ws[0].as_str()).len() == 0 {
                                proof {
                                    assert(views(ws@)[0].len() == 0);
                                }
                                Err(ModuleError::InvalidParameter(copy_str("cmd program cannot be empty")))
                            } else {
                                proof {
                                    assert(views(ws@)[0] == ws@[0]@);
                                    assert(views(ws@)[0].len() != 0);
                                }
                                Ok(ws)
                            }
                        },
                    },
                }
            },
        }
    }

    /// The directory a command runs in.
    pub fn working_directory(chdir: Option<&str>, work_dir: Option<&str>) -> (r: Option<String>)
        ensures
            crate::inventory::host::opt_view(r) == working_directory(crate::text::str_opt(chdir), crate::text::str_opt(work_dir)),
    {
        match chdir {
            Some(c) => Some(copy_str(c)),
            None => match work_dir {
                Some(w) => Some(copy_str(w)),
                None => None,
            },
        }
    }

    /// The path a guard names, given the directory the command runs in.
    pub fn guard_location(guard: &str, dir: Option<&str>) -> (r: String)
        ensures
            r@ == guard_location(guard@, crate::text::str_opt(dir)),
    {
        match dir {
            Some(d) => join_path(d, guard),
            None => copy_str(guard),
        }
    }

    /// The message of a command the guards skip, if they skip it; whether
    /// each guard's path exists is given.
    pub fn skip_reason(
        creates: Option<&str>,
        creates_exists: bool,
        removes: Option<&str>,
        removes_exists: bool,
    ) -> (r: Option<String>)
        ensures
            crate::inventory::host::opt_view(r) == skip_reason(
                crate::text::str_opt(creates),
                creates_exists,
                crate::text::str_opt(removes),
                removes_exists,
            ),
    {
        if let Some(c) = creates {
            if creates_exists {
                return Some(concat3("Skipped, '", c, "' exists"));
            }
        }
        if let Some(r) = removes {
            if !removes_exists {
                return Some(concat3("Skipped, '", r, "' does not exist"));
            }
        }
        None
    }
}

impl CommandModule {
    /// How a command is named in messages: its `cmd`, or `command`.
    pub fn display_name(cmd: Option<&str>) -> (r: String)
        ensures
            r@ == match cmd {
                Some(c) => c@,
                None => "command"@,
            },
    {
        match cmd {
            Some(c) => copy_str(c),
            None => copy_str("command"),
        }
    }

    /// What a finished command comes to: on success, the message; otherwise
    /// the exit code with the error output, or the standard output when the
    /// error output is empty.
    pub fn command_result(display: &str, success: bool, code: i32, stdout: String, stderr: String) -> (r: ModuleResult<String>)
        ensures
            success ==> (r matches Ok(m) && m@ == "Command '"@ + display@ + "' executed successfully"@),
            !success ==> (r matches Err(ModuleError::CommandFailed { code: c, message: m }) && c == code
                && m@ == if stderr@.len() == 0 { stdout@ } else { stderr@ }),
    {
        if success {
            Ok(concat3("Command '", display, "' executed successfully"))
        } else {
            let empty = crate::text::chars_of(stderr.as_str()).len() == 0;
            Err(ModuleError::CommandFailed { code, message: if empty { stdout } else { stderr } })
        }
    }
}

/// What a command run does once its words are known.
#[derive(Debug, Clone)]
pub enum CommandStep {
    /// A guard skips it, with this message; nothing runs.
    Skip(String),
    /// Check mode: nothing runs, and this message says what would.
    Report(String),
    /// The command runs.
    Run,
}

impl CommandModule {
    /// Decides a command run: a guard's skip wins, then check mode reports
    /// without running, and only otherwise does the command run.
    pub fn command_step(skip: Option<String>, check_mode: bool, display: &str) -> (r: CommandStep)
        ensures
            match skip {
                Some(m) => r matches CommandStep::Skip(x) && x@ == m@,
                None => if check_mode {
                    r matches CommandStep::Report(x) && x@ == "Would execute: "@ + display@
                } else {
                    r matches CommandStep::Run
                },
            },
    {
        match skip {
            Some(m) => CommandStep::Skip(m),
            None => if check_mode {
                CommandStep::Report(crate::text::concat2("Would execute: ", display))
            } else {
                CommandStep::Run
            },
        }
    }
}

} // verus!
