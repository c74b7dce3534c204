//! The argument surface of the tool and the decisions made on it.
//!
//! `Cli` carries the values that the surrounding binary collects from flags
//! and environment variables. The decisions on those values — which command
//! a job runs, and the argument list handed to the interactive allocator —
//! are made here on plain strings; the binary supplies the detected login
//! shell and performs every call into the outside world.

use vstd::prelude::*;

verus! {

/// The validated argument values for one submission.
#[derive(Debug, Clone)]
pub struct Cli {
    /// Name of the job.
    pub name: String,
    /// Command to be executed by the job; optional for interactive jobs.
    pub command: Option<String>,
    /// Options passed on to the scheduler's submission command.
    pub remainder: Vec<String>,
    /// File that the job's standard output goes to.
    pub output: String,
    /// File that the job's standard error goes to.
    pub error: String,
    /// Normalized memory request.
    pub memory: String,
    /// Normalized time limit.
    pub time: String,
    /// The shell shebang for the submission script.
    pub shebang: String,
    /// Options for the `set` command in the script.
    pub set: String,
    /// Print what would run instead of running it.
    pub dry_run: bool,
    /// Ask the scheduler for a schedule estimate only.
    pub test_only: bool,
    /// Request an interactive session instead of a batch job.
    pub interactive: bool,
    /// Shell for interactive sessions; `"auto"` means the user's own.
    pub shell: String,
    /// Which environment variables are exported to the job.
    pub export: String,
}

/// The message returned when a batch job has no command.
pub open spec fn batch_command_required_msg() -> Seq<char> {
    "Command is required for batch jobs. Use --interactive for interactive sessions."@
}

/// The command a submission resolves to: the given command when there is
/// one; for an interactive job without one, a login-shell invocation of the
/// chosen shell (`"auto"` picks `user_shell`); for a batch job without one,
/// nothing.
pub open spec fn resolved_command(cli: &Cli, user_shell: Seq<char>) -> Option<Seq<char>> {
    match cli.command {
        Option::Some(k) => Option::Some(k@),
        Option::None => {
            if cli.interactive {
                Option::Some(
                    "srun --pty "@ + (if cli.shell@ == "auto"@ {
                        user_shell
                    } else {
                        cli.shell@
                    }) + " -l"@,
                )
            } else {
                Option::None
            }
        },
    }
}

impl Cli {
    /// Validates the arguments and returns the command to execute.
    ///
    /// `user_shell` is the detected login shell, consulted only for an
    /// interactive job without a command whose shell choice is `"auto"`.
    pub fn validate_and_get_command(&self, user_shell: &str) -> (r: Result<String, String>)
        ensures
            match r {
                Result::Ok(c) => resolved_command(self, user_shell@) == Option::Some(c@),
                Result::Err(m) => {
                    &&& resolved_command(self, user_shell@) is None
                    &&& m@ == batch_command_required_msg()
                },
            },
    {
        match &self.command {
            Option::Some(c) => Ok(c.clone()),
            Option::None => {
                if self.interactive {
                    let mut cmd = String::from_str("srun --pty ");
                    if crate::text::str_eq(self.shell.as_str(), "auto") {
                        cmd.append(user_shell);
                    } else {
                        cmd.append(self.shell.as_str());
                    }
                    cmd.append(" -l");
                    Ok(cmd)
                } else {
                    Err(
                        String::from_str(
                            "Command is required for batch jobs. Use --interactive for interactive sessions.",
                        ),
                    )
                }
            },
        }
    }

    /// Builds the flat argument list for the interactive allocator: the
    /// name, memory and time flags, then the pass-through options, then the
    /// command.
    pub fn build_salloc_args(&self, command: &str) -> (args: Vec<String>)
        ensures
            args@.len() == self.remainder@.len() + 7,
            args@[0]@ == "--job-name"@,
            args@[1]@ == self.name@,
            args@[2]@ == "--mem"@,
            args@[3]@ == self.memory@,
            args@[4]@ == "--time"@,
            args@[5]@ == self.time@,
            forall|i: int|
                0 <= i < self.remainder@.len() ==> #[trigger] args@[6 + i]@ == self.remainder@[i]@,
            args@[args@.len() - 1]@ == command@,
    {
        let mut args: Vec<String> = Vec::new();
        args.push(String::from_str("--job-name"));
        args.push(self.name.clone());
        args.push(String::from_str("--mem"));
        args.push(self.memory.clone());
        args.push(String::from_str("--time"));
        args.push(self.time.clone());
        let mut i: usize = 0;
        while i < self.remainder.len()
            invariant
                0 <= i <= self.remainder@.len(),
                args@.len() == 6 + i,
                args@[0]@ == "--job-name"@,
                args@[1]@ == self.name@,
                args@[2]@ == "--mem"@,
                args@[3]@ == self.memory@,
                args@[4]@ == "--time"@,
                args@[5]@ == self.time@,
                forall|j: int|
                    0 <= j < i ==> #[trigger] args@[6 + j]@ == self.remainder@[j]@,
            decreases self.remainder@.len() - i,
        {
            let item = self.remainder[i].clone();
            args.push(item);
            i = i + 1;
        }
        args.push(String::from_str(command));
        args
    }
}

/// The prefix of the scheduler's schedule-estimate line in its diagnostic
/// output.
pub open spec fn estimate_marker() -> Seq<char> {
    "sbatch: Job"@
}

/// Whether one line of the scheduler's diagnostic output carries the
/// schedule estimate that the test-only mode reports.
pub fn is_estimate_line(line: &str) -> (b: bool)
    ensures
        b == (line@.len() >= estimate_marker().len() && line@.subrange(
            0,
            estimate_marker().len() as int,
        ) == estimate_marker()),
{
    crate::text::str_starts_with(line, "sbatch: Job")
}

} // verus!
