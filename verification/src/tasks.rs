//! Developer tasks: toolchain setup, release build, and lint, as the commands
//! that they run.

#[allow(unused_imports)]
use crate::text::{joined, law_texts, signed_decimal, texts};
use crate::text::{join, push_signed_decimal};
use vstd::prelude::*;
use vstd::string::StringExecFns;

verus! {

/// A developer task.
#[derive(Clone, Copy, Debug, PartialEq, Eq)]
pub enum Task {
    /// Install the nightly toolchain, rust-src, and bpf-linker.
    Setup,
    /// Build the loader and eBPF object in release mode.
    Build,
    /// Run clippy across all targets.
    Check,
}

/// A program to run, with its arguments.
#[derive(Debug, PartialEq, Eq)]
pub struct Invocation {
    pub program: String,
    pub args: Vec<String>,
}

/// What each string of a list holds.
pub open spec fn strs(list: Seq<&str>) -> Seq<Seq<char>> {
    list.map_values(|s: &str| s@)
}

impl Invocation {
    /// This is `program` with `args`.
    pub open spec fn runs(self, program: Seq<char>, args: Seq<Seq<char>>) -> bool {
        self.program@ == program && texts(self.args@) == args
    }

    fn new(program: &str, args: &[&str]) -> (r: Self)
        ensures
            r.runs(program@, strs(args@)),
    {
        let mut list: Vec<String> = Vec::new();
        let mut i: usize = 0;
        while i < args.len()
            invariant
                i <= args@.len(),
                list@.len() == i,
                forall|k: int| 0 <= k < i ==> (#[trigger] list@[k])@ == args@[k]@,
            decreases args.len() - i,
        {
            list.push(String::from_str(args[i]));
            i = i + 1;
        }
        assert(texts(list@) =~= strs(args@));
        Invocation { program: String::from_str(program), args: list }
    }

    /// The line that announces the command.
    pub fn echo(&self) -> (r: String)
        ensures
            r@ == "[xtask] $ "@ + self.program@ + " "@ + joined(texts(self.args@), " "@),
    {
        let mut line = String::new();
        line.append("[xtask] $ ");
        line.append(self.program.as_str());
        line.append(" ");
        line.append(join(&self.args, " ").as_str());
        assert(line@ =~= "[xtask] $ "@ + self.program@ + " "@ + joined(texts(self.args@), " "@));
        line
    }

    /// The message to fail with where the command could not be started.
    pub fn spawn_failure(&self) -> (r: String)
        ensures
            r@ == "failed to spawn `"@ + self.program@ + "`"@,
    {
        let mut message = String::new();
        message.append("failed to spawn `");
        message.append(self.program.as_str());
        message.append("`");
        assert(message@ =~= "failed to spawn `"@ + self.program@ + "`"@);
        message
    }

    /// What the end of the command means: nothing where it succeeded, and else
    /// the message to fail with. `code` is the exit status, if there is one.
    pub fn outcome(&self, success: bool, code: Option<i32>) -> (r: Result<(), String>)
        ensures
            r is Ok <==> success,
            r matches Err(message) ==> message@ == match code {
                Some(code) => "`"@ + self.program@ + "` exited with status "@ + signed_decimal(
                    code as int,
                ),
                None => "`"@ + self.program@ + "` was terminated by a signal"@,
            },
    {
        if success {
            return Ok(());
        }
        let mut message = String::new();
        message.append("`");
        message.append(self.program.as_str());
        match code {
            Some(code) => {
                message.append("` exited with status ");
                push_signed_decimal(&mut message, code);
                assert(message@ =~= "`"@ + self.program@ + "` exited with status "@
                    + signed_decimal(code as int));
            },
            None => {
                message.append("` was terminated by a signal");
                assert(message@ =~= "`"@ + self.program@ + "` was terminated by a signal"@);
            },
        }
        Err(message)
    }
}

/// An invocation runs the program that it names, with as many arguments as are
/// given, each of them the same and in the same place.
pub proof fn law_runs(invocation: Invocation, program: Seq<char>, args: Seq<Seq<char>>)
    ensures
        invocation.runs(program, args) <==> {
            &&& invocation.program@ == program
            &&& invocation.args@.len() == args.len()
            &&& forall|k: int|
                0 <= k < args.len() ==> (#[trigger] invocation.args@[k])@ == args[k]
        },
{
    law_texts(invocation.args@);
    if invocation.runs(program, args) {
        assert forall|k: int| 0 <= k < args.len() implies (#[trigger] invocation.args@[k])@
            == args[k] by {
            assert(texts(invocation.args@)[k] == args[k]);
        }
    } else if invocation.args@.len() == args.len() && forall|k: int|
        0 <= k < args.len() ==> (#[trigger] invocation.args@[k])@ == args[k] {
        assert(texts(invocation.args@) =~= args);
    }
}

/// The texts of a list are the texts of its strings, in the same order.
pub proof fn law_strs(list: Seq<&str>)
    ensures
        strs(list).len() == list.len(),
        forall|k: int| 0 <= k < list.len() ==> #[trigger] strs(list)[k] == list[k]@,
{
}

/// The commands of the toolchain setup.
pub fn setup() -> (r: Vec<Invocation>)
    ensures
        r@.len() == 2,
        r@[0].runs(
            "rustup"@,
            seq!["toolchain"@, "install"@, "nightly"@, "--component"@, "rust-src"@],
        ),
        r@[1].runs("cargo"@, seq!["install"@, "bpf-linker"@]),
{
    let rustup: [&str; 5] = ["toolchain", "install", "nightly", "--component", "rust-src"];
    let cargo: [&str; 2] = ["install", "bpf-linker"];
    proof {
        assert(strs(rustup@) =~= seq![
            "toolchain"@,
            "install"@,
            "nightly"@,
            "--component"@,
            "rust-src"@,
        ]);
        assert(strs(cargo@) =~= seq!["install"@, "bpf-linker"@]);
    }
    let mut r: Vec<Invocation> = Vec::new();
    r.push(Invocation::new("rustup", &rustup));
    r.push(Invocation::new("cargo", &cargo));
    r
}

/// The cargo subcommand `cmd` with `args`.
pub fn run_cargo(cmd: &str, args: &[&str]) -> (r: Invocation)
    ensures
        r.runs("cargo"@, seq![cmd@] + strs(args@)),
        r.program@ == "cargo"@,
        r.args@.len() == args@.len() + 1,
        r.args@[0]@ == cmd@,
        forall|k: int|
            #![trigger args@[k]]
            0 <= k < args@.len() ==> r.args@[k + 1]@ == args@[k]@,
{
    let mut all_args: Vec<&str> = Vec::new();
    all_args.push(cmd);
    let mut i: usize = 0;
    while i < args.len()
        invariant
            i <= args@.len(),
            all_args@ == seq![cmd] + args@.take(i as int),
        decreases args.len() - i,
    {
        all_args.push(args[i]);
        assert(all_args@ =~= seq![cmd] + args@.take(i + 1));
        i = i + 1;
    }
    assert(strs(all_args@) =~= seq![cmd@] + strs(args@));
    let r = Invocation::new("cargo", all_args.as_slice());
    proof {
        law_runs(r, "cargo"@, seq![cmd@] + strs(args@));
        assert forall|k: int| #![trigger args@[k]] 0 <= k < args@.len() implies r.args@[k + 1]@
            == args@[k]@ by {
            assert(strs(args@)[k] == (seq![cmd@] + strs(args@))[k + 1]);
        }
    }
    r
}

/// The commands of a task, to be run in order until one fails.
pub fn commands(task: Task) -> (r: Vec<Invocation>)
    ensures
        task is Setup ==> {
            &&& r@.len() == 2
            &&& r@[0].runs(
                "rustup"@,
                seq!["toolchain"@, "install"@, "nightly"@, "--component"@, "rust-src"@],
            )
            &&& r@[1].runs("cargo"@, seq!["install"@, "bpf-linker"@])
        },
        task is Build ==> r@.len() == 1 && r@[0].runs(
            "cargo"@,
            seq!["build"@, "--release"@, "-p"@, "pshred-router"@],
        ),
        task is Check ==> r@.len() == 1 && r@[0].runs(
            "cargo"@,
            seq!["clippy"@, "--all-targets"@],
        ),
{
    let mut r: Vec<Invocation> = Vec::new();
    match task {
        Task::Setup => {
            return setup();
        },
        Task::Build => {
            let args: [&str; 3] = ["--release", "-p", "pshred-router"];
            r.push(run_cargo("build", &args));
            assert(seq!["build"@] + strs(args@) =~= seq![
                "build"@,
                "--release"@,
                "-p"@,
                "pshred-router"@,
            ]);
        },
        Task::Check => {
            let args: [&str; 1] = ["--all-targets"];
            r.push(run_cargo("clippy", &args));
            assert(seq!["clippy"@] + strs(args@) =~= seq!["clippy"@, "--all-targets"@]);
        },
    }
    r
}

/// What the task runner does next.
#[derive(Debug, PartialEq, Eq)]
pub enum TaskStep {
    /// Run the command at this index.
    Run(usize),
    /// End: every command has succeeded.
    Done,
    /// End with this message.
    Fail(String),
}

/// When the task runner takes which step: a failure ends the task with its
/// message, and else the next command is run until none is left.
pub open spec fn task_follows(n: int, done: int, last: Result<(), String>, step: TaskStep) -> bool {
    &&& last matches Err(message) ==> step == TaskStep::Fail(message)
    &&& last is Ok && done < n ==> step == TaskStep::Run(done as usize)
    &&& last is Ok && done >= n ==> step is Done
}

/// The next step of a task of `n` commands, of which `done` have been run, the
/// last one with the result `last`.
pub fn task_step(n: usize, done: usize, last: Result<(), String>) -> (r: TaskStep)
    ensures
        task_follows(n as int, done as int, last, r),
        last matches Err(message) ==> r == TaskStep::Fail(message),
        last is Ok && done < n ==> r == TaskStep::Run(done),
        last is Ok && done >= n ==> r is Done,
{
    match last {
        Err(message) => TaskStep::Fail(message),
        Ok(()) => if done < n {
            TaskStep::Run(done)
        } else {
            TaskStep::Done
        },
    }
}

/// The course of a task of `n` commands: its steps, and for each command that
/// was run what came of it. The first step follows on nothing run yet.
pub open spec fn is_task_run(
    n: int,
    steps: Seq<TaskStep>,
    results: Seq<Result<(), String>>,
) -> bool {
    &&& steps.len() == results.len() + 1
    &&& task_follows(n, 0, Ok(()), steps[0])
    &&& forall|k: int|
        #![trigger results[k]]
        0 <= k < results.len() ==> {
            &&& steps[k] is Run
            &&& task_follows(n, steps[k]->Run_0 + 1, results[k], steps[k + 1])
        }
}

proof fn lemma_task_prefix(
    n: int,
    steps: Seq<TaskStep>,
    results: Seq<Result<(), String>>,
    k: int,
)
    requires
        0 <= n <= usize::MAX,
        is_task_run(n, steps, results),
        0 <= k < results.len(),
    ensures
        steps[k] == TaskStep::Run(k as usize),
        k < n,
        forall|i: int| 0 <= i < k ==> (#[trigger] results[i]) is Ok,
    decreases k,
{
    let r = results[k];
    if k > 0 {
        lemma_task_prefix(n, steps, results, k - 1);
        let earlier = results[k - 1];
        assert(task_follows(n, k, earlier, steps[k]));
    }
}

/// A task runs its commands in order, each at most once, and each only after
/// all before it have succeeded. It ends well if and only if every command has
/// been run and has succeeded, and it fails if and only if the last command
/// that was run has failed, with that command's message.
pub proof fn law_task_runs_in_order_until_one_fails(
    n: int,
    steps: Seq<TaskStep>,
    results: Seq<Result<(), String>>,
)
    requires
        0 <= n <= usize::MAX,
        is_task_run(n, steps, results),
    ensures
        results.len() <= n,
        forall|k: int|
            0 <= k < results.len() ==> (#[trigger] steps[k]) == TaskStep::Run(k as usize),
        forall|i: int| 0 <= i < results.len() - 1 ==> (#[trigger] results[i]) is Ok,
        steps.last() is Done <==> results.len() == n && forall|i: int|
            0 <= i < results.len() ==> (#[trigger] results[i]) is Ok,
        steps.last() is Fail <==> results.len() > 0 && results.last() is Err,
        forall|message: String|
            results.len() > 0 && results.last() == Err::<(), String>(message) ==> steps.last()
                == TaskStep::Fail(message),
{
    assert forall|k: int| 0 <= k < results.len() implies (#[trigger] steps[k]) == TaskStep::Run(
        k as usize,
    ) by {
        lemma_task_prefix(n, steps, results, k);
    }
    if results.len() > 0 {
        let k = results.len() - 1;
        lemma_task_prefix(n, steps, results, k);
        let r = results[k];
        assert(task_follows(n, k + 1, r, steps[k + 1]));
    }
}

/// The setup task: rustup runs first. Where it fails, cargo is not run and the
/// task fails with rustup's message; where it succeeds and the task has ended,
/// cargo has been run once and its result is the task's. The task ends well if
/// and only if both have succeeded.
pub proof fn law_setup_needs_both(
    steps: Seq<TaskStep>,
    results: Seq<Result<(), String>>,
)
    requires
        is_task_run(2, steps, results),
        steps.last() !is Run,
    ensures
        steps[0] == TaskStep::Run(0),
        results.len() >= 1,
        results[0] matches Err(message) ==> steps == seq![
            TaskStep::Run(0),
            TaskStep::Fail(message),
        ],
        results[0] is Ok ==> results.len() == 2 && steps[1] == TaskStep::Run(1),
        results[0] is Ok ==> (results[1] matches Err(message) ==> steps[2] == TaskStep::Fail(
            message,
        )),
        steps.last() is Done <==> results.len() == 2 && results[0] is Ok && results[1] is Ok,
{
    law_task_runs_in_order_until_one_fails(2, steps, results);
    if results.len() > 0 {
        let first = results[0];
        assert(task_follows(2, 1, first, steps[1]));
        if let Err(message) = first {
            assert(steps =~= seq![TaskStep::Run(0), TaskStep::Fail(message)]);
        }
    }
    if results.len() > 1 {
        let second = results[1];
        assert(task_follows(2, 2, second, steps[2]));
    }
}

} // verus!
