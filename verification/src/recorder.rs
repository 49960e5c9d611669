//! The record of the commands that were run.
use vstd::prelude::*;

use crate::command::{runnable_command, CommandOutput, CommandRunner};
use crate::model::CommandView;
use crate::text::texts;

verus! {

/// A command that was run, and what came back.
pub struct Call {
    pub command: CommandView,
    pub reply: Result<CommandOutput, String>,
}

/// A runner together with the record of every command that it was handed. Nobody else can reach
/// the runner, so nothing is run beside the record.
pub struct Recorder<R> {
    runner: R,
    log: Ghost<Seq<Call>>,
}

impl<R: CommandRunner> Recorder<R> {
    /// The runner.
    pub closed spec fn inner(&self) -> R {
        self.runner
    }

    /// The commands that were run, in their order, each with its reply.
    pub closed spec fn calls(&self) -> Seq<Call> {
        self.log@
    }

    /// The runner takes these commands.
    pub open spec fn accepts_all(&self, commands: Seq<CommandView>) -> bool {
        forall|i: int| 0 <= i < commands.len() ==> self.inner().accepts(#[trigger] commands[i])
    }

    pub fn new(runner: R) -> (r: Self)
        ensures
            r.inner() == runner,
            r.calls() == Seq::<Call>::empty(),
    {
        Recorder { runner, log: Ghost(Seq::empty()) }
    }

    /// Runs the command and records it with its reply.
    pub fn run(&mut self, program: &str, args: &[String], requires_root: bool) -> (r: Result<
        CommandOutput,
        String,
    >)
        requires
            runnable_command(program@, texts(args@), requires_root),
            old(self).inner().accepts(
                CommandView { program: program@, args: texts(args@), requires_root },
            ),
        ensures
            final(self).inner() == old(self).inner(),
            final(self).calls() == old(self).calls().push(
                Call {
                    command: CommandView { program: program@, args: texts(args@), requires_root },
                    reply: r,
                },
            ),
            call_ensures(R::run, (&old(self).inner(), program, args, requires_root), r),
    {
        let reply = self.runner.run(program, args, requires_root);
        proof {
            let command = CommandView { program: program@, args: texts(args@), requires_root };
            self.log@ = self.log@.push(Call { command, reply });
        }
        reply
    }
}

/// The calls in `after` that were not made `before`.
pub open spec fn made(before: Seq<Call>, after: Seq<Call>) -> Seq<Call> {
    after.skip(before.len() as int)
}

/// The calls in `after` begin with those made `before`.
pub open spec fn continues(before: Seq<Call>, after: Seq<Call>) -> bool {
    after == before + made(before, after)
}

/// The commands of some calls.
pub open spec fn commands_of(calls: Seq<Call>) -> Seq<CommandView> {
    calls.map_values(|call: Call| call.command)
}

/// Two stretches of calls, one after the other.
pub proof fn lemma_made_twice(first: Seq<Call>, second: Seq<Call>, third: Seq<Call>)
    requires
        continues(first, second),
        continues(second, third),
    ensures
        continues(first, third),
        made(first, third) == made(first, second) + made(second, third),
{
    assert(made(first, third) =~= made(first, second) + made(second, third));
    assert(third =~= first + made(first, third));
}

/// No call was made.
pub proof fn lemma_nothing_made(calls: Seq<Call>)
    ensures
        continues(calls, calls),
        made(calls, calls) == Seq::<Call>::empty(),
{
    assert(made(calls, calls) =~= Seq::<Call>::empty());
    assert(calls =~= calls + made(calls, calls));
}

/// One call was made.
pub proof fn lemma_one_made(calls: Seq<Call>, call: Call)
    ensures
        continues(calls, calls.push(call)),
        made(calls, calls.push(call)) == seq![call],
{
    assert(made(calls, calls.push(call)) =~= seq![call]);
    assert(calls.push(call) =~= calls + seq![call]);
}

} // verus!
