use vstd::prelude::*;
use crate::egraph::{EGraph, StateView, RulesetView, push_post, pop_post, declare_ok, declare_post};
use crate::egraph::check::{check_ok, check_post, facts_view};
use crate::egraph::load::{input_ok, input_post};
use crate::egraph::print::print_size_post;
use crate::egraph::rulesets::{with_ruleset, add_rule_ok, add_rule_spec};
use crate::atoms::{CoreAction, CoreCall, CoreFact, CoreRule, terms_view};
use crate::egraph::action::{set_ok, set_post};
use crate::error::{Error, TypeError};
use crate::span::Span;
use crate::names::{entry_pos, entry_value};
use crate::output::CommandOutput;
use crate::sorts::FunctionDecl;
use crate::values::BaseValues;

verus! {

/// A command, resolved and desugared, with where it was written (a
/// declaration or a rule carries its own).
#[derive(Debug)]
pub enum ResolvedNCommand {
    /// Declares a sort; sorts are declared when commands are resolved.
    Sort(Span, String),
    /// Declares a function.
    Function(FunctionDecl),
    /// Adds an empty ruleset.
    AddRuleset(Span, String),
    /// Adds a ruleset that runs other rulesets.
    UnstableCombinedRuleset(Span, String, Vec<String>),
    /// Adds a rule.
    NormRule(CoreRule),
    /// Prints the overall statistics, or writes them to the named file.
    PrintOverallStatistics(Span, Option<String>),
    /// Checks facts.
    Check(Span, Vec<CoreFact>),
    /// Pushes snapshots.
    Push(usize),
    /// Pops snapshots.
    Pop(Span, usize),
    /// Prints the size of a function, or of all functions.
    PrintSize(Span, Option<String>),
    /// Runs a command that is expected to fail.
    Fail(Span, Box<ResolvedNCommand>),
    /// Runs an action at the top level. Setting the output of a function
    /// for keys given by literals is supported; the other actions run as
    /// rules on a backend engine, which this library does not have.
    CoreAction(Span, CoreAction),
    /// Loads the contents of an input file into a function.
    Input { span: Span, name: String, file: String, contents: String },
}

/// The state and snapshots after popping `n` snapshots one at a time, and
/// whether there were enough; each pop keeps the run report.
pub open spec fn pop_n(v: StateView, p: Seq<StateView>, n: nat) -> (StateView, Seq<StateView>, bool)
    decreases n,
{
    if n == 0 {
        (v, p, true)
    } else {
        let (v1, p1, ok) = pop_n(v, p, (n - 1) as nat);
        if !ok || p1.len() == 0 {
            (v1, p1, false)
        } else {
            (StateView { report: v1.report, ..p1.last() }, p1.drop_last(), true)
        }
    }
}

/// The command meets the conditions of the operation it runs.
pub open spec fn command_ok(v: StateView, c: ResolvedNCommand) -> bool
    decreases c,
{
    match c {
        ResolvedNCommand::Function(decl) => declare_ok(v, decl@),
        ResolvedNCommand::AddRuleset(_, name) => entry_pos(v.ruleset_names, name@) is None,
        ResolvedNCommand::UnstableCombinedRuleset(_, name, subs) => entry_pos(v.ruleset_names, name@) is None
            && forall|k: int| 0 <= k < subs@.len() ==> entry_pos(v.ruleset_names, #[trigger] subs@[k]@) is Some,
        ResolvedNCommand::NormRule(rule) => add_rule_ok(v, rule.name@, rule.ruleset@, rule.query@, rule.actions@),
        ResolvedNCommand::Check(_, facts) => check_ok(v, facts_view(facts@)),
        ResolvedNCommand::Fail(_, inner) => command_ok(v, *inner),
        ResolvedNCommand::CoreAction(_, action) => match action {
            CoreAction::SetOutput(CoreCall::Func(f), xs, y) => set_ok(v, f@, terms_view(xs@), y@),
            _ => false,
        },
        ResolvedNCommand::Input { span, name, file, contents } => input_ok(v, name@, contents@),
        _ => true,
    }
}

/// The outcome of an operation that gives no output.
pub open spec fn unit_outcome(r: Result<Option<CommandOutput>, Error>) -> Result<(), Error> {
    match r {
        Ok(_) => Ok(()),
        Err(e) => Err(e),
    }
}

/// The outcome of printing sizes, which always gives an output.
pub open spec fn output_outcome(r: Result<Option<CommandOutput>, Error>) -> Result<CommandOutput, Error> {
    match r {
        Ok(Some(o)) => Ok(o),
        Ok(None) => Err(Error::ExpectFail(Span::Panic)),
        Err(e) => Err(e),
    }
}

/// The outcome of adding a rule, which gives the rule's name.
pub open spec fn rule_outcome(r: Result<Option<CommandOutput>, Error>, name: String) -> Result<String, Error> {
    match r {
        Ok(_) => Ok(name),
        Err(e) => Err(e),
    }
}

/// Names the outcome of the command that `Fail` runs.
pub open spec fn inner_outcome(r: Result<Option<CommandOutput>, Error>) -> bool {
    true
}

/// What running a command does, as the operation it runs does it: a sort
/// declaration does nothing; the statistics are printed as output, or left
/// to be written to a file; `Fail` succeeds exactly when its command
/// fails; `Pop` stops at the first pop that finds no snapshot.
pub open spec fn command_post(
    v0: StateView,
    p0: Seq<StateView>,
    bv0: BaseValues,
    c: ResolvedNCommand,
    v1: StateView,
    p1: Seq<StateView>,
    bv1: BaseValues,
    r: Result<Option<CommandOutput>, Error>,
) -> bool
    decreases c,
{
    match c {
        ResolvedNCommand::Sort(_, _) => v1 == v0 && p1 == p0 && r == Ok::<Option<CommandOutput>, Error>(None),
        ResolvedNCommand::Function(decl) => p1 == p0 && declare_post(v0, bv0, decl@, v1, bv1, unit_outcome(r))
            && (r is Ok ==> r == Ok::<Option<CommandOutput>, Error>(None)),
        ResolvedNCommand::AddRuleset(_, name) => p1 == p0 && v1 == with_ruleset(v0, name@, RulesetView::Rules(Seq::empty()))
            && r == Ok::<Option<CommandOutput>, Error>(None),
        ResolvedNCommand::UnstableCombinedRuleset(_, name, subs) => p1 == p0
            && v1 == with_ruleset(v0, name@, RulesetView::Combined(subs@.map_values(|s: String| s@)))
            && r == Ok::<Option<CommandOutput>, Error>(None),
        ResolvedNCommand::NormRule(rule) => p1 == p0
            && add_rule_spec(v0, rule.name@, rule.ruleset@, rule.query@, rule.actions@, rule.span, v1, bv1, rule_outcome(r, rule.name))
            && (r is Ok ==> r == Ok::<Option<CommandOutput>, Error>(None)),
        ResolvedNCommand::PrintOverallStatistics(_, file) => v1 == v0 && p1 == p0 && match file {
            None => r == Ok::<Option<CommandOutput>, Error>(Some(CommandOutput::OverallStatistics(v0.report))),
            Some(_) => r == Ok::<Option<CommandOutput>, Error>(None),
        },
        ResolvedNCommand::Check(span, facts) => p1 == p0 && check_post(v0, span, facts_view(facts@), v1, bv1, unit_outcome(r))
            && (r is Ok ==> r == Ok::<Option<CommandOutput>, Error>(None)),
        ResolvedNCommand::Push(n) => v1 == v0 && p1 == p0 + Seq::new(n as nat, |i: int| v0)
            && r == Ok::<Option<CommandOutput>, Error>(None),
        ResolvedNCommand::Pop(span, n) => {
            let (v, p, ok) = pop_n(v0, p0, n as nat);
            &&& v1 == v
            &&& p1 == p
            &&& if ok { r == Ok::<Option<CommandOutput>, Error>(None) } else { r matches Err(Error::Pop(sp)) && sp == span }
        },
        ResolvedNCommand::PrintSize(span, sym) => v1 == v0 && p1 == p0 && !(r matches Ok(None)) && match sym {
            Some(s) => if entry_value(v0.function_names, s@) is None {
                r matches Err(Error::TypeError(TypeError::UnboundFunction(n, sp))) && n@ == s@ && sp == span
            } else {
                print_size_post(v0, Some(s@), output_outcome(r))
            },
            None => print_size_post(v0, None, output_outcome(r)),
        },
        ResolvedNCommand::Fail(span, inner) => exists|r2: Result<Option<CommandOutput>, Error>| {
            &&& #[trigger] inner_outcome(r2)
            &&& command_post(v0, p0, bv0, *inner, v1, p1, bv1, r2)
            &&& if r2 is Err { r == Ok::<Option<CommandOutput>, Error>(None) } else { r matches Err(Error::ExpectFail(sp)) && sp == span }
        },
        ResolvedNCommand::CoreAction(_, action) => p1 == p0 && r == Ok::<Option<CommandOutput>, Error>(None)
            && match action {
                CoreAction::SetOutput(CoreCall::Func(f), xs, y) => set_post(v0, f@, terms_view(xs@), y@, v1, bv1),
                _ => false,
            },
        ResolvedNCommand::Input { span, name, file, contents } => p1 == p0 && (r is Ok ==> r == Ok::<Option<CommandOutput>, Error>(None))
            && input_post(v0, entry_value(v0.function_names, name@)->0 as int,
                v0.functions[entry_value(v0.function_names, name@)->0 as int], file@, contents@, v1, bv1,
                unit_outcome(r)),
    }
}

impl EGraph {
    /// Runs a command and gives its output, if it has one.
    pub fn run_command(&mut self, command: ResolvedNCommand) -> (r: Result<Option<CommandOutput>, Error>)
        requires
            old(self).wf(),
            command_ok(old(self)@, command),
        ensures
            final(self).wf(),
            command_post(old(self)@, old(self).pushed_views(), old(self).bv(), command, final(self)@,
                final(self).pushed_views(), final(self).bv(), r),
        decreases command,
    {
        let ghost c = command;
        let ghost v0 = old(self)@;
        let ghost p0 = old(self).pushed_views();
        let ghost bv0 = old(self).bv();
        match command {
            ResolvedNCommand::Sort(_, _) => Ok(None),
            ResolvedNCommand::Function(fdecl) => {
                let rr = match self.declare_function(&fdecl) {
                    Ok(()) => Ok(None),
                    Err(e) => Err(e),
                };
                assert(command_post(v0, p0, bv0, c, self@, self.pushed_views(), self.bv(), rr));
                rr
            },
            ResolvedNCommand::AddRuleset(_, name) => {
                self.add_ruleset(name);
                assert(command_post(v0, p0, bv0, c, self@, self.pushed_views(), self.bv(), Ok(None)));
                Ok(None)
            },
            ResolvedNCommand::UnstableCombinedRuleset(_, name, others) => {
                self.add_combined_ruleset(name, others);
                assert(command_post(v0, p0, bv0, c, self@, self.pushed_views(), self.bv(), Ok(None)));
                Ok(None)
            },
            ResolvedNCommand::NormRule(rule) => {
                let rr = match self.add_rule(rule) {
                    Ok(_) => Ok(None),
                    Err(e) => Err(e),
                };
                assert(command_post(v0, p0, bv0, c, self@, self.pushed_views(), self.bv(), rr));
                rr
            },
            ResolvedNCommand::PrintOverallStatistics(_, file) => match file {
                None => Ok(Some(CommandOutput::OverallStatistics(self.state.overall_run_report))),
                Some(_) => Ok(None),
            },
            ResolvedNCommand::Check(span, facts) => {
                let rr = match self.check_facts(&span, &facts) {
                    Ok(()) => Ok(None),
                    Err(e) => Err(e),
                };
                assert(command_post(v0, p0, bv0, c, self@, self.pushed_views(), self.bv(), rr));
                rr
            },
            ResolvedNCommand::Push(n) => {
                let mut i: usize = 0;
                assert(p0 + Seq::new(0, |j: int| v0) =~= p0);
                while i < n
                    invariant
                        0 <= i <= n,
                        self.wf(),
                        self@ == v0,
                        self.bv() == bv0,
                        self.pushed_views() == p0 + Seq::new(i as nat, |j: int| v0),
                    decreases n - i,
                {
                    self.push();
                    assert(self.pushed_views() =~= p0 + Seq::new(i as nat + 1, |j: int| v0));
                    i = i + 1;
                }
                Ok(None)
            },
            ResolvedNCommand::Pop(span, n) => {
                let rr = match self.pop_times(n) {
                    Ok(()) => Ok(None),
                    Err(_) => Err(Error::Pop(span)),
                };
                assert(command_post(v0, p0, bv0, c, self@, self.pushed_views(), self.bv(), rr));
                rr
            },
            ResolvedNCommand::PrintSize(span, f) => {
                let sym = match &f {
                    Some(s) => Some(s.as_str()),
                    None => None,
                };
                let rr = match self.print_size(sym) {
                    Ok(o) => Ok(Some(o)),
                    Err(Error::TypeError(TypeError::UnboundFunction(name, _))) => {
                        Err(Error::TypeError(TypeError::UnboundFunction(name, span)))
                    },
                    Err(e) => Err(e),
                };
                assert(command_post(v0, p0, bv0, c, self@, self.pushed_views(), self.bv(), rr));
                rr
            },
            ResolvedNCommand::Fail(span, inner) => {
                let ghost sp = span;
                let result = self.run_command(*inner);
                let rr: Result<Option<CommandOutput>, Error> = match result {
                    Err(_) => Ok(None),
                    Ok(_) => Err(Error::ExpectFail(span)),
                };
                proof {
                    lemma_fail_post(v0, p0, bv0, sp, *inner, self@, self.pushed_views(), self.bv(), result, rr);
                    assert(c == ResolvedNCommand::Fail(sp, Box::new(*inner)));
                }
                rr
            },
            ResolvedNCommand::CoreAction(_, action) => {
                match action {
                    CoreAction::SetOutput(CoreCall::Func(f), xs, y) => {
                        self.set_ground(f.as_str(), &xs, &y);
                    },
                    _ => {
                        proof { assert(false); }
                    },
                }
                Ok(None)
            },
            ResolvedNCommand::Input { span: _, name, file, contents } => {
                let rr = match self.input_file(name.as_str(), file, contents.as_str()) {
                    Ok(()) => Ok(None),
                    Err(e) => Err(e),
                };
                assert(command_post(v0, p0, bv0, c, self@, self.pushed_views(), self.bv(), rr));
                rr
            },
        }
    }
}

impl EGraph {
    /// Pops `n` snapshots, stopping at the first pop that finds none.
    pub fn pop_times(&mut self, n: usize) -> (r: Result<(), Error>)
        requires
            old(self).wf(),
        ensures
            final(self).wf(),
            ({
                let (v, p, ok) = pop_n(old(self)@, old(self).pushed_views(), n as nat);
                &&& final(self)@ == v
                &&& final(self).pushed_views() == p
                &&& if ok { r is Ok } else { r is Err }
            }),
    {
        let ghost v0 = old(self)@;
        let ghost p0 = old(self).pushed_views();
        let mut i: usize = 0;
        while i < n
            invariant
                0 <= i <= n,
                self.wf(),
                v0 == old(self)@,
                p0 == old(self).pushed_views(),
                pop_n(v0, p0, i as nat) == (self@, self.pushed_views(), true),
            decreases n - i,
        {
            let ghost v_i = self@;
            let ghost p_i = self.pushed_views();
            match self.pop() {
                Ok(()) => {
                    assert(pop_n(v0, p0, i as nat + 1) == (self@, self.pushed_views(), true));
                },
                Err(e) => {
                    proof {
                        assert(p_i.len() == 0);
                        assert(pop_n(v0, p0, i as nat + 1) == (v_i, p_i, false));
                        lemma_pop_n_stop(v0, p0, i as nat + 1, n as nat);
                    }
                    return Err(e);
                },
            }
            i = i + 1;
        }
        Ok(())
    }
}

/// A command run under `Fail` gives what `Fail` promises of its outcome.
proof fn lemma_fail_post(
    v0: StateView,
    p0: Seq<StateView>,
    bv0: BaseValues,
    span: Span,
    inner: ResolvedNCommand,
    v1: StateView,
    p1: Seq<StateView>,
    bv1: BaseValues,
    r2: Result<Option<CommandOutput>, Error>,
    r: Result<Option<CommandOutput>, Error>,
)
    requires
        command_post(v0, p0, bv0, inner, v1, p1, bv1, r2),
        r2 is Err ==> r == Ok::<Option<CommandOutput>, Error>(None),
        r2 is Ok ==> (r matches Err(Error::ExpectFail(sp)) && sp == span),
    ensures
        command_post(v0, p0, bv0, ResolvedNCommand::Fail(span, Box::new(inner)), v1, p1, bv1, r),
{
    assert(inner_outcome(r2));
}

/// Once a pop finds no snapshot, later pops do nothing more.
pub proof fn lemma_pop_n_stop(v: StateView, p: Seq<StateView>, k: nat, n: nat)
    requires
        k <= n,
        !pop_n(v, p, k).2,
    ensures
        pop_n(v, p, n) == pop_n(v, p, k),
    decreases n,
{
    if n > k {
        lemma_pop_n_stop(v, p, k, (n - 1) as nat);
    }
}

} // verus!
