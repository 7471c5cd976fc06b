//! The command line, and what the program does at start.
use vstd::prelude::*;

verus! {

/// The command-line options.
pub struct Args {
    /// Print the JSON schema of the configuration.
    pub schema: bool,
    /// Print a template configuration.
    pub template: bool,
    /// Print the container compose file that runs the controller.
    pub compose: bool,
    /// The path to the configuration file.
    pub config: String,
    /// Run the controller.
    pub run_controller: bool,
}

/// What the program does at start, in this order.
#[derive(Clone, Copy, Debug, PartialEq, Eq, Structural)]
pub struct StartupPlan {
    pub print_schema: bool,
    pub print_template: bool,
    pub print_compose: bool,
    /// Print a hint that the controller runs only when asked to.
    pub print_run_hint: bool,
    pub run_controller: bool,
}

/// Each requested output is printed; the controller runs when asked to; the
/// hint is printed when nothing else is done.
pub open spec fn startup_plan(args: Args) -> StartupPlan {
    StartupPlan {
        print_schema: args.schema,
        print_template: args.template,
        print_compose: args.compose,
        print_run_hint: !args.run_controller && !args.schema && !args.template && !args.compose,
        run_controller: args.run_controller,
    }
}

/// Decides what the program does at start.
pub fn plan_startup(args: &Args) -> (r: StartupPlan)
    ensures
        r == startup_plan(*args),
{
    let printed = args.schema || args.template || args.compose;
    StartupPlan {
        print_schema: args.schema,
        print_template: args.template,
        print_compose: args.compose,
        print_run_hint: !args.run_controller && !printed,
        run_controller: args.run_controller,
    }
}

/// The program always does something: it prints an output, runs the
/// controller, or prints the hint.
pub proof fn lemma_startup_does_something(args: Args)
    ensures
        ({
            let p = startup_plan(args);
            p.print_schema || p.print_template || p.print_compose || p.print_run_hint
                || p.run_controller
        }),
{
}

/// Each output is printed exactly when it is asked for, the controller runs
/// exactly when asked to, and the hint is printed exactly when nothing else is
/// done.
pub proof fn lemma_hint_only_when_idle(args: Args)
    ensures
        startup_plan(args).print_schema == args.schema,
        startup_plan(args).print_template == args.template,
        startup_plan(args).print_compose == args.compose,
        startup_plan(args).run_controller == args.run_controller,
        startup_plan(args).print_run_hint <==> !(startup_plan(args).print_schema
            || startup_plan(args).print_template || startup_plan(args).print_compose
            || startup_plan(args).run_controller),
{
}

} // verus!
