use climate_controller::startup::{plan_startup, Args};

fn args(schema: bool, template: bool, compose: bool, run_controller: bool) -> Args {
    Args { schema, template, compose, config: String::from("config.yaml"), run_controller }
}

#[test]
fn nothing_requested_prints_hint() {
    let plan = plan_startup(&args(false, false, false, false));
    assert!(plan.print_run_hint);
    assert!(!plan.run_controller);
    assert!(!plan.print_schema && !plan.print_template && !plan.print_compose);
}

#[test]
fn outputs_without_run_print_no_hint() {
    let plan = plan_startup(&args(true, false, true, false));
    assert!(plan.print_schema);
    assert!(!plan.print_template);
    assert!(plan.print_compose);
    assert!(!plan.print_run_hint);
    assert!(!plan.run_controller);
}

#[test]
fn run_with_template() {
    let plan = plan_startup(&args(false, true, false, true));
    assert!(plan.print_template);
    assert!(plan.run_controller);
    assert!(!plan.print_run_hint);
}
