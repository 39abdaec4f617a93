use knob::pipeline::{advance, begin, BuildError, Exit, Next};
use knob::types::Invocation;

fn command(binary: &str) -> Invocation {
    Invocation {
        directory: None,
        binary: binary.to_string(),
        args: Vec::new(),
        echo: false,
        stream: true,
    }
}

#[test]
fn an_empty_plan_is_done_at_once() {
    assert!(matches!(begin(&Vec::new()), Next::Done));
}

#[test]
fn a_plan_begins_with_its_first_command() {
    assert!(matches!(begin(&vec![command("cc"), command("ld")]), Next::Run(0)));
}

#[test]
fn success_leads_to_the_next_command() {
    let plan = vec![command("cc"), command("cc"), command("ld")];
    assert!(matches!(advance(&plan, 0, Exit::Success), Next::Run(1)));
    assert!(matches!(advance(&plan, 1, Exit::Success), Next::Run(2)));
}

#[test]
fn success_of_the_last_command_ends_the_plan() {
    let plan = vec![command("cc"), command("ld")];
    assert!(matches!(advance(&plan, 1, Exit::Success), Next::Done));
    assert!(matches!(advance(&vec![command("ld")], 0, Exit::Success), Next::Done));
}

#[test]
fn failure_ends_the_plan_with_what_the_command_wrote() {
    let plan = vec![command("cc"), command("ld")];
    let exit = Exit::Failure { stderr: "x.c:1: error: no\n".to_string() };
    match advance(&plan, 0, exit) {
        Next::GiveUp(BuildError::ProcessFailure { stderr }) => {
            assert_eq!(stderr, "x.c:1: error: no\n")
        }
        other => panic!("{:?}", other),
    }
}

#[test]
fn a_missing_tool_ends_the_plan_and_is_named() {
    let plan = vec![command("cc"), command("ld")];
    match advance(&plan, 1, Exit::Missing) {
        Next::GiveUp(BuildError::ToolMissing { binary }) => assert_eq!(binary, "ld"),
        other => panic!("{:?}", other),
    }
}
