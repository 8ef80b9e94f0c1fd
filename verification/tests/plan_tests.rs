use rsh::builtins::ExecMode;
use rsh::parser::{parse, Command, SimpleCommand};
use rsh::plan::{
    pipeline_background, simple_input, simple_outputs, stage_input, stage_output, InputSource,
    OutputTarget,
};

fn commands(line: &str) -> Vec<SimpleCommand> {
    match parse(line).unwrap() {
        Command::Simple(c) => vec![c],
        Command::Pipeline(v) => v,
    }
}

#[test]
fn process_mode_chain() {
    let v = commands("cat < in | sort | uniq > out");
    assert!(matches!(stage_input(&v, 0, ExecMode::Process), InputSource::File(f) if f == "in"));
    assert!(matches!(stage_input(&v, 1, ExecMode::Process), InputSource::PreviousStage));
    assert!(matches!(stage_input(&v, 2, ExecMode::Process), InputSource::PreviousStage));
    assert!(matches!(stage_output(&v, 0), OutputTarget::NextStage));
    assert!(matches!(stage_output(&v, 1), OutputTarget::NextStage));
    assert!(matches!(stage_output(&v, 2), OutputTarget::Truncate(f) if f == "out"));
}

#[test]
fn input_file_of_later_stage() {
    let v = commands("ls | sort < in");
    assert!(matches!(stage_input(&v, 1, ExecMode::Process), InputSource::PreviousStage));
    assert!(matches!(stage_input(&v, 1, ExecMode::Thread), InputSource::File(f) if f == "in"));
    assert!(matches!(stage_input(&v, 0, ExecMode::Thread), InputSource::Inherit));
    assert!(matches!(stage_input(&v, 0, ExecMode::Process), InputSource::Inherit));
}

#[test]
fn last_stage_output_choices() {
    let v = commands("ls | wc >> log > out");
    assert!(matches!(stage_output(&v, 1), OutputTarget::Truncate(f) if f == "out"));
    let v = commands("ls | wc >> log");
    assert!(matches!(stage_output(&v, 1), OutputTarget::Append(f) if f == "log"));
    let v = commands("ls | wc &");
    assert!(pipeline_background(&v));
    assert!(matches!(stage_output(&v, 1), OutputTarget::Null));
    let v = commands("ls | wc");
    assert!(!pipeline_background(&v));
    assert!(matches!(stage_output(&v, 1), OutputTarget::Inherit));
}

#[test]
fn background_of_empty_pipeline() {
    assert!(!pipeline_background(&Vec::new()));
}

#[test]
fn simple_command_files() {
    let c = &commands("sort < in >> log > out")[0];
    assert!(matches!(simple_input(c), InputSource::File(f) if f == "in"));
    let outs = simple_outputs(c);
    assert_eq!(outs.len(), 2);
    assert!(matches!(&outs[0], OutputTarget::Truncate(f) if f == "out"));
    assert!(matches!(&outs[1], OutputTarget::Append(f) if f == "log"));
    let c = &commands("ls")[0];
    assert!(matches!(simple_input(c), InputSource::Inherit));
    assert!(simple_outputs(c).is_empty());
}
