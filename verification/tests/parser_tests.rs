use rsh::parser::{parse, Command, ParseError, SimpleCommand};

fn simple(line: &str) -> SimpleCommand {
    match parse(line) {
        Ok(Command::Simple(c)) => c,
        other => panic!("expected a simple command, got {:?}", other),
    }
}

fn pipeline(line: &str) -> Vec<SimpleCommand> {
    match parse(line) {
        Ok(Command::Pipeline(v)) => v,
        other => panic!("expected a pipeline, got {:?}", other),
    }
}

#[test]
fn simple_command_with_args() {
    let c = simple("ls -al /home");
    assert_eq!(c.program, "ls");
    assert_eq!(c.args, vec!["-al".to_string(), "/home".to_string()]);
    assert_eq!(c.redirect_in, None);
    assert_eq!(c.redirect_out, None);
    assert_eq!(c.append_out, None);
    assert!(!c.background);
}

#[test]
fn surrounding_and_repeated_whitespace() {
    let c = simple("  \t echo   hi\tthere  \n");
    assert_eq!(c.program, "echo");
    assert_eq!(c.args, vec!["hi".to_string(), "there".to_string()]);
}

#[test]
fn pipeline_of_three() {
    let v = pipeline("ls | grep src | wc -l");
    assert_eq!(v.len(), 3);
    assert_eq!(v[0].program, "ls");
    assert!(v[0].args.is_empty());
    assert_eq!(v[1].program, "grep");
    assert_eq!(v[1].args, vec!["src".to_string()]);
    assert_eq!(v[2].program, "wc");
    assert_eq!(v[2].args, vec!["-l".to_string()]);
}

#[test]
fn pipe_without_spaces() {
    let v = pipeline("cat a|sort");
    assert_eq!(v.len(), 2);
    assert_eq!(v[0].program, "cat");
    assert_eq!(v[0].args, vec!["a".to_string()]);
    assert_eq!(v[1].program, "sort");
}

#[test]
fn empty_input() {
    assert_eq!(parse("").unwrap_err(), ParseError::EmptyInput);
    assert_eq!(parse("   \t  ").unwrap_err(), ParseError::EmptyInput);
}

#[test]
fn empty_segments() {
    assert_eq!(parse("ls |").unwrap_err(), ParseError::EmptyCommand);
    assert_eq!(parse("| ls").unwrap_err(), ParseError::EmptyCommand);
    assert_eq!(parse("ls | | wc").unwrap_err(), ParseError::EmptyCommand);
    assert_eq!(parse("|").unwrap_err(), ParseError::EmptyCommand);
}

#[test]
fn empty_segment_is_reported_before_a_missing_file_name() {
    assert_eq!(parse("ls > | |").unwrap_err(), ParseError::EmptyCommand);
}

#[test]
fn output_redirection() {
    let c = simple("echo hi > out.txt");
    assert_eq!(c.program, "echo");
    assert_eq!(c.args, vec!["hi".to_string()]);
    assert_eq!(c.redirect_out, Some("out.txt".to_string()));
    assert_eq!(c.append_out, None);
}

#[test]
fn input_and_append_redirection() {
    let c = simple("sort < in.txt >> out.txt");
    assert_eq!(c.program, "sort");
    assert!(c.args.is_empty());
    assert_eq!(c.redirect_in, Some("in.txt".to_string()));
    assert_eq!(c.append_out, Some("out.txt".to_string()));
    assert_eq!(c.redirect_out, None);
}

#[test]
fn redirection_before_program() {
    let c = simple("> out.txt echo hi");
    assert_eq!(c.program, "echo");
    assert_eq!(c.args, vec!["hi".to_string()]);
    assert_eq!(c.redirect_out, Some("out.txt".to_string()));
}

#[test]
fn later_redirection_of_same_kind_wins() {
    let c = simple("echo a > one > two");
    assert_eq!(c.redirect_out, Some("two".to_string()));
}

#[test]
fn missing_redirect_target() {
    assert_eq!(parse("echo hi >").unwrap_err(), ParseError::MissingRedirectTarget);
    assert_eq!(parse("cat <").unwrap_err(), ParseError::MissingRedirectTarget);
    assert_eq!(parse("ls >> &").unwrap_err(), ParseError::MissingRedirectTarget);
    assert_eq!(parse("ls > | wc").unwrap_err(), ParseError::MissingRedirectTarget);
}

#[test]
fn redirection_without_program() {
    assert_eq!(parse("> out.txt").unwrap_err(), ParseError::EmptyCommand);
    assert_eq!(parse("&").unwrap_err(), ParseError::EmptyCommand);
}

#[test]
fn background_command() {
    let c = simple("sleep 3 &");
    assert_eq!(c.program, "sleep");
    assert_eq!(c.args, vec!["3".to_string()]);
    assert!(c.background);
}

#[test]
fn ampersand_inside_is_an_argument() {
    let c = simple("echo & x");
    assert_eq!(c.args, vec!["&".to_string(), "x".to_string()]);
    assert!(!c.background);
}

#[test]
fn background_pipeline() {
    let v = pipeline("yes | head -n 1 > f &");
    assert_eq!(v.len(), 2);
    assert!(!v[0].background);
    assert!(v[1].background);
    assert_eq!(v[1].program, "head");
    assert_eq!(v[1].args, vec!["-n".to_string(), "1".to_string()]);
    assert_eq!(v[1].redirect_out, Some("f".to_string()));
}

#[test]
fn operators_glued_to_words_are_words() {
    let c = simple("echo >x 2>&1");
    assert_eq!(c.args, vec![">x".to_string(), "2>&1".to_string()]);
    assert_eq!(c.redirect_out, None);
}

#[test]
fn unicode_whitespace_separates_words() {
    let c = simple("echo\u{3000}a\u{a0}b");
    assert_eq!(c.args, vec!["a".to_string(), "b".to_string()]);
}

#[test]
fn error_messages() {
    assert_eq!(ParseError::EmptyInput.message(), "no input provided");
    assert_eq!(ParseError::EmptyCommand.message(), "command segment is empty");
    assert_eq!(ParseError::MissingRedirectTarget.message(), "missing file name after redirection");
}

fn describe(line: &str) -> String {
    format!("{:?}", parse(line))
}

#[test]
fn only_the_words_of_each_segment_matter() {
    assert_eq!(describe("ls|wc  -l"), describe("  ls |\twc -l "));
    assert_eq!(describe("a > f|b &"), describe("a  >  f | b\t& "));
    assert_eq!(describe("x | "), describe("x |\t\t"));
}
