use docsail::command::{parse_command, Command};

fn arguments(values: &[&str]) -> Vec<String> {
    values.iter().map(|value| value.to_string()).collect()
}

#[test]
fn accepts_no_path() {
    assert_eq!(
        parse_command(&arguments(&["docsail"])),
        Ok(Command::Run { path: None })
    );
}

#[test]
fn accepts_one_path() {
    assert_eq!(
        parse_command(&arguments(&["docsail", "docs"])),
        Ok(Command::Run {
            path: Some("docs".to_owned())
        })
    );
}

#[test]
fn accepts_help() {
    assert_eq!(
        parse_command(&arguments(&["docsail", "--help"])),
        Ok(Command::Help)
    );
}

#[test]
fn rejects_multiple_paths() {
    assert_eq!(
        parse_command(&arguments(&["docsail", "docs", "notes"])),
        Err("expected at most one path argument".to_owned())
    );
}

#[test]
fn refuses_a_path_after_help() {
    assert_eq!(
        parse_command(&arguments(&["docsail", "-h", "docs"])),
        Err("help option does not accept a path".to_owned())
    );
    assert_eq!(parse_command(&arguments(&["docsail", "-h"])), Ok(Command::Help));
    assert_eq!(parse_command(&Vec::new()), Ok(Command::Run { path: None }));
}
