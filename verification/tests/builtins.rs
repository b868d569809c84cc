use rsh::builtin::{alias, builtin_cmd, export, variable, AliasRequest, Assignment, Builtin, DefineError};
use rsh::store::{Aliases, Variables};
use rsh::token::{parseline, Token};

fn tokens(line: &str) -> Vec<Token> {
    parseline(line).unwrap().1
}

#[test]
fn commands_of_the_shell_are_recognised() {
    assert_eq!(builtin_cmd(&tokens("\n")), Builtin::Nothing);
    assert_eq!(builtin_cmd(&tokens("quit\n")), Builtin::Quit);
    assert_eq!(builtin_cmd(&tokens("exit now\n")), Builtin::Quit);
    assert_eq!(builtin_cmd(&tokens("jobs\n")), Builtin::Jobs);
    assert_eq!(builtin_cmd(&tokens("fg %1\n")), Builtin::Fg);
    assert_eq!(builtin_cmd(&tokens("bg 12\n")), Builtin::Bg);
    assert_eq!(builtin_cmd(&tokens("cd /tmp\n")), Builtin::Cd);
    assert_eq!(builtin_cmd(&tokens("alias\n")), Builtin::Alias);
    assert_eq!(builtin_cmd(&tokens("export A = b\n")), Builtin::Export);
    assert_eq!(builtin_cmd(&tokens("vars\n")), Builtin::Vars);
    assert_eq!(builtin_cmd(&tokens("X = 1\n")), Builtin::Assign);
    assert_eq!(builtin_cmd(&tokens("X=1\n")), Builtin::Assign);
}

#[test]
fn other_lines_are_external() {
    assert_eq!(builtin_cmd(&tokens("ls -l\n")), Builtin::External);
    assert_eq!(builtin_cmd(&tokens("'jobs'\n")), Builtin::External);
    assert_eq!(builtin_cmd(&tokens("X = 1 env\n")), Builtin::External);
    assert_eq!(builtin_cmd(&tokens("| jobs\n")), Builtin::External);
    assert_eq!(builtin_cmd(&tokens("jobsx\n")), Builtin::External);
    assert_eq!(builtin_cmd(&tokens("a = |\n")), Builtin::External);
}

#[test]
fn variable_line_gives_name_and_value() {
    assert_eq!(
        variable(&tokens("GREETING = 'hello world'\n")),
        Some(Assignment { name: "GREETING".to_string(), value: "hello world".to_string() })
    );
    assert_eq!(variable(&tokens("A=b\n")), Some(Assignment { name: "A".to_string(), value: "b".to_string() }));
    assert_eq!(variable(&tokens("A b c\n")), None);
    assert_eq!(variable(&tokens("A =\n")), None);
}

#[test]
fn export_line_gives_name_and_value() {
    assert_eq!(
        export(&tokens("export PATH = '/bin:/usr/bin'\n")),
        Ok(Assignment { name: "PATH".to_string(), value: "/bin:/usr/bin".to_string() })
    );
    assert_eq!(export(&tokens("export PATH\n")), Err(DefineError::NotEnoughArguments));
    assert_eq!(export(&tokens("export PATH x y\n")), Err(DefineError::MissingEqualSign));
    assert_eq!(export(&tokens("export | = y\n")), Err(DefineError::NotAWord));
}

#[test]
fn alias_line_lists_or_defines() {
    assert_eq!(alias(&tokens("alias\n")), Ok(AliasRequest::List));
    assert_eq!(
        alias(&tokens("alias ll = 'ls -l -a'\n")),
        Ok(AliasRequest::Define {
            name: "ll".to_string(),
            program: "ls".to_string(),
            args: vec!["-l".to_string(), "-a".to_string()],
        })
    );
    assert_eq!(
        alias(&tokens("alias e = echo\n")),
        Ok(AliasRequest::Define { name: "e".to_string(), program: "echo".to_string(), args: vec![] })
    );
    assert_eq!(alias(&tokens("alias ll\n")), Err(DefineError::NotEnoughArguments));
    assert_eq!(alias(&tokens("alias ll ls x\n")), Err(DefineError::MissingEqualSign));
}

#[test]
fn alias_value_is_cut_at_every_space() {
    assert_eq!(
        alias(&tokens("alias x = 'a  b '\n")),
        Ok(AliasRequest::Define {
            name: "x".to_string(),
            program: "a".to_string(),
            args: vec!["".to_string(), "b".to_string(), "".to_string()],
        })
    );
}

#[test]
fn stores_keep_the_last_definition() {
    let mut variables = Variables::new();
    assert!(variables.lookup("A").is_none());
    variables.define("A", "1");
    variables.define("B", "2");
    variables.define("A", "3");
    assert_eq!(variables.lookup("A").map(|v| v.as_str()), Some("3"));
    assert_eq!(variables.lookup("B").map(|v| v.as_str()), Some("2"));
    assert!(variables.lookup("C").is_none());
    assert_eq!(variables.len(), 2);
    assert_eq!(variables.binding(0).name, "A");
    assert_eq!(variables.binding(1).name, "B");
    let mut aliases = Aliases::new();
    aliases.define("ll", "ls", vec!["-l".to_string()]);
    aliases.define("ll", "ls", vec!["-la".to_string()]);
    let found = aliases.lookup("ll").unwrap();
    assert_eq!((found.program.as_str(), found.args.clone()), ("ls", vec!["-la".to_string()]));
    assert!(aliases.lookup("l").is_none());
    assert_eq!(aliases.len(), 1);
    assert_eq!(aliases.alias(0).name, "ll");
}
