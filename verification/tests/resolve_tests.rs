use runfile::parse::{Argument, Command, Flag, Runfile};
use runfile::resolve::ResolvePhase;

fn plain_command(names: Vec<String>, args: Vec<Argument>, script: &str) -> Command {
    Command {
        names,
        description: None,
        group: None,
        args,
        flags: vec![],
        script: script.to_string(),
        shebang: "#!/bin/sh".to_string(),
    }
}

#[test]
fn test_resolve_finds_command() {
    let resolver = ResolvePhase::new();
    let runfile = Runfile {
        groups: vec![],
        commands: vec![plain_command(vec!["test".to_string()], vec![], "echo test")],
    };

    let command = resolver.resolve(runfile, "test").unwrap();
    assert_eq!(command.names, vec!["test"]);
}

#[test]
fn test_resolve_command_not_found() {
    let resolver = ResolvePhase::new();
    let runfile = Runfile {
        groups: vec![],
        commands: vec![],
    };

    let result = resolver.resolve(runfile, "nonexistent");
    assert!(result.is_err());
    assert!(result.unwrap_err().message().contains("Command 'nonexistent' not found"));
}

#[test]
fn test_resolve_duplicate_args() {
    let resolver = ResolvePhase::new();
    let runfile = Runfile {
        groups: vec![],
        commands: vec![
            Command {
                names: vec!["test".to_string()],
                description: None,
                group: None,
                args: vec![
                    Argument {
                        name: "arg1".to_string(),
                        optional: false,
                        is_varargs: false,
                        description: None,
                    },
                    Argument {
                        name: "arg1".to_string(),
                        optional: true,
                        is_varargs: false,
                        description: None,
                    },
                ],
                flags: vec![],
                script: "echo test".to_string(),
                shebang: "#!/bin/sh".to_string(),
            },
        ],
    };

    let result = resolver.resolve(runfile, "test");
    assert!(result.is_err());
    assert!(result.unwrap_err().message().contains("Duplicate argument name"));
}

#[test]
fn test_resolve_empty_script() {
    let resolver = ResolvePhase::new();
    let runfile = Runfile {
        groups: vec![],
        commands: vec![plain_command(vec!["test".to_string()], vec![], "")],
    };

    let result = resolver.resolve(runfile, "test");
    assert!(result.is_err());
    assert!(result.unwrap_err().message().contains("has no script body"));
}

fn arg(name: &str, optional: bool, is_varargs: bool) -> Argument {
    Argument {
        name: name.to_string(),
        optional,
        is_varargs,
        description: None,
    }
}

// A variadic argument anywhere but last fails with the varargs-position
// error.
#[test]
fn test_resolve_varargs_not_last() {
    let resolver = ResolvePhase::new();
    let runfile = Runfile {
        groups: vec![],
        commands: vec![plain_command(
            vec!["test".to_string()],
            vec![arg("rest", true, true), arg("target", false, false)],
            "echo test",
        )],
    };

    let result = resolver.resolve(runfile, "test");
    assert!(result.is_err());
    assert!(
        result
            .unwrap_err()
            .message()
            .contains("Varargs argument (...args) must be the last argument")
    );
}

// Two variadic arguments fail with the multiple-varargs error.
#[test]
fn test_resolve_multiple_varargs() {
    let resolver = ResolvePhase::new();
    let runfile = Runfile {
        groups: vec![],
        commands: vec![plain_command(
            vec!["test".to_string()],
            vec![arg("first", true, true), arg("second", true, true)],
            "echo test",
        )],
    };

    let result = resolver.resolve(runfile, "test");
    assert!(result.is_err());
    assert!(
        result
            .unwrap_err()
            .message()
            .contains("Only one varargs argument (...args) is allowed")
    );
}

// Resolution matches any alias, and takes the first command in document
// order.
#[test]
fn test_resolve_by_alias() {
    let resolver = ResolvePhase::new();
    let runfile = Runfile {
        groups: vec![],
        commands: vec![plain_command(
            vec!["b".to_string(), "build".to_string()],
            vec![],
            "echo build",
        )],
    };

    let command = resolver.resolve(runfile, "build").unwrap();
    assert_eq!(command.names, vec!["b", "build"]);
}

// Two flags sharing a long name fail with the duplicate-flag error.
#[test]
fn test_resolve_duplicate_flag() {
    let resolver = ResolvePhase::new();
    let mut cmd = plain_command(vec!["test".to_string()], vec![], "echo test");
    cmd.flags = vec![
        Flag {
            short: None,
            long: "debug".to_string(),
            takes_value: false,
            type_hint: None,
            description: None,
        },
        Flag {
            short: None,
            long: "debug".to_string(),
            takes_value: true,
            type_hint: None,
            description: None,
        },
    ];
    let runfile = Runfile { groups: vec![], commands: vec![cmd] };

    let result = resolver.resolve(runfile, "test");
    assert!(result.is_err());
    assert!(result.unwrap_err().message().contains("Duplicate flag name: debug"));
}

// A short key colliding with another flag's key fails with the
// duplicate-short-flag error.
#[test]
fn test_resolve_duplicate_short_flag() {
    let resolver = ResolvePhase::new();
    let mut cmd = plain_command(vec!["test".to_string()], vec![], "echo test");
    cmd.flags = vec![
        Flag {
            short: Some('d'),
            long: "debug".to_string(),
            takes_value: false,
            type_hint: None,
            description: None,
        },
        Flag {
            short: Some('d'),
            long: "dry-run".to_string(),
            takes_value: false,
            type_hint: None,
            description: None,
        },
    ];
    let runfile = Runfile { groups: vec![], commands: vec![cmd] };

    let result = resolver.resolve(runfile, "test");
    assert!(result.is_err());
    assert!(result.unwrap_err().message().contains("Duplicate short flag: -d"));
}
