use runfile::parse::{Argument, Command, Flag};
use runfile::run::RunPhase;

#[test]
fn test_parse_cli_args() {
    let run_phase = RunPhase::new();
    let command = Command {
        names: vec!["test".to_string()],
        description: None,
        group: None,
        args: vec![
            Argument {
                name: "arg1".to_string(),
                optional: false,
                is_varargs: false,
                description: None,
            },
            Argument {
                name: "arg2".to_string(),
                optional: true,
                is_varargs: false,
                description: None,
            },
        ],
        flags: vec![
            Flag {
                short: Some('r'),
                long: "release".to_string(),
                takes_value: false,
                type_hint: None,
                description: None,
            },
            Flag {
                short: None,
                long: "debug".to_string(),
                takes_value: false,
                type_hint: None,
                description: None,
            },
        ],
        script: "echo test".to_string(),
        shebang: "#!/bin/sh".to_string(),
    };

    let cli_args = vec![
        "value1".to_string(),
        "--release".to_string(),
        "--debug".to_string(),
    ];
    let (args, flags, flag_values) = run_phase.parse_cli_args(&command, cli_args).unwrap();

    assert_eq!(args, vec!["value1"]);
    assert!(flags.iter().any(|f| f.0 == "release"));
    assert!(flags.iter().any(|f| f.0 == "debug"));
    assert!(flag_values.is_empty());
}

#[test]
fn test_parse_cli_args_short_flag() {
    let run_phase = RunPhase::new();
    let command = Command {
        names: vec!["test".to_string()],
        description: None,
        group: None,
        args: vec![],
        flags: vec![Flag {
            short: Some('r'),
            long: "release".to_string(),
            takes_value: false,
            type_hint: None,
            description: None,
        }],
        script: "echo test".to_string(),
        shebang: "#!/bin/sh".to_string(),
    };

    let cli_args = vec!["-r".to_string()];
    let (args, flags, flag_values) = run_phase.parse_cli_args(&command, cli_args).unwrap();

    assert_eq!(args.len(), 0);
    assert!(flags.iter().any(|f| f.0 == "release"));
    assert!(flag_values.is_empty());
}

#[test]
fn test_parse_cli_args_unknown_flag() {
    let run_phase = RunPhase::new();
    let command = Command {
        names: vec!["test".to_string()],
        description: None,
        group: None,
        args: vec![],
        flags: vec![],
        script: "echo test".to_string(),
        shebang: "#!/bin/sh".to_string(),
    };

    let cli_args = vec!["--unknown".to_string()];
    let result = run_phase.parse_cli_args(&command, cli_args);
    assert!(result.is_err());
    assert!(result.unwrap_err().message().contains("Unknown flag"));
}

#[test]
fn test_validate_required_args() {
    let run_phase = RunPhase::new();
    let command = Command {
        names: vec!["test".to_string()],
        description: None,
        group: None,
        args: vec![
            Argument {
                name: "required".to_string(),
                optional: false,
                is_varargs: false,
                description: None,
            },
            Argument {
                name: "optional".to_string(),
                optional: true,
                is_varargs: false,
                description: None,
            },
        ],
        flags: vec![],
        script: "echo test".to_string(),
        shebang: "#!/bin/sh".to_string(),
    };

    // Should pass with required arg provided
    let args = vec!["value".to_string()];
    assert!(run_phase.validate_required_args(&command, &args).is_ok());

    // Should fail without required arg
    let args = vec![];
    let result = run_phase.validate_required_args(&command, &args);
    assert!(result.is_err());
    assert!(
        result
            .unwrap_err()
            .message()
            .contains("Required argument")
    );
}

fn value_flag_command() -> Command {
    Command {
        names: vec!["build".to_string()],
        description: None,
        group: None,
        args: vec![],
        flags: vec![Flag {
            short: None,
            long: "output".to_string(),
            takes_value: true,
            type_hint: Some("file".to_string()),
            description: None,
        }],
        script: "echo build".to_string(),
        shebang: "#!/bin/sh".to_string(),
    }
}

// Binding --output=build.txt sets OUTPUT to the raw value and output to the
// literal flag form.
#[test]
fn test_bind_value_flag_environment() {
    let run_phase = RunPhase::new();
    let command = value_flag_command();
    let inv = run_phase.bind(&command, vec!["--output=build.txt".to_string()]).unwrap();
    let env: std::collections::HashMap<String, String> = inv.env.into_iter().collect();
    assert_eq!(env.get("OUTPUT"), Some(&"build.txt".to_string()));
    assert_eq!(env.get("output"), Some(&"--output=build.txt".to_string()));
}

// Binding --bogus against a command with no such flag fails with the
// unknown-flag error naming it.
#[test]
fn test_bind_unknown_flag_named() {
    let run_phase = RunPhase::new();
    let command = value_flag_command();
    let result = run_phase.bind(&command, vec!["--bogus".to_string()]);
    assert!(result.is_err());
    assert_eq!(result.unwrap_err().message(), "Unknown flag: --bogus");
}

// A command whose only argument is variadic binds successfully with zero
// positional tokens, and the variadic slot holds the empty string.
#[test]
fn test_bind_variadic_zero_positionals() {
    let run_phase = RunPhase::new();
    let command = Command {
        names: vec!["test".to_string()],
        description: None,
        group: None,
        args: vec![Argument {
            name: "args".to_string(),
            optional: true,
            is_varargs: true,
            description: None,
        }],
        flags: vec![],
        script: "echo OK".to_string(),
        shebang: "#!/bin/sh".to_string(),
    };
    let inv = run_phase.bind(&command, vec![]).unwrap();
    let env: std::collections::HashMap<String, String> = inv.env.into_iter().collect();
    assert_eq!(env.get("ARGS"), Some(&"".to_string()));
    assert_eq!(inv.interpreter, "/bin/sh");
    assert_eq!(inv.script, "echo OK");
}

// Trailing positionals from the variadic slot on join into one value with
// single spaces.
#[test]
fn test_bind_variadic_joins_tail() {
    let run_phase = RunPhase::new();
    let command = Command {
        names: vec!["test".to_string()],
        description: None,
        group: None,
        args: vec![
            Argument {
                name: "target".to_string(),
                optional: false,
                is_varargs: false,
                description: None,
            },
            Argument {
                name: "rest".to_string(),
                optional: true,
                is_varargs: true,
                description: None,
            },
        ],
        flags: vec![],
        script: "echo OK".to_string(),
        shebang: "#!/bin/sh".to_string(),
    };
    let cli = vec!["a".to_string(), "b".to_string(), "c".to_string(), "d".to_string()];
    let (args, _, _) = run_phase.parse_cli_args(&command, cli).unwrap();
    assert_eq!(args, vec!["a", "b c d"]);
}

fn release_flag_command() -> Command {
    Command {
        names: vec!["test".to_string()],
        description: None,
        group: None,
        args: vec![],
        flags: vec![Flag {
            short: Some('r'),
            long: "release".to_string(),
            takes_value: false,
            type_hint: None,
            description: None,
        }],
        script: "echo OK".to_string(),
        shebang: "#!/bin/sh".to_string(),
    }
}

// A matched boolean flag sets the upper-cased key to `true` and the
// original-case key to whichever literal the caller used: the short
// form here.
#[test]
fn test_bind_boolean_flag_environment() {
    let run_phase = RunPhase::new();
    let command = release_flag_command();
    let inv = run_phase.bind(&command, vec!["-r".to_string()]).unwrap();
    let env: std::collections::HashMap<String, String> = inv.env.into_iter().collect();
    assert_eq!(env.get("RELEASE"), Some(&"true".to_string()));
    assert_eq!(env.get("release"), Some(&"-r".to_string()));
}

// The same flag toggled by its long form carries the caller's literal
// `--release`, even though a short form is declared.
#[test]
fn test_bind_boolean_flag_long_literal() {
    let run_phase = RunPhase::new();
    let command = release_flag_command();
    let inv = run_phase.bind(&command, vec!["--release".to_string()]).unwrap();
    let env: std::collections::HashMap<String, String> = inv.env.into_iter().collect();
    assert_eq!(env.get("RELEASE"), Some(&"true".to_string()));
    assert_eq!(env.get("release"), Some(&"--release".to_string()));
}

// A short value flag consumes the next token whole; with none left the
// missing-value error names the flag.
#[test]
fn test_bind_short_value_flag() {
    let run_phase = RunPhase::new();
    let command = Command {
        names: vec!["test".to_string()],
        description: None,
        group: None,
        args: vec![],
        flags: vec![Flag {
            short: Some('o'),
            long: "output".to_string(),
            takes_value: true,
            type_hint: None,
            description: None,
        }],
        script: "echo OK".to_string(),
        shebang: "#!/bin/sh".to_string(),
    };
    let inv = run_phase
        .bind(&command, vec!["-o".to_string(), "out.txt".to_string()])
        .unwrap();
    let env: std::collections::HashMap<String, String> = inv.env.into_iter().collect();
    assert_eq!(env.get("OUTPUT"), Some(&"out.txt".to_string()));

    let command2 = Command {
        names: vec!["test".to_string()],
        description: None,
        group: None,
        args: vec![],
        flags: vec![Flag {
            short: Some('o'),
            long: "output".to_string(),
            takes_value: true,
            type_hint: None,
            description: None,
        }],
        script: "echo OK".to_string(),
        shebang: "#!/bin/sh".to_string(),
    };
    let result = run_phase.bind(&command2, vec!["-o".to_string()]);
    assert!(result.is_err());
    assert_eq!(result.unwrap_err().message(), "Flag -o requires a value");
}

// Required arguments bind both key cases to the literal value.
#[test]
fn test_bind_argument_environment() {
    let run_phase = RunPhase::new();
    let command = Command {
        names: vec!["test".to_string()],
        description: None,
        group: None,
        args: vec![Argument {
            name: "target".to_string(),
            optional: false,
            is_varargs: false,
            description: None,
        }],
        flags: vec![],
        script: "echo OK".to_string(),
        shebang: "#!/bin/sh".to_string(),
    };
    let inv = run_phase.bind(&command, vec!["debug".to_string()]).unwrap();
    let env: std::collections::HashMap<String, String> = inv.env.into_iter().collect();
    assert_eq!(env.get("TARGET"), Some(&"debug".to_string()));
    assert_eq!(env.get("target"), Some(&"debug".to_string()));
}

// Without a declared shebang the POSIX shell default applies.
#[test]
fn test_bind_default_interpreter() {
    let run_phase = RunPhase::new();
    let command = Command {
        names: vec!["test".to_string()],
        description: None,
        group: None,
        args: vec![],
        flags: vec![],
        script: "echo OK".to_string(),
        shebang: "sh".to_string(),
    };
    let inv = run_phase.bind(&command, vec![]).unwrap();
    assert_eq!(inv.interpreter, "sh");
}
