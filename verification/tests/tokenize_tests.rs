use runfile::tokenize::{Token, TokenizePhase};

// Group Header Tests

#[test]
fn test_group_header_multi_line_various_dashes() {
    let tokenizer = TokenizePhase::new();

    let test_cases = vec![
        ("# -\n# Group 1\n# -", "Group 1"),
        ("# --\n# Group 2\n# --", "Group 2"),
        ("# -----\n# Group 3\n# -----", "Group 3"),
        ("# ----------\n# Group 4\n# ----------", "Group 4"),
    ];

    for (input, expected) in test_cases {
        let tokens = tokenizer.tokenize(input).unwrap();
        assert_eq!(
            tokens[0],
            Token::GroupHeader {
                name: expected.to_string()
            }
        );
    }
}

// Command Tests
#[test]
fn test_simple_command() {
    let tokenizer = TokenizePhase::new();
    let content = "hello:";
    let tokens = tokenizer.tokenize(content).unwrap();
    assert_eq!(
        tokens[0],
        Token::CommandName {
            name: vec!["hello".to_string()],
            inline_args: vec![],
            inline_flags: vec![],
            comment: None
        }
    );
}

#[test]
fn test_command_with_comment() {
    let tokenizer = TokenizePhase::new();
    let content = "# This is a comment\nhello:";
    let tokens = tokenizer.tokenize(content).unwrap();
    assert_eq!(
        tokens[0],
        Token::CommandName {
            name: vec!["hello".to_string()],
            inline_args: vec![],
            inline_flags: vec![],
            comment: Some("This is a comment".to_string())
        }
    );
}

#[test]
fn test_command_multiple_comments() {
    let tokenizer = TokenizePhase::new();
    let content = "# First comment\n# Second comment\nhello:";
    let tokens = tokenizer.tokenize(content).unwrap();
    assert_eq!(
        tokens[0],
        Token::CommandName {
            name: vec!["hello".to_string()],
            inline_args: vec![],
            inline_flags: vec![],
            comment: Some("First comment Second comment".to_string())
        }
    );
}

#[test]
fn test_command_comment_skips_group_headers() {
    let tokenizer = TokenizePhase::new();
    let content = "# -----\n# Group Name\n# -----\n# This is a comment\nhello:";
    let tokens = tokenizer.tokenize(content).unwrap();
    assert_eq!(
        tokens[0],
        Token::GroupHeader {
            name: "Group Name".to_string()
        }
    );
    assert_eq!(
        tokens[1],
        Token::CommandName {
            name: vec!["hello".to_string()],
            inline_args: vec![],
            inline_flags: vec![],
            comment: Some("This is a comment".to_string())
        }
    );
}

// Alias Tests
#[test]
fn test_single_alias() {
    let tokenizer = TokenizePhase::new();
    let content = "build:";
    let tokens = tokenizer.tokenize(content).unwrap();
    assert_eq!(
        tokens[0],
        Token::CommandName {
            name: vec!["build".to_string()],
            inline_args: vec![],
            inline_flags: vec![],
            comment: None
        }
    );
}

#[test]
fn test_multiple_aliases_comma_separated() {
    let tokenizer = TokenizePhase::new();
    let content = "b, build:";
    let tokens = tokenizer.tokenize(content).unwrap();
    assert_eq!(
        tokens[0],
        Token::CommandName {
            name: vec!["b".to_string(), "build".to_string()],
            inline_args: vec![],
            inline_flags: vec![],
            comment: None
        }
    );
}

#[test]
fn test_multiple_aliases_multiple_parts() {
    let tokenizer = TokenizePhase::new();
    let content = "b, build, compile:";
    let tokens = tokenizer.tokenize(content).unwrap();
    assert_eq!(
        tokens[0],
        Token::CommandName {
            name: vec!["b".to_string(), "build".to_string(), "compile".to_string()],
            inline_args: vec![],
            inline_flags: vec![],
            comment: None
        }
    );
}

#[test]
fn test_aliases_with_inline_args() {
    let tokenizer = TokenizePhase::new();
    let content = "b, build target:";
    let tokens = tokenizer.tokenize(content).unwrap();
    assert_eq!(
        tokens[0],
        Token::CommandName {
            name: vec!["b".to_string(), "build".to_string()],
            inline_args: vec![("target".to_string(), false, false)],
            inline_flags: vec![],
            comment: None
        }
    );
}

#[test]
fn test_aliases_with_inline_flags() {
    let tokenizer = TokenizePhase::new();
    let content = "r, run --debug:";
    let tokens = tokenizer.tokenize(content).unwrap();
    assert_eq!(
        tokens[0],
        Token::CommandName {
            name: vec!["r".to_string(), "run".to_string()],
            inline_args: vec![],
            inline_flags: vec![("debug".to_string(), None, false, None)],
            comment: None
        }
    );
}

// Argument Tests
#[test]
fn test_required_argument() {
    let tokenizer = TokenizePhase::new();
    let content = "command:\n  arg";
    let tokens = tokenizer.tokenize(content).unwrap();
    assert_eq!(
        tokens[1],
        Token::Argument {
            name: "arg".to_string(),
            optional: false,
            is_varargs: false,
            comment: None
        }
    );
}

#[test]
fn test_optional_argument() {
    let tokenizer = TokenizePhase::new();
    let content = "command:\n  arg?";
    let tokens = tokenizer.tokenize(content).unwrap();
    assert_eq!(
        tokens[1],
        Token::Argument {
            name: "arg".to_string(),
            optional: true,
            is_varargs: false,
            comment: None
        }
    );
}

#[test]
fn test_varargs() {
    let tokenizer = TokenizePhase::new();
    let content = "command:\n  ...args";
    let tokens = tokenizer.tokenize(content).unwrap();
    assert_eq!(
        tokens[1],
        Token::Argument {
            name: "args".to_string(),
            optional: true,
            is_varargs: true,
            comment: None
        }
    );
}

#[test]
fn test_argument_with_comment() {
    let tokenizer = TokenizePhase::new();
    let content = "command:\n  arg # This is an argument";
    let tokens = tokenizer.tokenize(content).unwrap();
    assert_eq!(
        tokens[1],
        Token::Argument {
            name: "arg".to_string(),
            optional: false,
            is_varargs: false,
            comment: Some("This is an argument".to_string())
        }
    );
}

// Flag Tests
#[test]
fn test_long_flag() {
    let tokenizer = TokenizePhase::new();
    let content = "command:\n  --flag";
    let tokens = tokenizer.tokenize(content).unwrap();
    assert_eq!(
        tokens[1],
        Token::Flag {
            long_name: "flag".to_string(),
            short: None,
            takes_value: false,
            type_hint: None,
            comment: None
        }
    );
}

#[test]
fn test_short_and_long_flag() {
    let tokenizer = TokenizePhase::new();
    let content = "command:\n  -r, --release";
    let tokens = tokenizer.tokenize(content).unwrap();
    assert_eq!(
        tokens[1],
        Token::Flag {
            long_name: "release".to_string(),
            short: Some('r'),
            takes_value: false,
            type_hint: None,
            comment: None
        }
    );
}

#[test]
fn test_value_flag() {
    let tokenizer = TokenizePhase::new();
    let content = "command:\n  --output=<file>";
    let tokens = tokenizer.tokenize(content).unwrap();
    assert_eq!(
        tokens[1],
        Token::Flag {
            long_name: "output".to_string(),
            short: None,
            takes_value: true,
            type_hint: Some("file".to_string()),
            comment: None
        }
    );
}

#[test]
fn test_flag_with_comment() {
    let tokenizer = TokenizePhase::new();
    let content = "command:\n  --debug # Enable debug mode";
    let tokens = tokenizer.tokenize(content).unwrap();
    assert_eq!(
        tokens[1],
        Token::Flag {
            long_name: "debug".to_string(),
            short: None,
            takes_value: false,
            type_hint: None,
            comment: Some("Enable debug mode".to_string())
        }
    );
}

// Inline Args and Flags Tests
#[test]
fn test_inline_args() {
    let tokenizer = TokenizePhase::new();
    let content = "command arg1 arg2?:";
    let tokens = tokenizer.tokenize(content).unwrap();
    assert_eq!(
        tokens[0],
        Token::CommandName {
            name: vec!["command".to_string()],
            inline_args: vec![
                ("arg1".to_string(), false, false),
                ("arg2".to_string(), true, false)
            ],
            inline_flags: vec![],
            comment: None
        }
    );
}

#[test]
fn test_inline_flags() {
    let tokenizer = TokenizePhase::new();
    let content = "command -d, --debug --output=<file>:";
    let tokens = tokenizer.tokenize(content).unwrap();
    assert_eq!(
        tokens[0],
        Token::CommandName {
            name: vec!["command".to_string()],
            inline_args: vec![],
            inline_flags: vec![
                ("debug".to_string(), Some('d'), false, None),
                ("output".to_string(), None, true, Some("file".to_string()))
            ],
            comment: None
        }
    );
}

#[test]
fn test_inline_varargs() {
    let tokenizer = TokenizePhase::new();
    let content = "command ...args:";
    let tokens = tokenizer.tokenize(content).unwrap();
    assert_eq!(
        tokens[0],
        Token::CommandName {
            name: vec!["command".to_string()],
            inline_args: vec![("args".to_string(), true, true)],
            inline_flags: vec![],
            comment: None
        }
    );
}

// Script Line Tests
#[test]
fn test_script_lines() {
    let tokenizer = TokenizePhase::new();
    let content = "  echo \"Hello world\"\n  echo \"Another line\"";
    let tokens = tokenizer.tokenize(content).unwrap();
    assert_eq!(
        tokens[0],
        Token::ScriptLine {
            content: "  echo \"Hello world\"".to_string()
        }
    );
    assert_eq!(
        tokens[1],
        Token::ScriptLine {
            content: "  echo \"Another line\"".to_string()
        }
    );
}

#[test]
fn test_script_lines_with_shebang() {
    let tokenizer = TokenizePhase::new();
    let content = "#!/bin/bash\necho \"Hello\"";
    let tokens = tokenizer.tokenize(content).unwrap();
    assert_eq!(
        tokens[0],
        Token::ScriptLine {
            content: "#!/bin/bash".to_string()
        }
    );
    assert_eq!(
        tokens[1],
        Token::ScriptLine {
            content: "echo \"Hello\"".to_string()
        }
    );
}

// Comment Tests
#[test]
fn test_standalone_comments() {
    let tokenizer = TokenizePhase::new();
    let content = "# This is a comment\n# Another comment";
    let tokens = tokenizer.tokenize(content).unwrap();
    assert_eq!(
        tokens[0],
        Token::Comment {
            content: "# This is a comment".to_string()
        }
    );
    assert_eq!(
        tokens[1],
        Token::Comment {
            content: "# Another comment".to_string()
        }
    );
}

// Error Tests
#[test]
fn test_command_with_inline_comment_error() {
    let tokenizer = TokenizePhase::new();
    let content = "command # This should be an error:";
    let result = tokenizer.tokenize(content);
    assert!(result.is_err());
    assert!(
        result
            .unwrap_err()
            .message()
            .contains("Command comments must be on the line above")
    );
}

#[test]
fn test_empty_command_name_error() {
    let tokenizer = TokenizePhase::new();
    let content = ":";
    let result = tokenizer.tokenize(content);
    assert!(result.is_err());
    assert!(
        result
            .unwrap_err()
            .message()
            .contains("Command must have at least one name")
    );
}

// Edge Cases
#[test]
fn test_unicode_command() {
    let tokenizer = TokenizePhase::new();
    let content = "测试:";
    let tokens = tokenizer.tokenize(content).unwrap();
    assert_eq!(
        tokens[0],
        Token::CommandName {
            name: vec!["测试".to_string()],
            inline_args: vec![],
            inline_flags: vec![],
            comment: None
        }
    );
}

#[test]
fn test_unicode_arguments() {
    let tokenizer = TokenizePhase::new();
    let content = "command:\n  🚀? # Rocket argument";
    let tokens = tokenizer.tokenize(content).unwrap();
    assert_eq!(
        tokens[1],
        Token::Argument {
            name: "🚀".to_string(),
            optional: true,
            is_varargs: false,
            comment: Some("Rocket argument".to_string())
        }
    );
}

#[test]
fn test_special_characters_in_names() {
    let tokenizer = TokenizePhase::new();
    let content = "test-special_chars:";
    let tokens = tokenizer.tokenize(content).unwrap();
    assert_eq!(
        tokens[0],
        Token::CommandName {
            name: vec!["test-special_chars".to_string()],
            inline_args: vec![],
            inline_flags: vec![],
            comment: None
        }
    );
}

#[test]
fn test_empty_lines() {
    let tokenizer = TokenizePhase::new();
    let content = "\n\ncommand:\n\n  arg\n\n";
    let tokens = tokenizer.tokenize(content).unwrap();
    assert_eq!(
        tokens[0],
        Token::CommandName {
            name: vec!["command".to_string()],
            inline_args: vec![],
            inline_flags: vec![],
            comment: None
        }
    );
    assert_eq!(
        tokens[1],
        Token::Argument {
            name: "arg".to_string(),
            optional: false,
            is_varargs: false,
            comment: None
        }
    );
}

// Complex Integration Tests
#[test]
fn test_complete_runfile() {
    let tokenizer = TokenizePhase::new();
    let content = "# ----------\n# Basic Commands\n# ----------\n\n# Simple command\nhello:\n  echo \"Hello, World!\"\n\n# Command with args\nbuild:\n  --debug     # Enable debug mode\n  --release   # Build in release mode\n  echo \"Building\"";
    let tokens = tokenizer.tokenize(content).unwrap();

    assert_eq!(
        tokens[0],
        Token::GroupHeader {
            name: "Basic Commands".to_string()
        }
    );
    assert_eq!(
        tokens[1],
        Token::CommandName {
            name: vec!["hello".to_string()],
            inline_args: vec![],
            inline_flags: vec![],
            comment: Some("Simple command".to_string())
        }
    );
    assert_eq!(
        tokens[2],
        Token::ScriptLine {
            content: "  echo \"Hello, World!\"".to_string()
        }
    );
    assert_eq!(
        tokens[3],
        Token::CommandName {
            name: vec!["build".to_string()],
            inline_args: vec![],
            inline_flags: vec![],
            comment: Some("Command with args".to_string())
        }
    );
    assert_eq!(
        tokens[4],
        Token::Flag {
            long_name: "debug".to_string(),
            short: None,
            takes_value: false,
            type_hint: None,
            comment: Some("Enable debug mode".to_string())
        }
    );
    assert_eq!(
        tokens[5],
        Token::Flag {
            long_name: "release".to_string(),
            short: None,
            takes_value: false,
            type_hint: None,
            comment: Some("Build in release mode".to_string())
        }
    );
    assert_eq!(
        tokens[6],
        Token::ScriptLine {
            content: "  echo \"Building\"".to_string()
        }
    );
}

// Lexing the same text twice yields identical token sequences.
#[test]
fn test_tokenize_twice_identical() {
    let tokenizer = TokenizePhase::new();
    let content = "# A comment\nbuild target -r, --release:\n  arg?\n  echo \"go\"";
    let first = tokenizer.tokenize(content).unwrap();
    let second = tokenizer.tokenize(content).unwrap();
    assert_eq!(first, second);
}

// A bare short flag on an indented declaration line is a flag whose long
// name is its single character.
#[test]
fn test_bare_short_flag_indented() {
    let tokenizer = TokenizePhase::new();
    let content = "command:\n  -x";
    let tokens = tokenizer.tokenize(content).unwrap();
    assert_eq!(
        tokens[1],
        Token::Flag {
            long_name: "x".to_string(),
            short: Some('x'),
            takes_value: false,
            type_hint: None,
            comment: None
        }
    );
}
