use runfile::parse::ParsePhase;
use runfile::tokenize::Token;
use runfile::tokenize::TokenizePhase;

#[test]
fn test_parse_simple_command() {
    let tokenizer = TokenizePhase::new();
    let parser = ParsePhase::new();

    let content = "command:\n  arg?\n  --flag\n  echo \"Hello\"";
    let tokens = tokenizer.tokenize(content).unwrap();
    let runfile = parser.parse(tokens);

    assert_eq!(runfile.commands.len(), 1);
    let cmd = &runfile.commands[0];
    assert_eq!(cmd.names, vec!["command"]);
    assert_eq!(cmd.args.len(), 1);
    assert_eq!(cmd.args[0].name, "arg");
    assert_eq!(cmd.args[0].optional, true);
    assert_eq!(cmd.args[0].is_varargs, false);
    assert_eq!(cmd.flags.len(), 1);
    assert_eq!(cmd.flags[0].long, "flag");
    assert_eq!(cmd.flags[0].takes_value, false);
    assert_eq!(cmd.script.trim(), "echo \"Hello\"");
}

#[test]
fn test_parse_command_with_flags() {
    let tokenizer = TokenizePhase::new();
    let parser = ParsePhase::new();

    let content = "build:\n  -r, --release\n  --debug\n  echo \"Building\"";
    let tokens = tokenizer.tokenize(content).unwrap();
    let runfile = parser.parse(tokens);

    assert_eq!(runfile.commands.len(), 1);
    let cmd = &runfile.commands[0];
    assert_eq!(cmd.names, vec!["build"]);
    assert_eq!(cmd.flags.len(), 2);
    assert_eq!(cmd.flags[0].short, Some('r'));
    assert_eq!(cmd.flags[0].long, "release");
    assert_eq!(cmd.flags[0].takes_value, false);
    assert_eq!(cmd.flags[1].long, "debug");
    assert_eq!(cmd.flags[1].takes_value, false);
}

#[test]
fn test_parse_command_with_inline_args_flags() {
    let tokenizer = TokenizePhase::new();
    let parser = ParsePhase::new();

    let content = "command arg -f, --flag -o, --other:\n  echo \"Running command\"";
    let tokens = tokenizer.tokenize(content).unwrap();
    let runfile = parser.parse(tokens);

    assert_eq!(runfile.commands.len(), 1);
    let cmd = &runfile.commands[0];
    assert_eq!(cmd.names, vec!["command"]);
    assert_eq!(cmd.args.len(), 1);
    assert_eq!(cmd.args[0].name, "arg");
    assert_eq!(cmd.args[0].optional, false);
    assert_eq!(cmd.args[0].is_varargs, false);
    assert_eq!(cmd.flags.len(), 2);
    assert_eq!(cmd.flags[0].short, Some('f'));
    assert_eq!(cmd.flags[0].long, "flag");
    assert_eq!(cmd.flags[0].takes_value, false);
    assert_eq!(cmd.flags[1].short, Some('o'));
    assert_eq!(cmd.flags[1].long, "other");
    assert_eq!(cmd.flags[1].takes_value, false);
}

#[test]
fn test_parse_command_with_aliases() {
    let tokenizer = TokenizePhase::new();
    let parser = ParsePhase::new();

    let content = "b, build, compile:\n  echo \"Building\"";
    let tokens = tokenizer.tokenize(content).unwrap();
    let runfile = parser.parse(tokens);

    assert_eq!(runfile.commands.len(), 1);
    let cmd = &runfile.commands[0];
    assert_eq!(cmd.names, vec!["b", "build", "compile"]);
    assert_eq!(cmd.script.trim(), "echo \"Building\"");
}

#[test]
fn test_parse_command_with_comment() {
    let tokenizer = TokenizePhase::new();
    let parser = ParsePhase::new();

    let content = "# This is a comment\nhello:\n  echo \"Hello\"";
    let tokens = tokenizer.tokenize(content).unwrap();
    let runfile = parser.parse(tokens);

    assert_eq!(runfile.commands.len(), 1);
    let cmd = &runfile.commands[0];
    assert_eq!(cmd.names, vec!["hello"]);
    assert_eq!(cmd.description, Some("This is a comment".to_string()));
}

#[test]
fn test_parse_command_with_multiple_comments() {
    let tokenizer = TokenizePhase::new();
    let parser = ParsePhase::new();

    let content = "# First comment\n# Second comment\nhello:\n  echo \"Hello\"";
    let tokens = tokenizer.tokenize(content).unwrap();
    let runfile = parser.parse(tokens);

    assert_eq!(runfile.commands.len(), 1);
    let cmd = &runfile.commands[0];
    assert_eq!(cmd.names, vec!["hello"]);
    assert_eq!(cmd.description, Some("First comment Second comment".to_string()));
}

#[test]
fn test_parse_command_with_varargs() {
    let tokenizer = TokenizePhase::new();
    let parser = ParsePhase::new();

    let content = "run ...args:\n  echo \"Running with args\"";
    let tokens = tokenizer.tokenize(content).unwrap();
    let runfile = parser.parse(tokens);

    assert_eq!(runfile.commands.len(), 1);
    let cmd = &runfile.commands[0];
    assert_eq!(cmd.names, vec!["run"]);
    assert_eq!(cmd.args.len(), 1);
    assert_eq!(cmd.args[0].name, "args");
    assert_eq!(cmd.args[0].optional, true);
    assert_eq!(cmd.args[0].is_varargs, true);

    // Test help output
    let help = runfile.generate_help(false);
    assert!(help.contains("...args"), "Help should contain '...args' but got: {}", help);
}

#[test]
fn test_parse_command_with_varargs_indented() {
    let tokenizer = TokenizePhase::new();
    let parser = ParsePhase::new();

    let content = "run\n  target\n  ...args:\n  echo \"Running with args\"";
    let tokens = tokenizer.tokenize(content).unwrap();

    let runfile = parser.parse(tokens);

    assert_eq!(runfile.commands.len(), 1);
    let cmd = &runfile.commands[0];
    assert_eq!(cmd.names, vec!["run"]);
    assert_eq!(cmd.args.len(), 2);
    assert_eq!(cmd.args[0].name, "target");
    assert_eq!(cmd.args[1].name, "args");
    assert_eq!(cmd.args[1].optional, true);
    assert_eq!(cmd.args[1].is_varargs, true);

    // Test help output
    let help = runfile.generate_help(false);
    assert!(help.contains("...args"), "Help should contain '...args' but got: {}", help);
}

#[test]
fn test_parse_command_with_value_flag() {
    let tokenizer = TokenizePhase::new();
    let parser = ParsePhase::new();

    let content = "build:\n  --output=<file>\n  echo \"Building\"";
    let tokens = tokenizer.tokenize(content).unwrap();
    let runfile = parser.parse(tokens);

    assert_eq!(runfile.commands.len(), 1);
    let cmd = &runfile.commands[0];
    assert_eq!(cmd.names, vec!["build"]);
    assert_eq!(cmd.flags.len(), 1);
    assert_eq!(cmd.flags[0].long, "output");
    assert_eq!(cmd.flags[0].takes_value, true);
    assert_eq!(cmd.flags[0].type_hint, Some("file".to_string()));
}

#[test]
fn test_parse_command_with_shebang() {
    let tokenizer = TokenizePhase::new();
    let parser = ParsePhase::new();

    let content = "python:\n  #!/usr/bin/env python3\n  print('Hello')";
    let tokens = tokenizer.tokenize(content).unwrap();
    let runfile = parser.parse(tokens);

    assert_eq!(runfile.commands.len(), 1);
    let cmd = &runfile.commands[0];
    assert_eq!(cmd.names, vec!["python"]);
    assert_eq!(cmd.shebang, "#!/usr/bin/env python3");
    assert!(cmd.script.contains("print('Hello')"));
}

#[test]
fn test_parse_command_with_argument_comment() {
    let tokenizer = TokenizePhase::new();
    let parser = ParsePhase::new();

    let content = "build:\n  target # The build target\n  echo \"Building\"";
    let tokens = tokenizer.tokenize(content).unwrap();
    let runfile = parser.parse(tokens);

    assert_eq!(runfile.commands.len(), 1);
    let cmd = &runfile.commands[0];
    assert_eq!(cmd.names, vec!["build"]);
    assert_eq!(cmd.args.len(), 1);
    assert_eq!(cmd.args[0].name, "target");
    assert_eq!(cmd.args[0].description, Some("The build target".to_string()));
}

#[test]
fn test_parse_command_with_flag_comment() {
    let tokenizer = TokenizePhase::new();
    let parser = ParsePhase::new();

    let content = "build:\n  --debug # Enable debug mode\n  echo \"Building\"";
    let tokens = tokenizer.tokenize(content).unwrap();
    let runfile = parser.parse(tokens);

    assert_eq!(runfile.commands.len(), 1);
    let cmd = &runfile.commands[0];
    assert_eq!(cmd.names, vec!["build"]);
    assert_eq!(cmd.flags.len(), 1);
    assert_eq!(cmd.flags[0].long, "debug");
    assert_eq!(cmd.flags[0].description, Some("Enable debug mode".to_string()));
}

#[test]
fn test_parse_group_header() {
    let tokenizer = TokenizePhase::new();
    let parser = ParsePhase::new();

    let content = "# ----------\n# Build Commands\n# ----------\n\nbuild:\n  echo \"Building\"";
    let tokens = tokenizer.tokenize(content).unwrap();
    let runfile = parser.parse(tokens);

    assert_eq!(runfile.groups.len(), 1);
    assert_eq!(runfile.groups[0].name, "Build Commands");
    assert_eq!(runfile.commands.len(), 1);
    assert_eq!(runfile.commands[0].group, Some("Build Commands".to_string()));
}

#[test]
fn test_parse_multiple_commands() {
    let tokenizer = TokenizePhase::new();
    let parser = ParsePhase::new();

    let content = "build:\n  echo \"Building\"\n\nrun:\n  echo \"Running\"";
    let tokens = tokenizer.tokenize(content).unwrap();
    let runfile = parser.parse(tokens);

    assert_eq!(runfile.commands.len(), 2);
    assert_eq!(runfile.commands[0].names, vec!["build"]);
    assert_eq!(runfile.commands[1].names, vec!["run"]);
}

#[test]
fn test_parse_empty_runfile() {
    let tokenizer = TokenizePhase::new();
    let parser = ParsePhase::new();

    let content = "";
    let tokens = tokenizer.tokenize(content).unwrap();
    let runfile = parser.parse(tokens);

    assert_eq!(runfile.groups.len(), 0);
    assert_eq!(runfile.commands.len(), 0);
}

#[test]
fn test_parse_command_with_script_comments() {
    let tokenizer = TokenizePhase::new();
    let parser = ParsePhase::new();

    let content = "build:\n  # This is a script comment\n  echo \"Building\"\n  # Another comment\n  echo \"Done\"";
    let tokens = tokenizer.tokenize(content).unwrap();
    let runfile = parser.parse(tokens);

    assert_eq!(runfile.commands.len(), 1);
    let cmd = &runfile.commands[0];
    assert_eq!(cmd.names, vec!["build"]);
    assert!(cmd.script.contains("# This is a script comment"));
    assert!(cmd.script.contains("echo \"Building\""));
    assert!(cmd.script.contains("# Another comment"));
    assert!(cmd.script.contains("echo \"Done\""));
}

#[test]
fn test_parse_command_with_inline_aliases_and_args() {
    let tokenizer = TokenizePhase::new();
    let parser = ParsePhase::new();

    let content = "b, build target -r, --release:\n  echo \"Building\"";
    let tokens = tokenizer.tokenize(content).unwrap();
    let runfile = parser.parse(tokens);

    assert_eq!(runfile.commands.len(), 1);
    let cmd = &runfile.commands[0];
    assert_eq!(cmd.names, vec!["b", "build"]);
    assert_eq!(cmd.args.len(), 1);
    assert_eq!(cmd.args[0].name, "target");
    assert_eq!(cmd.flags.len(), 1);
    assert_eq!(cmd.flags[0].short, Some('r'));
    assert_eq!(cmd.flags[0].long, "release");
}

// A round trip through parse_runfile: declarations, flag and script all land
// in their fields.
#[test]
fn test_parse_runfile_round_trip() {
    let runfile = runfile::parse_runfile("name:\n  arg?\n  --flag\n  echo hi").unwrap();
    assert_eq!(runfile.commands.len(), 1);
    let cmd = &runfile.commands[0];
    assert_eq!(cmd.names, vec!["name"]);
    assert_eq!(cmd.args.len(), 1);
    assert_eq!(cmd.args[0].name, "arg");
    assert_eq!(cmd.args[0].optional, true);
    assert_eq!(cmd.args[0].is_varargs, false);
    assert_eq!(cmd.flags.len(), 1);
    assert_eq!(cmd.flags[0].long, "flag");
    assert_eq!(cmd.flags[0].takes_value, false);
    assert!(cmd.script.contains("echo hi"));
}

// A group triple immediately followed by a command attaches the command to
// the group.
#[test]
fn test_group_triple_attaches_following_command() {
    let runfile = runfile::parse_runfile("# ---\n# Title\n# ---\ncmd:\n  echo x").unwrap();
    assert_eq!(runfile.groups.len(), 1);
    assert_eq!(runfile.groups[0].name, "Title");
    assert_eq!(runfile.commands[0].group, Some("Title".to_string()));
}

// A comment block followed by a blank line and no command stays a run of
// standalone comment tokens, attached to nothing.
#[test]
fn test_comment_block_without_command_stands_alone() {
    let tokenizer = TokenizePhase::new();
    let tokens = tokenizer.tokenize("# c1\n# c2\n").unwrap();
    assert_eq!(
        tokens[0],
        Token::Comment {
            content: "# c1".to_string()
        }
    );
    assert_eq!(
        tokens[1],
        Token::Comment {
            content: "# c2".to_string()
        }
    );
}

// Comment attachment: contiguous comments above a header join with single
// spaces into its description.
#[test]
fn test_comment_attachment_two_lines() {
    let runfile = runfile::parse_runfile("# c1\n# c2\nfoo:\n  echo x").unwrap();
    assert_eq!(runfile.commands[0].description, Some("c1 c2".to_string()));
}

// Inline and block declarations contribute alike: the same parameters
// declared either way give the same argument and flag counts.
#[test]
fn test_inline_and_block_declarations_count_alike() {
    let inline = runfile::parse_runfile("cmd target --debug:\n  echo x").unwrap();
    let block = runfile::parse_runfile("cmd:\n  target\n  --debug\n  echo x").unwrap();
    assert_eq!(inline.commands[0].args.len(), 1);
    assert_eq!(inline.commands[0].flags.len(), 1);
    assert_eq!(block.commands[0].args.len(), inline.commands[0].args.len());
    assert_eq!(block.commands[0].flags.len(), inline.commands[0].flags.len());
    assert_eq!(inline.commands[0].args[0].name, "target");
    assert_eq!(block.commands[0].args[0].name, "target");
    assert_eq!(inline.commands[0].flags[0].long, "debug");
    assert_eq!(block.commands[0].flags[0].long, "debug");
}
