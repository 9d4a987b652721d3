use draca::env::Environment;
use draca::expression::Expression;
use draca::repl::{cmd_sets, is_break_char, Command, CommandCompleter};

fn pair(display: &str, replacement: &str) -> (String, String) {
    (String::from(display), String::from(replacement))
}

#[test]
fn break_chars() {
    assert!(is_break_char(' '));
    assert!(is_break_char('\t'));
    assert!(is_break_char('\n'));
    assert!(!is_break_char('('));
    assert!(!is_break_char('a'));
}

#[test]
fn a_command_holds_its_parts() {
    let command = Command::new("define", "");
    assert_eq!(command.cmd(), "define");
    assert_eq!(command.pre_cmd(), "");
}

#[test]
fn the_keywords_are_offered() {
    let set = cmd_sets(&Environment::empty());
    assert_eq!(set.len(), 18);
    assert_eq!(set[0], Command::new("define", ""));
    assert_eq!(set[1], Command::new("", "define"));
    assert!(set.contains(&Command::new("if", "")));
    assert!(!set.contains(&Command::new("let", "")));
}

#[test]
fn the_bindings_are_offered_once() {
    let mut env = Environment::empty();
    env.insert("a::x", Expression::Nil);
    let set = cmd_sets(&env);
    assert_eq!(set.len(), 22);
    assert_eq!(
        &set[18..],
        [
            Command::new("a::x", "x"),
            Command::new("x", "a::x"),
            Command::new("x", ""),
            Command::new("a::x", ""),
        ]
    );
    env.insert("b::x", Expression::Nil);
    assert_eq!(cmd_sets(&env).len(), 25);
}

#[test]
fn matches_start_with_the_word() {
    let completer = CommandCompleter { cmds: cmd_sets(&Environment::empty()) };
    assert_eq!(
        completer.find_matches("", "de"),
        [pair("define", "define"), pair("define/in-namespace", "define/in-namespace"), pair("deconst-fn", "deconst-fn")]
    );
    assert_eq!(
        completer.find_matches("", "(na"),
        [pair("namespace/symbol", "(namespace/symbol"), pair("namespace/as-list", "(namespace/as-list")]
    );
    assert_eq!(completer.find_matches("", "((q"), [pair("quote", "(quote")]);
    assert_eq!(completer.find_matches("", "x"), []);
    assert_eq!(completer.find_matches("quote", ""), [pair("", "")]);
    assert_eq!(completer.find_matches("elsewhere", "de"), []);
}
