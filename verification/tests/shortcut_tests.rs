//! Behavior of the shortcut dispatcher.

use ushell::shortcuts::{ShortcutSet, ShortcutInvoker};

struct Log {
    calls: Vec<(usize, String)>,
}

impl Log {
    fn new() -> Log {
        Log { calls: Vec::new() }
    }
}

impl ShortcutInvoker for Log {
    fn invoke(&mut self, index: usize, param: &str) {
        self.calls.push((index, param.to_string()));
    }
}

fn demo_set() -> ShortcutSet {
    ShortcutSet::new(vec![
        ('!', vec![('+', "bang_plus".to_string()), ('-', "bang_minus".to_string()), ('#', "bang_hash".to_string())]),
        ('+', vec![('+', "plus_plus".to_string()), ('-', "plus_minus".to_string()), ('#', "plus_hash".to_string())]),
        ('-', vec![('+', "minus_plus".to_string()), ('-', "minus_minus".to_string()), ('#', "minus_hash".to_string())]),
        ('#', vec![('!', "hash_bang".to_string()), ('+', "hash_plus".to_string()), ('?', "hash_question".to_string())]),
        ('?', vec![('!', "question_bang".to_string()), ('+', "question_plus".to_string()), ('?', "question_question".to_string())]),
    ])
}

fn name_of(set: &ShortcutSet, index: usize) -> String {
    set.entries[index].1.clone()
}

#[test]
fn test_basic_dispatch() {
    let set = demo_set();
    let mut log = Log::new();

    assert!(set.dispatch("!+", &mut log).is_ok());
    assert_eq!(name_of(&set, log.calls[0].0), "bang_plus");
    assert_eq!(log.calls[0].1, "");

    assert!(set.dispatch("+-", &mut log).is_ok());
    assert_eq!(name_of(&set, log.calls[1].0), "plus_minus");
    assert_eq!(log.calls[1].1, "");

    assert!(set.dispatch("#?", &mut log).is_ok());
    assert_eq!(name_of(&set, log.calls[2].0), "hash_question");
    assert_eq!(log.calls[2].1, "");
}

#[test]
fn test_dispatch_with_parameters() {
    let set = demo_set();
    let mut log = Log::new();

    assert!(set.dispatch("!+ hello world", &mut log).is_ok());
    assert_eq!(name_of(&set, log.calls[0].0), "bang_plus");
    assert_eq!(log.calls[0].1, "hello world");

    assert!(set.dispatch("-- 42", &mut log).is_ok());
    assert_eq!(name_of(&set, log.calls[1].0), "minus_minus");
    assert_eq!(log.calls[1].1, "42");

    assert!(set.dispatch("?? test param", &mut log).is_ok());
    assert_eq!(name_of(&set, log.calls[2].0), "question_question");
    assert_eq!(log.calls[2].1, "test param");
}

#[test]
fn test_dispatch_with_whitespace() {
    let set = demo_set();
    let mut log = Log::new();

    assert!(set.dispatch("  !+", &mut log).is_ok());
    assert_eq!(name_of(&set, log.calls[0].0), "bang_plus");
    assert_eq!(log.calls[0].1, "");

    assert!(set.dispatch("+-  ", &mut log).is_ok());
    assert_eq!(name_of(&set, log.calls[1].0), "plus_minus");
    assert_eq!(log.calls[1].1, "");

    assert!(set.dispatch("  #!  ", &mut log).is_ok());
    assert_eq!(name_of(&set, log.calls[2].0), "hash_bang");
    assert_eq!(log.calls[2].1, "");

    assert!(set.dispatch("?+   param", &mut log).is_ok());
    assert_eq!(name_of(&set, log.calls[3].0), "question_plus");
    assert_eq!(log.calls[3].1, "param");
}

#[test]
fn test_dispatch_unknown_shortcut() {
    let set = demo_set();
    let mut log = Log::new();

    let result = set.dispatch("@@", &mut log);
    assert!(result.is_err());
    assert!(result.unwrap_err().message().contains("Unknown shortcut"));

    let result = set.dispatch("xy", &mut log);
    assert!(result.is_err());
    assert!(result.unwrap_err().message().contains("Unknown shortcut"));
}

#[test]
fn test_dispatch_partial_shortcut() {
    let set = demo_set();
    let mut log = Log::new();

    assert!(set.dispatch("!", &mut log).is_err());
    assert!(set.dispatch("+", &mut log).is_err());
}

#[test]
fn test_dispatch_empty_input() {
    let set = demo_set();
    let mut log = Log::new();

    assert!(set.dispatch("", &mut log).is_err());
    assert!(set.dispatch("   ", &mut log).is_err());
}

#[test]
fn test_is_supported_shortcut() {
    let set = demo_set();

    assert!(set.is_supported_shortcut("!"));
    assert!(set.is_supported_shortcut("+"));
    assert!(set.is_supported_shortcut("-"));
    assert!(set.is_supported_shortcut("#"));
    assert!(set.is_supported_shortcut("?"));

    assert!(set.is_supported_shortcut("!+"));
    assert!(set.is_supported_shortcut("+- extra"));
    assert!(set.is_supported_shortcut("  #?  "));

    assert!(!set.is_supported_shortcut("@"));
    assert!(!set.is_supported_shortcut("x"));
    assert!(!set.is_supported_shortcut(""));
    assert!(!set.is_supported_shortcut("   "));
}

#[test]
fn test_get_shortcuts() {
    let set = demo_set();
    let shortcuts_list = set.get_shortcuts();

    assert!(shortcuts_list.contains("!+"));
    assert!(shortcuts_list.contains("!-"));
    assert!(shortcuts_list.contains("!#"));
    assert!(shortcuts_list.contains("++"));
    assert!(shortcuts_list.contains("+-"));
    assert!(shortcuts_list.contains("+#"));
    assert!(shortcuts_list.contains("-+"));
    assert!(shortcuts_list.contains("--"));
    assert!(shortcuts_list.contains("-#"));
    assert!(shortcuts_list.contains("#!"));
    assert!(shortcuts_list.contains("#+"));
    assert!(shortcuts_list.contains("#?"));
    assert!(shortcuts_list.contains("?!"));
    assert!(shortcuts_list.contains("?+"));
    assert!(shortcuts_list.contains("??"));
}

#[test]
fn test_error_message_format() {
    let set = demo_set();
    let mut log = Log::new();
    let result = set.dispatch("xx", &mut log);
    assert!(result.is_err());
    let err = result.unwrap_err().message();
    assert!(err.contains("Unknown shortcut"));
    assert!(err.contains("xx"));
}

#[test]
fn test_parameter_passing() {
    let set = demo_set();
    let mut log = Log::new();

    set.dispatch("!+ first", &mut log).unwrap();
    set.dispatch("!+ second", &mut log).unwrap();
    set.dispatch("!+ third", &mut log).unwrap();

    assert_eq!(log.calls.len(), 3);
    assert_eq!(log.calls[0].1, "first");
    assert_eq!(log.calls[1].1, "second");
    assert_eq!(log.calls[2].1, "third");
}

#[test]
fn test_complex_parameters() {
    let set = demo_set();
    let mut log = Log::new();

    set.dispatch("++ key=value", &mut log).unwrap();
    assert_eq!(log.calls[0].1, "key=value");

    set.dispatch("-- --flag", &mut log).unwrap();
    assert_eq!(log.calls[1].1, "--flag");

    set.dispatch("#+ /path/to/file", &mut log).unwrap();
    assert_eq!(log.calls[2].1, "/path/to/file");

    set.dispatch("?! 123 456 789", &mut log).unwrap();
    assert_eq!(log.calls[3].1, "123 456 789");
}

#[test]
fn test_shortcut_boundary_cases() {
    let set = demo_set();
    let mut log = Log::new();

    // Exactly two characters.
    assert!(set.dispatch("!+", &mut log).is_ok());
    // More than two characters: the rest is the parameter.
    assert!(set.dispatch("!+x", &mut log).is_ok());
    // One character never matches a two-character key.
    assert!(set.dispatch("!", &mut log).is_err());
}

// ==================== CARRIED-OVER SHORTCUT CASES ====================

fn calls_of(set: &ShortcutSet, log: &Log, name: &str) -> Vec<String> {
    log.calls
        .iter()
        .filter(|(i, _)| set.entries[*i].1 == name)
        .map(|(_, p)| p.clone())
        .collect()
}

#[test]
fn test_all_bang_shortcuts() {
    let set = demo_set();
    let mut log = Log::new();

    assert!(set.dispatch("!+", &mut log).is_ok());
    assert_eq!(calls_of(&set, &log, "bang_plus").len(), 1);

    let mut log = Log::new();
    assert!(set.dispatch("!-", &mut log).is_ok());
    assert_eq!(calls_of(&set, &log, "bang_minus").len(), 1);

    let mut log = Log::new();
    assert!(set.dispatch("!#", &mut log).is_ok());
    assert_eq!(calls_of(&set, &log, "bang_hash").len(), 1);
}

#[test]
fn test_all_plus_shortcuts() {
    let set = demo_set();
    let mut log = Log::new();

    assert!(set.dispatch("++", &mut log).is_ok());
    assert_eq!(calls_of(&set, &log, "plus_plus").len(), 1);

    let mut log = Log::new();
    assert!(set.dispatch("+-", &mut log).is_ok());
    assert_eq!(calls_of(&set, &log, "plus_minus").len(), 1);

    let mut log = Log::new();
    assert!(set.dispatch("+#", &mut log).is_ok());
    assert_eq!(calls_of(&set, &log, "plus_hash").len(), 1);
}

#[test]
fn test_all_minus_shortcuts() {
    let set = demo_set();
    let mut log = Log::new();

    assert!(set.dispatch("-+", &mut log).is_ok());
    assert_eq!(calls_of(&set, &log, "minus_plus").len(), 1);

    let mut log = Log::new();
    assert!(set.dispatch("--", &mut log).is_ok());
    assert_eq!(calls_of(&set, &log, "minus_minus").len(), 1);

    let mut log = Log::new();
    assert!(set.dispatch("-#", &mut log).is_ok());
    assert_eq!(calls_of(&set, &log, "minus_hash").len(), 1);
}

#[test]
fn test_all_hash_shortcuts() {
    let set = demo_set();
    let mut log = Log::new();

    assert!(set.dispatch("#!", &mut log).is_ok());
    assert_eq!(calls_of(&set, &log, "hash_bang").len(), 1);

    let mut log = Log::new();
    assert!(set.dispatch("#+", &mut log).is_ok());
    assert_eq!(calls_of(&set, &log, "hash_plus").len(), 1);

    let mut log = Log::new();
    assert!(set.dispatch("#?", &mut log).is_ok());
    assert_eq!(calls_of(&set, &log, "hash_question").len(), 1);
}

#[test]
fn test_all_question_shortcuts() {
    let set = demo_set();
    let mut log = Log::new();

    assert!(set.dispatch("?!", &mut log).is_ok());
    assert_eq!(calls_of(&set, &log, "question_bang").len(), 1);

    let mut log = Log::new();
    assert!(set.dispatch("?+", &mut log).is_ok());
    assert_eq!(calls_of(&set, &log, "question_plus").len(), 1);

    let mut log = Log::new();
    assert!(set.dispatch("??", &mut log).is_ok());
    assert_eq!(calls_of(&set, &log, "question_question").len(), 1);
}

#[test]
fn test_hash_question_debug() {
    let set = demo_set();
    let mut log = Log::new();

    let input = "#? /path/to/file";
    let result = set.dispatch(input, &mut log);

    assert!(result.is_ok(), "Dispatch failed");

    let calls = calls_of(&set, &log, "hash_question");
    assert!(!calls.is_empty(), "hash_question was not called at all");
    assert_eq!(calls.len(), 1, "hash_question called {} times instead of 1", calls.len());
    assert_eq!(
        calls[0], "/path/to/file",
        "Wrong parameter: got '{}' expected '/path/to/file'",
        calls[0]
    );
}

#[test]
fn test_special_characters_in_parameters() {
    let set = demo_set();
    let mut log = Log::new();

    set.dispatch("!+ @#$%", &mut log).unwrap();
    assert_eq!(calls_of(&set, &log, "bang_plus"), vec!["@#$%"]);

    let mut log = Log::new();
    set.dispatch("?? !@#$%^&*()", &mut log).unwrap();
    assert_eq!(calls_of(&set, &log, "question_question"), vec!["!@#$%^&*()"]);

    let mut log = Log::new();
    set.dispatch("+- hello!world?", &mut log).unwrap();
    assert_eq!(calls_of(&set, &log, "plus_minus"), vec!["hello!world?"]);
}

#[test]
fn test_sequential_dispatch() {
    let set = demo_set();
    let mut log = Log::new();

    assert!(set.dispatch("!+ one", &mut log).is_ok());
    assert!(set.dispatch("++ two", &mut log).is_ok());
    assert!(set.dispatch("-- three", &mut log).is_ok());
    assert!(set.dispatch("#? four", &mut log).is_ok());

    assert_eq!(calls_of(&set, &log, "bang_plus"), vec!["one"]);
    assert_eq!(calls_of(&set, &log, "plus_plus"), vec!["two"]);
    assert_eq!(calls_of(&set, &log, "minus_minus"), vec!["three"]);
    assert_eq!(calls_of(&set, &log, "hash_question"), vec!["four"]);
}

#[test]
fn test_unicode_parameters() {
    let set = demo_set();
    let mut log = Log::new();

    set.dispatch("!+ 你好", &mut log).unwrap();
    assert_eq!(calls_of(&set, &log, "bang_plus"), vec!["你好"]);

    let mut log = Log::new();
    set.dispatch("?? 🚀💻", &mut log).unwrap();
    assert_eq!(calls_of(&set, &log, "question_question"), vec!["🚀💻"]);
}

#[test]
fn test_empty_vs_no_parameter() {
    let set = demo_set();
    let mut log = Log::new();

    set.dispatch("!+", &mut log).unwrap();
    assert_eq!(calls_of(&set, &log, "bang_plus"), vec![""]);

    let mut log = Log::new();
    set.dispatch("!+   ", &mut log).unwrap();
    assert_eq!(calls_of(&set, &log, "bang_plus"), vec![""]);
}
