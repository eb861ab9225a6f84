//! Behavior of the descriptor-driven dispatch engine.

use ushell::DispatchError;
use ushell::args::ArgStore;
use ushell::dispatch::CommandInvoker;
use ushell::registry::{Registry, ConfigError};
use ushell::tokenize::tokenize;

/// Records every invocation so tests can check what was called and with
/// what arguments.
struct Recorder {
    calls: Vec<(usize, Vec<String>, Vec<u64>, Vec<u8>)>,
}

impl Recorder {
    fn new() -> Recorder {
        Recorder { calls: Vec::new() }
    }
}

impl CommandInvoker for Recorder {
    fn invoke(&mut self, index: usize, args: &ArgStore) {
        self.calls.push((index, args.strs.clone(), args.u64s.clone(), args.u8s.clone()));
    }
}

fn groups(list: &[(&str, &[&str])]) -> Vec<(String, Vec<String>)> {
    list.iter()
        .map(|(d, fs)| (d.to_string(), fs.iter().map(|f| f.to_string()).collect()))
        .collect()
}

fn demo_registry() -> Registry {
    Registry::new(
        groups(&[
            ("b", &["single_u8"]),
            ("w", &["single_u16"]),
            ("d", &["single_u32"]),
            ("q", &["single_u64"]),
            ("B", &["single_i8"]),
            ("D", &["single_i32"]),
            ("t", &["single_bool"]),
            ("c", &["single_char"]),
            ("s", &["greet", "greet_again"]),
            ("ss", &["greet2"]),
            ("h", &["hextest"]),
            ("f", &["single_f32"]),
            ("F", &["single_f64"]),
            ("v", &["vtest"]),
            ("sqb", &["write"]),
        ]),
        32,
    )
    .unwrap()
}

// ==================== TOKENIZER ====================

#[test]
fn test_tokenize_quoting() {
    let toks = tokenize("cmd \"a b\" c", 10).unwrap();
    assert_eq!(toks, vec!["cmd".to_string(), "a b".to_string(), "c".to_string()]);

    assert_eq!(tokenize("", 10).unwrap_err(), DispatchError::Empty);
    assert_eq!(tokenize("   ", 10).unwrap_err(), DispatchError::Empty);
    assert_eq!(tokenize("\t\t", 10).unwrap_err(), DispatchError::Empty);

    let toks = tokenize("\"\"", 10).unwrap();
    assert_eq!(toks, vec!["".to_string()]);
}

#[test]
fn test_tokenize_edges() {
    // Unterminated quote: the rest of the line is the token.
    let toks = tokenize("cmd \"open ended", 10).unwrap();
    assert_eq!(toks, vec!["cmd".to_string(), "open ended".to_string()]);

    // A quoted token glued to another is swallowed with the closing quote.
    let toks = tokenize("\"first\"\"second\"", 10).unwrap();
    assert_eq!(toks, vec!["first".to_string()]);

    // Separated quoted tokens stay separate.
    let toks = tokenize("\"first\" \"second\"", 10).unwrap();
    assert_eq!(toks, vec!["first".to_string(), "second".to_string()]);

    // Trailing garbage glued to a closing quote is swallowed.
    let toks = tokenize("cmd \"a\"junk next", 10).unwrap();
    assert_eq!(toks, vec!["cmd".to_string(), "a".to_string(), "next".to_string()]);

    // Tokens beyond the cap are dropped silently.
    let toks = tokenize("a b c d e", 3).unwrap();
    assert_eq!(toks, vec!["a".to_string(), "b".to_string(), "c".to_string()]);
}

// ==================== INTEGER RADIX PARSING ====================

#[test]
fn test_u8_radix_parsing() {
    let reg = demo_registry();
    let mut rec = Recorder::new();
    assert!(reg.dispatch("single_u8 255", &mut rec).is_ok());
    assert!(reg.dispatch("single_u8 0xFF", &mut rec).is_ok());
    assert!(reg.dispatch("single_u8 0o377", &mut rec).is_ok());
    assert!(reg.dispatch("single_u8 0b11111111", &mut rec).is_ok());
    for call in rec.calls.iter() {
        assert_eq!(call.3, vec![255u8]);
    }

    assert_eq!(reg.dispatch("single_u8 256", &mut rec), Err(DispatchError::BadUnsigned));
    assert_eq!(reg.dispatch("single_u8 -1", &mut rec), Err(DispatchError::BadUnsigned));
}

#[test]
fn test_radix_prefix_case() {
    let reg = demo_registry();
    let mut rec = Recorder::new();
    assert!(reg.dispatch("single_u32 0X100", &mut rec).is_ok());
    assert!(reg.dispatch("single_u32 0O777", &mut rec).is_ok());
    assert!(reg.dispatch("single_u32 0B1010", &mut rec).is_ok());
    assert!(reg.dispatch("single_u32 4294967295", &mut rec).is_ok());
    assert_eq!(reg.dispatch("single_u32 4294967296", &mut rec), Err(DispatchError::BadUnsigned));
}

#[test]
fn test_signed_parsing() {
    let reg = demo_registry();
    let mut rec = Recorder::new();
    assert!(reg.dispatch("single_i8 -128", &mut rec).is_ok());
    assert!(reg.dispatch("single_i8 127", &mut rec).is_ok());
    assert!(reg.dispatch("single_i8 0x7F", &mut rec).is_ok());
    assert_eq!(reg.dispatch("single_i8 128", &mut rec), Err(DispatchError::BadSigned));
    assert_eq!(reg.dispatch("single_i8 -129", &mut rec), Err(DispatchError::BadSigned));
    assert!(reg.dispatch("single_i32 -2147483648", &mut rec).is_ok());
    assert!(reg.dispatch("single_i32 2147483647", &mut rec).is_ok());
    // The whole hex range of 32 bits overflows a signed 32-bit value.
    assert_eq!(reg.dispatch("single_i32 0xFFFFFFFF", &mut rec), Err(DispatchError::BadSigned));
}

// ==================== BOOLEAN PARSING ====================

#[test]
fn test_bool_parsing() {
    let reg = demo_registry();
    let mut rec = Recorder::new();
    assert!(reg.dispatch("single_bool true", &mut rec).is_ok());
    assert!(reg.dispatch("single_bool True", &mut rec).is_ok());
    assert!(reg.dispatch("single_bool TRUE", &mut rec).is_ok());
    assert!(reg.dispatch("single_bool 1", &mut rec).is_ok());
    assert!(reg.dispatch("single_bool false", &mut rec).is_ok());
    assert!(reg.dispatch("single_bool False", &mut rec).is_ok());
    assert!(reg.dispatch("single_bool FALSE", &mut rec).is_ok());
    assert!(reg.dispatch("single_bool 0", &mut rec).is_ok());
    assert_eq!(reg.dispatch("single_bool yes", &mut rec), Err(DispatchError::BadBool));
    assert_eq!(reg.dispatch("single_bool 2", &mut rec), Err(DispatchError::BadBool));
}

#[test]
fn test_bool_values_stored() {
    let reg = demo_registry();
    let k = reg.lookup("single_bool").unwrap();
    let (k2, store) = reg.dispatch_parse("single_bool True").unwrap();
    assert_eq!(k, k2);
    assert_eq!(store.bools, vec![true]);
    let (_, store) = reg.dispatch_parse("single_bool 0").unwrap();
    assert_eq!(store.bools, vec![false]);
}

// ==================== CHARACTERS AND FLOAT TOKENS ====================

#[test]
fn test_char_parsing() {
    let reg = demo_registry();
    let mut rec = Recorder::new();
    assert!(reg.dispatch("single_char a", &mut rec).is_ok());
    assert!(reg.dispatch("single_char @", &mut rec).is_ok());
    assert_eq!(reg.dispatch("single_char ab", &mut rec), Err(DispatchError::BadChar));
    assert_eq!(reg.dispatch("single_char \"\"", &mut rec), Err(DispatchError::BadChar));
}

#[test]
fn test_float_tokens() {
    let reg = demo_registry();
    let mut rec = Recorder::new();
    assert!(reg.dispatch("single_f32 3.14", &mut rec).is_ok());
    assert!(reg.dispatch("single_f32 1e10", &mut rec).is_ok());
    assert!(reg.dispatch("single_f64 -1.5e-5", &mut rec).is_ok());
    assert!(reg.dispatch("single_f64 inf", &mut rec).is_ok());
    assert!(reg.dispatch("single_f64 NaN", &mut rec).is_ok());
    assert_eq!(reg.dispatch("single_f32 notanumber", &mut rec), Err(DispatchError::BadFloat));
    assert_eq!(reg.dispatch("single_f64 1e", &mut rec), Err(DispatchError::BadFloat));
    assert_eq!(reg.dispatch("single_f64 .", &mut rec), Err(DispatchError::BadFloat));

    // The validated token reaches the store for the host to evaluate.
    let (_, store) = reg.dispatch_parse("single_f64 -1.5e-5").unwrap();
    assert_eq!(store.f64_toks, vec!["-1.5e-5".to_string()]);
    assert_eq!(store.f64_toks[0].parse::<f64>().unwrap(), -1.5e-5);
}

// ==================== HEX BYTE STRINGS ====================

#[test]
fn test_hex_decode() {
    let reg = demo_registry();
    let (_, store) = reg.dispatch_parse("hextest AABBCC").unwrap();
    assert_eq!(store.hexes, vec![vec![0xAAu8, 0xBB, 0xCC]]);

    let (_, store) = reg.dispatch_parse("hextest aabbcc").unwrap();
    assert_eq!(store.hexes, vec![vec![0xAAu8, 0xBB, 0xCC]]);

    let mut rec = Recorder::new();
    assert_eq!(reg.dispatch("hextest AAB", &mut rec), Err(DispatchError::BadHexStr));
    assert_eq!(reg.dispatch("hextest GGHHII", &mut rec), Err(DispatchError::BadHexStr));
    assert_eq!(reg.dispatch("hextest \"\"", &mut rec), Err(DispatchError::BadHexStr));

    // The decoded length is bounded by the configured maximum (32 here).
    let max_hex = "AA".repeat(32);
    assert!(reg.dispatch(&format!("hextest {}", max_hex), &mut rec).is_ok());
    let too_large = "AA".repeat(33);
    assert_eq!(
        reg.dispatch(&format!("hextest {}", too_large), &mut rec),
        Err(DispatchError::BadHexStr)
    );
}

// ==================== DISPATCH OUTCOMES ====================

#[test]
fn test_empty_input() {
    let reg = demo_registry();
    let mut rec = Recorder::new();
    assert_eq!(reg.dispatch("", &mut rec), Err(DispatchError::Empty));
    assert_eq!(reg.dispatch("   ", &mut rec), Err(DispatchError::Empty));
}

#[test]
fn test_unknown_function() {
    let reg = demo_registry();
    let mut rec = Recorder::new();
    assert_eq!(reg.dispatch("nonexistent 1 2 3", &mut rec), Err(DispatchError::UnknownFunction));
    assert_eq!(reg.dispatch("not_a_command", &mut rec), Err(DispatchError::UnknownFunction));
    // Names are case-sensitive.
    assert_eq!(reg.dispatch("Single_u8 1", &mut rec), Err(DispatchError::UnknownFunction));
}

#[test]
fn test_wrong_arity() {
    let reg = demo_registry();
    let mut rec = Recorder::new();
    assert_eq!(
        reg.dispatch("single_u32", &mut rec),
        Err(DispatchError::WrongArity { expected: 1 })
    );
    assert_eq!(
        reg.dispatch("single_u32 1 2", &mut rec),
        Err(DispatchError::WrongArity { expected: 1 })
    );
    assert_eq!(
        reg.dispatch("greet2 only", &mut rec),
        Err(DispatchError::WrongArity { expected: 2 })
    );
    assert_eq!(
        reg.dispatch("vtest extra", &mut rec),
        Err(DispatchError::WrongArity { expected: 0 })
    );
    // Far too many tokens are still a wrong arity, never a crash.
    assert_eq!(
        reg.dispatch("single_u32 1 2 3 4 5 6 7 8 9", &mut rec),
        Err(DispatchError::WrongArity { expected: 1 })
    );
}

#[test]
fn test_void_function() {
    let reg = demo_registry();
    let mut rec = Recorder::new();
    assert!(reg.dispatch("vtest", &mut rec).is_ok());
    assert_eq!(rec.calls.len(), 1);
}

#[test]
fn test_strings_reach_the_function() {
    let reg = demo_registry();
    let mut rec = Recorder::new();
    assert!(reg.dispatch("greet2 \"hello world\" unquoted", &mut rec).is_ok());
    assert_eq!(rec.calls[0].1, vec!["hello world".to_string(), "unquoted".to_string()]);
}

#[test]
fn test_scenario_write() {
    let reg = demo_registry();
    let mut rec = Recorder::new();
    let k = reg.lookup("write").unwrap();

    assert!(reg.dispatch("write \"log.txt\" 100 255", &mut rec).is_ok());
    assert_eq!(rec.calls.len(), 1);
    assert_eq!(rec.calls[0].0, k);
    assert_eq!(rec.calls[0].1, vec!["log.txt".to_string()]);
    assert_eq!(rec.calls[0].2, vec![100u64]);
    assert_eq!(rec.calls[0].3, vec![255u8]);

    assert_eq!(
        reg.dispatch("write \"log.txt\" 100 256", &mut rec),
        Err(DispatchError::BadUnsigned)
    );
    assert_eq!(rec.calls.len(), 1);
}

#[test]
fn test_dispatch_deterministic() {
    let reg = demo_registry();
    let mut rec = Recorder::new();
    let first = reg.dispatch("write \"log.txt\" 100 255", &mut rec);
    let second = reg.dispatch("write \"log.txt\" 100 255", &mut rec);
    assert_eq!(first, second);
    assert_eq!(rec.calls[0].0, rec.calls[1].0);
    assert_eq!(rec.calls[0].1, rec.calls[1].1);

    let e1 = reg.dispatch("single_u8 999", &mut rec);
    let e2 = reg.dispatch("single_u8 999", &mut rec);
    assert_eq!(e1, e2);
}

// ==================== REGISTRATION AND INTROSPECTION ====================

#[test]
fn test_registration_errors() {
    assert_eq!(
        Registry::new(groups(&[("s", &["dup"]), ("b", &["dup"])]), 32).unwrap_err(),
        ConfigError::DuplicateName
    );
    assert_eq!(
        Registry::new(groups(&[("s?", &["f"])]), 32).unwrap_err(),
        ConfigError::BadDescriptor
    );
    assert_eq!(
        Registry::new(groups(&[("", &["f"])]), 32).unwrap_err(),
        ConfigError::BadDescriptor
    );
    assert_eq!(
        Registry::new(groups(&[("vv", &["f"])]), 32).unwrap_err(),
        ConfigError::BadDescriptor
    );
    assert_eq!(Registry::new(groups(&[("s", &[""])]), 32).unwrap_err(), ConfigError::EmptyName);
}

#[test]
fn test_function_names_sorted() {
    let reg = demo_registry();
    let names = reg.get_function_names();
    assert!(names.len() > 0);
    for w in names.windows(2) {
        assert!(w[0] < w[1]);
    }
    assert!(names.contains(&"single_u32".to_string()));
    assert!(names.contains(&"vtest".to_string()));
}

#[test]
fn test_get_commands_pairs() {
    let reg = demo_registry();
    let pairs = reg.get_commands();
    assert!(pairs.iter().any(|(n, d)| n == "write" && d == "sqb"));
    assert!(pairs.iter().any(|(n, d)| n == "greet" && d == "s"));
    assert!(pairs.iter().any(|(n, d)| n == "greet_again" && d == "s"));
}

#[test]
fn test_sizing_counters() {
    let reg = demo_registry();
    assert_eq!(reg.max_arity, 3);
    assert!(reg.maxima.str_c >= 2);
    assert!(reg.maxima.u64_c >= 1);
    assert!(reg.maxima.u8_c >= 1);
    assert_eq!(reg.max_hex_len, 32);
}
