use std::collections::HashSet;
use std::str::FromStr;

use vain_purple_tiger::key::{derive_name, key_file_bytes, Key};
use vain_purple_tiger::network::{parse_network, Network};
use vain_purple_tiger::pattern::{
    handle_subcommands, letter_pattern, words_pattern, Command, NameMatcher, PatternError, Request,
};
use vain_purple_tiger::search::{
    examine, keys_per_second, worker_count, SearchError, SearchTally, WorkerStep,
};
use vain_purple_tiger::words::{decimal_text, split_name, Vocabulary};

fn some(s: &str) -> Option<String> {
    Some(String::from(s))
}

#[test]
fn network_tokens_ignore_case() {
    assert_eq!(parse_network("main"), Some(Network::MainNet));
    assert_eq!(parse_network("MainNet"), Some(Network::MainNet));
    assert_eq!(parse_network("TEST"), Some(Network::TestNet));
    assert_eq!(parse_network("testnet"), Some(Network::TestNet));
    assert_eq!(parse_network("devnet"), None);
    assert_eq!(parse_network(""), None);
    assert_eq!(parse_network("mainnet "), None);
}

#[test]
fn generated_addresses_are_valid_and_distinct() {
    for network in [Network::MainNet, Network::TestNet] {
        let mut seen = HashSet::new();
        for _ in 0..200 {
            let key = Key::generate(network);
            let public = helium_crypto::PublicKey::from_str(&key.address).expect("address parses");
            let expected = match network {
                Network::MainNet => helium_crypto::Network::MainNet,
                Network::TestNet => helium_crypto::Network::TestNet,
            };
            assert_eq!(public.network, expected);
            assert!(seen.insert(key.address.clone()));
        }
    }
}

#[test]
fn derive_name_is_repeatable() {
    let address = "112CuoXo7WCcp6GGwDNBo6H5nKXGH45UNJ39iEefdv2mwmnwdFt8";
    assert_eq!(derive_name(address), "feisty-glass-dalmatian");
    assert_eq!(derive_name(address), derive_name(address));
    let key = Key::generate(Network::MainNet);
    assert_eq!(derive_name(&key.address), key.name);
    assert_eq!(key.name.split('-').count(), 3);
}

#[test]
fn color_matcher_accepts_only_that_color() {
    let vocab = Vocabulary::standard();
    let pattern = words_pattern(&vocab, None, some("blue"), None).unwrap();
    assert_eq!(pattern, r"\w+-blue-\w+");
    let matcher = NameMatcher::new(&pattern).unwrap();
    assert_eq!(matcher.pattern(), r"\w+-blue-\w+");
    assert!(matcher.matches("feisty-blue-dalmatian"));
    assert!(!matcher.matches("feisty-red-dalmatian"));
}

#[test]
fn words_pattern_joins_all_words() {
    let vocab = Vocabulary::standard();
    let pattern = words_pattern(&vocab, some("feisty"), some("glass"), some("dalmatian")).unwrap();
    assert_eq!(pattern, "feisty-glass-dalmatian");
    let pattern = words_pattern(&vocab, None, None, some("corgi")).unwrap();
    assert_eq!(pattern, r"\w+-\w+-corgi");
    let pattern = words_pattern(&vocab, None, some("red"), None).unwrap();
    assert_eq!(pattern, r"\w+-red-\w+");
    let matcher = NameMatcher::new(&pattern).unwrap();
    assert!(matcher.matches("calm-red-corgi"));
    assert!(!matcher.matches("calm-blue-corgi"));
}

#[test]
fn words_pattern_errors() {
    let vocab = Vocabulary::standard();
    assert_eq!(words_pattern(&vocab, None, None, None), Err(PatternError::NoWords));
    assert_eq!(
        words_pattern(&vocab, some("purple"), some("blue"), None),
        Err(PatternError::InvalidAdjective)
    );
    assert_eq!(
        words_pattern(&vocab, some("feisty"), some("corgi"), None),
        Err(PatternError::InvalidColor)
    );
    assert_eq!(
        words_pattern(&vocab, None, some("blue"), some("blue")),
        Err(PatternError::InvalidAnimal)
    );
}

#[test]
fn letter_pattern_is_anchored() {
    assert_eq!(letter_pattern("a"), r"^a\w+-a\w+-a\w+$");
    let matcher = NameMatcher::new(&letter_pattern("b")).unwrap();
    assert!(matcher.matches("brave-blue-bear"));
    assert!(!matcher.matches("brave-blue-cat"));
    assert!(!matcher.matches("xbrave-blue-bear"));
}

#[test]
fn invalid_regex_is_rejected() {
    assert!(matches!(NameMatcher::new("(unclosed"), Err(PatternError::InvalidRegex)));
    let vocab = Vocabulary::standard();
    let r = handle_subcommands(Command::Regex { regex: String::from("[a-") }, &vocab);
    assert!(matches!(r, Err(PatternError::InvalidRegex)));
    let r = handle_subcommands(Command::Letter { letter: String::from("(") }, &vocab);
    assert!(matches!(r, Err(PatternError::InvalidRegex)));
    let r = handle_subcommands(
        Command::Words { adjective: None, color: some("nope"), animal: None },
        &vocab,
    );
    assert!(matches!(r, Err(PatternError::InvalidColor)));
}

#[test]
fn regex_command_keeps_pattern() {
    let vocab = Vocabulary::standard();
    match handle_subcommands(Command::Regex { regex: String::from("^x") }, &vocab) {
        Ok(Request::Search(m)) => assert_eq!(m.pattern(), "^x"),
        _ => panic!("expected a search"),
    }
}

#[test]
fn zero_workers_is_refused() {
    assert_eq!(worker_count(Some(0), 8), Err(SearchError::NoWorkers));
    assert_eq!(worker_count(None, 0), Err(SearchError::NoWorkers));
    assert_eq!(worker_count(Some(3), 8), Ok(3));
    assert_eq!(worker_count(None, 8), Ok(8));
}

#[test]
fn accept_all_matcher_finds_first_key() {
    let matcher = NameMatcher::new("").unwrap();
    let mut tally = SearchTally::new();
    let (key, matched) = examine(Network::TestNet, &matcher);
    assert!(matched);
    assert_eq!(tally.record(matched), WorkerStep::Report);
    assert!(matcher.matches(&key.name));
    for _ in 0..3 {
        let (_, matched) = examine(Network::TestNet, &matcher);
        assert_eq!(tally.record(matched), WorkerStep::Report);
    }
    assert_eq!(tally.examined(), 0);
}

#[test]
fn tally_counts_misses_until_match() {
    let mut tally = SearchTally::new();
    assert!(!tally.is_found());
    let events = [false, false, true, false, true, false];
    let mut steps = Vec::new();
    for e in events {
        steps.push(tally.record(e));
    }
    assert_eq!(
        steps,
        vec![
            WorkerStep::Continue,
            WorkerStep::Continue,
            WorkerStep::Report,
            WorkerStep::Stop,
            WorkerStep::Report,
            WorkerStep::Stop
        ]
    );
    assert_eq!(tally.examined(), 2);
    assert!(tally.is_found());
}

#[test]
fn one_result_per_search_with_many_matches() {
    for workers in 1..6u64 {
        let mut tally = SearchTally::new();
        let mut first_report = None;
        for round in 0..workers * 3 {
            let matched = round % 2 == 1;
            if tally.record(matched) == WorkerStep::Report && first_report.is_none() {
                first_report = Some(round);
            }
        }
        assert_eq!(first_report, Some(1));
        assert!(tally.is_found());
        assert_eq!(tally.examined(), 1);
        assert_eq!(tally.record(false), WorkerStep::Stop);
    }
}

#[test]
fn matching_key_is_reported_after_cancellation() {
    let mut tally = SearchTally::new();
    assert_eq!(tally.record(true), WorkerStep::Report);
    assert_eq!(tally.record(true), WorkerStep::Report);
    assert_eq!(tally.record(false), WorkerStep::Stop);
    assert_eq!(tally.examined(), 0);
}

#[test]
fn key_bytes_are_private_then_public() {
    assert_eq!(key_file_bytes(&vec![1, 2], &vec![3]), vec![1, 2, 3]);
    assert_eq!(key_file_bytes(&vec![], &vec![]), Vec::<u8>::new());
    let key = Key::generate(Network::MainNet);
    let bytes = key.to_bytes();
    let public = helium_crypto::PublicKey::from_str(&key.address).unwrap().to_vec();
    assert!(bytes.ends_with(&public));
    assert_eq!(public.len(), 33);
    assert_eq!(bytes.len(), 98);
    assert_eq!(&bytes[..65], &key.keypair.to_vec()[..]);
    assert_eq!(&bytes[65..], &key.keypair.public_key.to_vec()[..]);
}

#[test]
fn rate_divides_whole_seconds() {
    assert_eq!(keys_per_second(300, 30), Some(10));
    assert_eq!(keys_per_second(29, 30), Some(0));
    assert_eq!(keys_per_second(5, 0), None);
}

#[test]
fn split_name_takes_three_words() {
    assert_eq!(
        split_name("feisty-glass-dalmatian"),
        Some((String::from("feisty"), String::from("glass"), String::from("dalmatian")))
    );
    assert_eq!(split_name("feisty-glass"), None);
    assert_eq!(split_name("a-b-c-d"), None);
    assert_eq!(split_name(""), None);
    assert_eq!(split_name("--"), Some((String::new(), String::new(), String::new())));
}

#[test]
fn vocabulary_holds_derived_words_once() {
    let vocab = Vocabulary::standard();
    let name = derive_name("112CuoXo7WCcp6GGwDNBo6H5nKXGH45UNJ39iEefdv2mwmnwdFt8");
    assert_eq!(name, "feisty-glass-dalmatian");
    assert!(vocab.adjectives.iter().any(|w| w == "feisty"));
    assert!(vocab.colors.iter().any(|w| w == "glass"));
    assert!(vocab.animals.iter().any(|w| w == "dalmatian"));
    let mut seen = HashSet::new();
    assert!(vocab.colors.iter().all(|w| seen.insert(w.clone())));
    let small = Vocabulary::harvest(1);
    assert_eq!(small.adjectives.len(), 1);
    assert_eq!(small.colors.len(), 1);
    assert_eq!(small.animals.len(), 1);
}

#[test]
fn decimal_text_writes_digits() {
    assert_eq!(decimal_text(0), "0");
    assert_eq!(decimal_text(7), "7");
    assert_eq!(decimal_text(8191), "8191");
    assert_eq!(decimal_text(u64::MAX), "18446744073709551615");
}

#[test]
fn harvest_lists_words_of_each_sample() {
    let vocab = Vocabulary::harvest(50);
    for i in 0..50u64 {
        let name = derive_name(&i.to_string());
        let (a, c, n) = split_name(&name).unwrap();
        assert!(vocab.adjectives.contains(&a));
        assert!(vocab.colors.contains(&c));
        assert!(vocab.animals.contains(&n));
    }
}

#[test]
fn interleaved_stub_workers_count_within_bounds() {
    // Two workers, each testing three names of which only the third matches.
    for order in [[0usize, 0, 0, 1, 1, 1], [0, 1, 0, 1, 0, 1], [1, 0, 0, 1, 1, 0]] {
        let mut tally = SearchTally::new();
        let mut tested = [0u32; 2];
        let mut first = None;
        for (k, w) in order.iter().enumerate() {
            tested[*w] += 1;
            let matched = tested[*w] == 3;
            if tally.record(matched) == WorkerStep::Report && first.is_none() {
                first = Some(k);
            }
        }
        assert!(first.is_some());
        let examined = tally.examined();
        assert!((2..=4).contains(&examined));
    }
    let mut tally = SearchTally::new();
    for matched in [false, false, false, false, true] {
        tally.record(matched);
    }
    assert_eq!(tally.examined(), 4);
}
