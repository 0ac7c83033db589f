use vain_purple_tiger::key::Key;
use vain_purple_tiger::network::{parse_network, Network};
use vain_purple_tiger::pattern::{handle_subcommands, Command, NameMatcher, Request};
use vain_purple_tiger::search::{examine, worker_count, SearchTally, WorkerStep};
use vain_purple_tiger::words::Vocabulary;

fn matcher_for(cmd: Command) -> NameMatcher {
    match handle_subcommands(cmd, &Vocabulary::standard()) {
        Ok(Request::Search(m)) => m,
        Ok(Request::ShowLists) => panic!("expected a search"),
        Err(e) => panic!("bad request: {:?}", e),
    }
}

/// Runs the loop of each worker in turn against one shared tally and returns the first
/// key reported, with the count of rejected keys.
fn search(network: Network, workers: u64, matcher: &NameMatcher) -> (Key, u64) {
    let mut tally = SearchTally::new();
    loop {
        for _ in 0..workers {
            let (key, matched) = examine(network, matcher);
            match tally.record(matched) {
                WorkerStep::Report => return (key, tally.examined()),
                WorkerStep::Stop => panic!("no worker reported yet"),
                WorkerStep::Continue => {}
            }
        }
    }
}

fn words(adjective: Option<&str>, color: Option<&str>, animal: Option<&str>) -> Command {
    Command::Words {
        adjective: adjective.map(String::from),
        color: color.map(String::from),
        animal: animal.map(String::from),
    }
}

#[test]
fn all_params_succeeds() {
    let network = parse_network("test").unwrap();
    assert_eq!(network, Network::TestNet);
    let cpus = worker_count(Some(4), 1).unwrap();
    let matcher = matcher_for(words(None, Some("blue"), None));
    let (key, _) = search(network, cpus, &matcher);
    assert!(matcher.matches(&key.name));
    assert_eq!(key.name.split('-').nth(1), Some("blue"));
    let bytes = key.to_bytes();
    assert!(!bytes.is_empty());
}

#[test]
fn cmd_lists_succeeds() {
    let vocab = Vocabulary::standard();
    assert!(matches!(handle_subcommands(Command::Lists, &vocab), Ok(Request::ShowLists)));
    assert_eq!(vocab.adjectives.len(), 249);
    assert_eq!(vocab.colors.len(), 256);
    assert_eq!(vocab.animals.len(), 255);
}

#[test]
fn cmd_words_succeeds() {
    let network = parse_network("main").unwrap();
    let matcher = matcher_for(words(None, Some("blue"), None));
    let (key, _) = search(network, 1, &matcher);
    assert!(key.name.contains("-blue-"));
}

#[test]
fn cmd_regex_succeeds() {
    let matcher = matcher_for(Command::Regex { regex: String::from("[a-z]+-[a-z]+-[a-z]+") });
    let (key, _) = search(Network::MainNet, 1, &matcher);
    assert!(matcher.matches(&key.name));
}
