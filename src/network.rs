use vstd::prelude::*;

verus! {

/// The network a key is generated for; each one fixes the key's address encoding.
#[derive(Clone, Copy, Debug, PartialEq, Eq, Structural)]
pub enum Network {
    MainNet,
    TestNet,
}

/// `c` equals the lowercase ASCII letter `l` when case is ignored.
pub open spec fn char_matches_lower(c: char, l: char) -> bool {
    c == l || ('a' <= l && l <= 'z' && (c as u32) + 32 == (l as u32))
}

/// `token` spells the lowercase ASCII word `word` when case is ignored.
pub open spec fn token_is(token: Seq<char>, word: Seq<char>) -> bool {
    &&& token.len() == word.len()
    &&& forall|i: int| 0 <= i < token.len() ==> char_matches_lower(#[trigger] token[i], word[i])
}

/// The network that a command-line token names: "main" or "mainnet", "test" or
/// "testnet", in any case.
pub open spec fn network_of(token: Seq<char>) -> Option<Network> {
    if token_is(token, "main"@) || token_is(token, "mainnet"@) {
        Some(Network::MainNet)
    } else if token_is(token, "test"@) || token_is(token, "testnet"@) {
        Some(Network::TestNet)
    } else {
        None
    }
}

/// Compares `token` with the lowercase word `word`, ignoring the case of ASCII letters.
fn token_equals(token: &str, word: &str) -> (r: bool)
    ensures
        r == token_is(token@, word@),
{
    let n = token.unicode_len();
    if n != word.unicode_len() {
        return false;
    }
    let mut i: usize = 0;
    while i < n
        invariant
            n == token@.len(),
            n == word@.len(),
            i <= n,
            forall|j: int| 0 <= j < i ==> char_matches_lower(#[trigger] token@[j], word@[j]),
        decreases n - i,
    {
        let c = token.get_char(i);
        let l = word.get_char(i);
        let same = c == l || ('a' <= l && l <= 'z' && (c as u32) == (l as u32) - 32);
        if !same {
            assert(!char_matches_lower(token@[i as int], word@[i as int]));
            return false;
        }
        i = i + 1;
    }
    true
}

/// Reads a network token, case-insensitively; any other token is rejected with `None`.
pub fn parse_network(token: &str) -> (r: Option<Network>)
    ensures
        r == network_of(token@),
{
    if token_equals(token, "main") || token_equals(token, "mainnet") {
        Some(Network::MainNet)
    } else if token_equals(token, "test") || token_equals(token, "testnet") {
        Some(Network::TestNet)
    } else {
        None
    }
}

} // verus!
