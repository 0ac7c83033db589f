use vstd::prelude::*;
use crate::key::{animal_name_of, derive_name};

verus! {

/// `w` holds no hyphen.
pub open spec fn no_dash(w: Seq<char>) -> bool {
    forall|k: int| 0 <= k < w.len() ==> w[k] != '-'
}

/// `name` is the three hyphen-free words `a`, `c` and `n` joined by hyphens.
pub open spec fn splits_into(name: Seq<char>, a: Seq<char>, c: Seq<char>, n: Seq<char>) -> bool {
    &&& no_dash(a)
    &&& no_dash(c)
    &&& no_dash(n)
    &&& name == a + seq!['-'] + c + seq!['-'] + n
}

/// Where the hyphens of a three-word name stand, and that the words are the pieces between.
proof fn lemma_dash_positions(name: Seq<char>, a: Seq<char>, c: Seq<char>, n: Seq<char>)
    requires
        splits_into(name, a, c, n),
    ensures
        name.len() == a.len() + c.len() + n.len() + 2,
        forall|k: int| 0 <= k < a.len() ==> name[k] != '-',
        name[a.len() as int] == '-',
        forall|k: int| a.len() < k < a.len() + 1 + c.len() ==> name[k] != '-',
        name[(a.len() + 1 + c.len()) as int] == '-',
        forall|k: int| a.len() + 1 + c.len() < k < name.len() ==> name[k] != '-',
        a == name.subrange(0, a.len() as int),
        c == name.subrange((a.len() + 1) as int, (a.len() + 1 + c.len()) as int),
        n == name.subrange((a.len() + c.len() + 2) as int, name.len() as int),
{
    let la = a.len() as int;
    let lc = c.len() as int;
    assert forall|k: int| 0 <= k < la implies name[k] != '-' by {
        assert(name[k] == a[k]);
    }
    assert forall|k: int| la < k < la + 1 + lc implies name[k] != '-' by {
        assert(name[k] == c[k - la - 1]);
    }
    assert forall|k: int| la + 1 + lc < k < name.len() implies name[k] != '-' by {
        assert(name[k] == n[k - la - lc - 2]);
    }
    assert(a =~= name.subrange(0, la));
    assert(c =~= name.subrange(la + 1, la + 1 + lc));
    assert(n =~= name.subrange(la + lc + 2, name.len() as int));
}

/// A name splits into three words in at most one way.
proof fn lemma_split_unique(
    name: Seq<char>,
    a: Seq<char>,
    c: Seq<char>,
    n: Seq<char>,
    a2: Seq<char>,
    c2: Seq<char>,
    n2: Seq<char>,
)
    requires
        splits_into(name, a, c, n),
        splits_into(name, a2, c2, n2),
    ensures
        a == a2 && c == c2 && n == n2,
{
    lemma_dash_positions(name, a, c, n);
    lemma_dash_positions(name, a2, c2, n2);
    if a.len() < a2.len() {
        assert(name[a.len() as int] != '-');
    }
    if a2.len() < a.len() {
        assert(name[a2.len() as int] != '-');
    }
    assert(a.len() == a2.len());
    if c.len() < c2.len() {
        assert(name[(a.len() + 1 + c.len()) as int] != '-');
    }
    if c2.len() < c.len() {
        assert(name[(a.len() + 1 + c2.len()) as int] != '-');
    }
}

/// The index of the first hyphen of `s` at or after `from`, or the length of `s`.
fn find_dash(s: &str, from: usize, len: usize) -> (r: usize)
    requires
        len == s@.len(),
        from <= len,
    ensures
        from <= r <= len,
        forall|k: int| from <= k < r ==> s@[k] != '-',
        r < len ==> s@[r as int] == '-',
{
    let mut i = from;
    while i < len
        invariant
            len == s@.len(),
            from <= i <= len,
            forall|k: int| from <= k < i ==> s@[k] != '-',
        decreases len - i,
    {
        if s.get_char(i) == '-' {
            return i;
        }
        i = i + 1;
    }
    i
}

/// Splits a name into its adjective, color and animal; `None` when it is not three
/// hyphen-joined words.
pub fn split_name(name: &str) -> (r: Option<(String, String, String)>)
    ensures
        r matches Some((a, c, n)) ==> splits_into(name@, a@, c@, n@),
        r is None ==> forall|a: Seq<char>, c: Seq<char>, n: Seq<char>|
            !splits_into(name@, a, c, n),
{
    let len = name.unicode_len();
    let i = find_dash(name, 0, len);
    if i == len {
        proof {
            assert forall|a: Seq<char>, c: Seq<char>, n: Seq<char>| !splits_into(name@, a, c, n) by {
                if splits_into(name@, a, c, n) {
                    lemma_dash_positions(name@, a, c, n);
                }
            }
        }
        return None;
    }
    let j = find_dash(name, i + 1, len);
    if j == len {
        proof {
            assert forall|a: Seq<char>, c: Seq<char>, n: Seq<char>| !splits_into(name@, a, c, n) by {
                if splits_into(name@, a, c, n) {
                    lemma_dash_positions(name@, a, c, n);
                    assert(i == a.len());
                }
            }
        }
        return None;
    }
    let k = find_dash(name, j + 1, len);
    if k != len {
        proof {
            assert forall|a: Seq<char>, c: Seq<char>, n: Seq<char>| !splits_into(name@, a, c, n) by {
                if splits_into(name@, a, c, n) {
                    lemma_dash_positions(name@, a, c, n);
                    assert(i == a.len());
                    assert(j == a.len() + 1 + c.len());
                }
            }
        }
        return None;
    }
    let a = name.substring_char(0, i).to_owned();
    let c = name.substring_char(i + 1, j).to_owned();
    let n = name.substring_char(j + 1, len).to_owned();
    proof {
        assert(no_dash(a@));
        assert(no_dash(c@));
        assert(no_dash(n@));
        assert(name@ =~= a@ + seq!['-'] + c@ + seq!['-'] + n@);
    }
    Some((a, c, n))
}

/// The words of a list.
pub open spec fn words_of(list: Seq<String>) -> Seq<Seq<char>> {
    list.map_values(|s: String| s@)
}

/// `word` is one of the entries of `list`.
pub open spec fn listed(list: Seq<String>, word: Seq<char>) -> bool {
    words_of(list).contains(word)
}

/// `list` with `word` added at the end, unless it is there already.
pub open spec fn with_word(list: Seq<Seq<char>>, word: Seq<char>) -> Seq<Seq<char>> {
    if list.contains(word) {
        list
    } else {
        list.push(word)
    }
}

/// Whether `word` is one of the entries of `list`.
pub fn is_listed(list: &Vec<String>, word: &String) -> (r: bool)
    ensures
        r == listed(list@, word@),
{
    let mut i: usize = 0;
    while i < list.len()
        invariant
            i <= list.len(),
            forall|j: int| 0 <= j < i ==> (#[trigger] list@[j])@ != word@,
        decreases list.len() - i,
    {
        if list[i] == *word {
            assert(words_of(list@)[i as int] == word@);
            return true;
        }
        i = i + 1;
    }
    assert(!words_of(list@).contains(word@)) by {
        if words_of(list@).contains(word@) {
            let j = choose|j: int| 0 <= j < words_of(list@).len() && words_of(list@)[j] == word@;
            assert(list@[j]@ == word@);
        }
    }
    false
}

/// Adds `word` to `list` unless it is there already.
fn add_word(list: &mut Vec<String>, word: String)
    ensures
        words_of(final(list)@) == with_word(words_of(old(list)@), word@),
{
    if !is_listed(list, &word) {
        let ghost before = list@;
        list.push(word);
        assert(words_of(list@) =~= words_of(before).push(word@));
    }
}

/// `word` is the adjective of some derived name.
pub open spec fn derived_adjective(word: Seq<char>) -> bool {
    exists|s: Seq<char>, c: Seq<char>, n: Seq<char>|
        #[trigger] splits_into(animal_name_of(s), word, c, n)
}

/// `word` is the color of some derived name.
pub open spec fn derived_color(word: Seq<char>) -> bool {
    exists|s: Seq<char>, a: Seq<char>, n: Seq<char>|
        #[trigger] splits_into(animal_name_of(s), a, word, n)
}

/// `word` is the animal of some derived name.
pub open spec fn derived_animal(word: Seq<char>) -> bool {
    exists|s: Seq<char>, a: Seq<char>, c: Seq<char>|
        #[trigger] splits_into(animal_name_of(s), a, c, word)
}

/// The decimal digit `d`, for `d < 10`.
pub open spec fn digit(d: nat) -> char {
    if d == 0 {
        '0'
    } else if d == 1 {
        '1'
    } else if d == 2 {
        '2'
    } else if d == 3 {
        '3'
    } else if d == 4 {
        '4'
    } else if d == 5 {
        '5'
    } else if d == 6 {
        '6'
    } else if d == 7 {
        '7'
    } else if d == 8 {
        '8'
    } else {
        '9'
    }
}

/// The decimal text of `n`, without leading zeros.
pub open spec fn decimal(n: nat) -> Seq<char>
    decreases n,
{
    if n < 10 {
        seq![digit(n)]
    } else {
        decimal(n / 10).push(digit(n % 10))
    }
}

/// Writes `n` in decimal.
pub fn decimal_text(n: u64) -> (r: String)
    ensures
        r@ == decimal(n as nat),
    decreases n,
{
    let d = n % 10;
    let last = if d == 0 {
        "0"
    } else if d == 1 {
        "1"
    } else if d == 2 {
        "2"
    } else if d == 3 {
        "3"
    } else if d == 4 {
        "4"
    } else if d == 5 {
        "5"
    } else if d == 6 {
        "6"
    } else if d == 7 {
        "7"
    } else if d == 8 {
        "8"
    } else {
        "9"
    };
    proof {
        reveal_strlit("0");
        reveal_strlit("1");
        reveal_strlit("2");
        reveal_strlit("3");
        reveal_strlit("4");
        reveal_strlit("5");
        reveal_strlit("6");
        reveal_strlit("7");
        reveal_strlit("8");
        reveal_strlit("9");
        assert(last@ =~= seq![digit(d as nat)]);
    }
    if n < 10 {
        last.to_owned()
    } else {
        let mut out = decimal_text(n / 10);
        out.append(last);
        proof {
            assert(out@ =~= decimal((n / 10) as nat).push(digit((n % 10) as nat)));
        }
        out
    }
}

/// Every word of the name derived from `text` is in its list.
pub open spec fn holds_words_of(v: &Vocabulary, text: Seq<char>) -> bool {
    forall|a: Seq<char>, c: Seq<char>, n: Seq<char>|
        #[trigger] splits_into(animal_name_of(text), a, c, n) ==> {
            &&& listed(v.adjectives@, a)
            &&& listed(v.colors@, c)
            &&& listed(v.animals@, n)
        }
}

/// A word stays listed when another is added.
proof fn lemma_with_word_contains(list: Seq<Seq<char>>, w: Seq<char>, x: Seq<char>)
    ensures
        with_word(list, w).contains(w),
        list.contains(x) ==> with_word(list, w).contains(x),
{
    if !list.contains(w) {
        assert(list.push(w)[list.len() as int] == w);
        if list.contains(x) {
            let k = choose|k: int| 0 <= k < list.len() && list[k] == x;
            assert(list.push(w)[k] == x);
        }
    }
}

/// The three word lists from which a name is drawn: an adjective, a color and an animal.
pub struct Vocabulary {
    pub adjectives: Vec<String>,
    pub colors: Vec<String>,
    pub animals: Vec<String>,
}

/// How many names `Vocabulary::standard` derives. Each slot of a name picks one of 256
/// list entries from a hash of the text, so a word is missed by this many samples only
/// with negligible probability; the tests check that the lists come out complete
/// (249, 256 and 255 distinct words).
pub const VOCABULARY_SAMPLES: u64 = 8192;

impl Vocabulary {
    /// Each list holds every word once, and only words that the name derivation uses in
    /// that slot.
    pub open spec fn wf(&self) -> bool {
        &&& words_of(self.adjectives@).no_duplicates()
        &&& words_of(self.colors@).no_duplicates()
        &&& words_of(self.animals@).no_duplicates()
        &&& forall|i: int| 0 <= i < self.adjectives@.len() ==> derived_adjective(#[trigger] self.adjectives@[i]@)
        &&& forall|i: int| 0 <= i < self.colors@.len() ==> derived_color(#[trigger] self.colors@[i]@)
        &&& forall|i: int| 0 <= i < self.animals@.len() ==> derived_animal(#[trigger] self.animals@[i]@)
    }

    /// Collects the words of the names derived from the decimal texts of `0..samples`,
    /// each word once, in the order in which they first appear.
    pub fn harvest(samples: u64) -> (r: Vocabulary)
        ensures
            r.wf(),
            forall|i: nat| i < samples ==> holds_words_of(&r, #[trigger] decimal(i)),
    {
        let mut v = Vocabulary { adjectives: Vec::new(), colors: Vec::new(), animals: Vec::new() };
        proof {
            assert(words_of(v.adjectives@) =~= Seq::<Seq<char>>::empty());
            assert(words_of(v.colors@) =~= Seq::<Seq<char>>::empty());
            assert(words_of(v.animals@) =~= Seq::<Seq<char>>::empty());
        }
        let mut i: u64 = 0;
        while i < samples
            invariant
                v.wf(),
                i <= samples,
                forall|j: nat| j < i ==> holds_words_of(&v, #[trigger] decimal(j)),
            decreases samples - i,
        {
            let ghost before = v;
            let text = decimal_text(i);
            let name = derive_name(text.as_str());
            match split_name(name.as_str()) {
                Some((a, c, n)) => {
                    proof {
                        assert(splits_into(animal_name_of(text@), a@, c@, n@));
                    }
                    let ghost old_v = v;
                    add_word(&mut v.adjectives, a);
                    add_word(&mut v.colors, c);
                    add_word(&mut v.animals, n);
                    proof {
                        lemma_with_word_contains(words_of(old_v.adjectives@), a@, a@);
                        lemma_with_word_contains(words_of(old_v.colors@), c@, c@);
                        lemma_with_word_contains(words_of(old_v.animals@), n@, n@);
                        assert forall|a2: Seq<char>, c2: Seq<char>, n2: Seq<char>|
                            splits_into(name@, a2, c2, n2) implies {
                            &&& listed(v.adjectives@, a2)
                            &&& listed(v.colors@, c2)
                            &&& listed(v.animals@, n2)
                        } by {
                            lemma_split_unique(name@, a@, c@, n@, a2, c2, n2);
                        }
                        lemma_with_word_keeps(old_v.adjectives@, v.adjectives@);
                        lemma_with_word_keeps(old_v.colors@, v.colors@);
                        lemma_with_word_keeps(old_v.animals@, v.animals@);
                        assert forall|k: int| 0 <= k < v.adjectives@.len() implies derived_adjective(
                            #[trigger] v.adjectives@[k]@,
                        ) by {
                            if k >= old_v.adjectives@.len() {
                                assert(words_of(v.adjectives@)[k] == v.adjectives@[k]@);
                            } else {
                                assert(words_of(v.adjectives@)[k] == words_of(old_v.adjectives@)[k]);
                                assert(words_of(old_v.adjectives@)[k] == old_v.adjectives@[k]@);
                            }
                        }
                        assert forall|k: int| 0 <= k < v.colors@.len() implies derived_color(
                            #[trigger] v.colors@[k]@,
                        ) by {
                            if k >= old_v.colors@.len() {
                                assert(words_of(v.colors@)[k] == v.colors@[k]@);
                            } else {
                                assert(words_of(v.colors@)[k] == words_of(old_v.colors@)[k]);
                                assert(words_of(old_v.colors@)[k] == old_v.colors@[k]@);
                            }
                        }
                        assert forall|k: int| 0 <= k < v.animals@.len() implies derived_animal(
                            #[trigger] v.animals@[k]@,
                        ) by {
                            if k >= old_v.animals@.len() {
                                assert(words_of(v.animals@)[k] == v.animals@[k]@);
                            } else {
                                assert(words_of(v.animals@)[k] == words_of(old_v.animals@)[k]);
                                assert(words_of(old_v.animals@)[k] == old_v.animals@[k]@);
                            }
                        }
                    }
                },
                None => {},
            }
            proof {
                assert forall|j: nat| j <= i implies holds_words_of(&v, #[trigger] decimal(j)) by {
                    assert forall|a: Seq<char>, c: Seq<char>, n: Seq<char>|
                        #[trigger] splits_into(animal_name_of(decimal(j)), a, c, n) implies {
                        &&& listed(v.adjectives@, a)
                        &&& listed(v.colors@, c)
                        &&& listed(v.animals@, n)
                    } by {
                        if j < i {
                            assert(holds_words_of(&before, decimal(j)));
                            lemma_listed_kept(before.adjectives@, v.adjectives@, a);
                            lemma_listed_kept(before.colors@, v.colors@, c);
                            lemma_listed_kept(before.animals@, v.animals@, n);
                        } else {
                            assert(splits_into(name@, a, c, n));
                        }
                    }
                }
            }
            i = i + 1;
        }
        v
    }

    /// The vocabulary that names are derived from.
    pub fn standard() -> (r: Vocabulary)
        ensures
            r.wf(),
            forall|i: nat| i < VOCABULARY_SAMPLES ==> holds_words_of(&r, #[trigger] decimal(i)),
    {
        Vocabulary::harvest(VOCABULARY_SAMPLES)
    }
}

/// A word listed before a `with_word` step is listed after it.
proof fn lemma_listed_kept(before: Seq<String>, after: Seq<String>, x: Seq<char>)
    requires
        after == before || exists|w: Seq<char>| words_of(after) == with_word(words_of(before), w),
    ensures
        listed(before, x) ==> listed(after, x),
{
    if after != before {
        let w = choose|w: Seq<char>| words_of(after) == with_word(words_of(before), w);
        lemma_with_word_contains(words_of(before), w, x);
    }
}

/// Adding a word that is not yet listed keeps the list free of repeats, and either way
/// keeps the old entries in place.
proof fn lemma_with_word_keeps(before: Seq<String>, after: Seq<String>)
    requires
        words_of(before).no_duplicates(),
        exists|w: Seq<char>| words_of(after) == with_word(words_of(before), w),
    ensures
        words_of(after).no_duplicates(),
        after.len() >= before.len(),
        forall|k: int| 0 <= k < before.len() ==> words_of(after)[k] == words_of(before)[k],
        after.len() > before.len() ==> after.len() == before.len() + 1,
{
    let w = choose|w: Seq<char>| words_of(after) == with_word(words_of(before), w);
    if !words_of(before).contains(w) {
        assert forall|x: int, y: int|
            0 <= x < words_of(after).len() && 0 <= y < words_of(after).len() && x != y
            implies words_of(after)[x] != words_of(after)[y] by {
            if x == before.len() as int {
                assert(words_of(before)[y] == words_of(after)[y]);
            } else if y == before.len() as int {
                assert(words_of(before)[x] == words_of(after)[x]);
            }
        }
    }
}

} // verus!
