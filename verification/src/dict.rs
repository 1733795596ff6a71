//! The pronunciation dictionary: the tones of each word it knows.

use crate::text::same_text;
use vstd::prelude::*;

verus! {

/// The tone of a syllable. Its class is the number by which dictionaries
/// write it, 1 to 5, where 5 is the neutral tone.
#[derive(Clone, Copy, Debug, PartialEq, Eq, Structural)]
pub enum Tone {
    First,
    Second,
    Third,
    Fourth,
    Neutral,
}

impl Tone {
    /// The class of the tone, 1 to 5.
    pub open spec fn class(self) -> int {
        match self {
            Tone::First => 1,
            Tone::Second => 2,
            Tone::Third => 3,
            Tone::Fourth => 4,
            Tone::Neutral => 5,
        }
    }

    /// The class of the tone as a digit.
    pub open spec fn digit(self) -> char {
        match self {
            Tone::First => '1',
            Tone::Second => '2',
            Tone::Third => '3',
            Tone::Fourth => '4',
            Tone::Neutral => '5',
        }
    }

    /// The tone whose class is written with the digit `c`, if there is one.
    pub open spec fn of_digit(c: char) -> Option<Tone> {
        if c == '1' {
            Some(Tone::First)
        } else if c == '2' {
            Some(Tone::Second)
        } else if c == '3' {
            Some(Tone::Third)
        } else if c == '4' {
            Some(Tone::Fourth)
        } else if c == '5' {
            Some(Tone::Neutral)
        } else {
            None
        }
    }

    /// The tone whose class is written with the digit `c`, if there is one.
    pub fn from_digit(c: char) -> (r: Option<Tone>)
        ensures
            r == Tone::of_digit(c),
    {
        if c == '1' {
            Some(Tone::First)
        } else if c == '2' {
            Some(Tone::Second)
        } else if c == '3' {
            Some(Tone::Third)
        } else if c == '4' {
            Some(Tone::Fourth)
        } else if c == '5' {
            Some(Tone::Neutral)
        } else {
            None
        }
    }

    /// The tone of class `n`, if `n` is a class.
    pub fn from_class(n: u8) -> (r: Option<Tone>)
        ensures
            1 <= n <= 5 ==> r is Some && r->0.class() == n,
            !(1 <= n <= 5) ==> r is None,
    {
        if n == 1 {
            Some(Tone::First)
        } else if n == 2 {
            Some(Tone::Second)
        } else if n == 3 {
            Some(Tone::Third)
        } else if n == 4 {
            Some(Tone::Fourth)
        } else if n == 5 {
            Some(Tone::Neutral)
        } else {
            None
        }
    }

    /// The class of the tone, 1 to 5.
    pub fn to_class(self) -> (n: u8)
        ensures
            n == self.class(),
    {
        match self {
            Tone::First => 1,
            Tone::Second => 2,
            Tone::Third => 3,
            Tone::Fourth => 4,
            Tone::Neutral => 5,
        }
    }

    /// The class of the tone as a digit.
    pub fn to_digit(self) -> (c: char)
        ensures
            c == self.digit(),
    {
        match self {
            Tone::First => '1',
            Tone::Second => '2',
            Tone::Third => '3',
            Tone::Fourth => '4',
            Tone::Neutral => '5',
        }
    }
}

/// One sense of a word: the tones of its characters, in order.
#[derive(Debug, PartialEq, Eq)]
pub struct Pronunciation {
    tones: Vec<Tone>,
}

impl View for Pronunciation {
    type V = Seq<Tone>;

    closed spec fn view(&self) -> Seq<Tone> {
        self.tones@
    }
}

impl DeepView for Pronunciation {
    type V = Seq<Tone>;

    open spec fn deep_view(&self) -> Seq<Tone> {
        self@
    }
}

impl Pronunciation {
    /// The sense with the given tones.
    pub fn new(tones: Vec<Tone>) -> (p: Pronunciation)
        ensures
            p@ == tones@,
    {
        Pronunciation { tones }
    }

    /// The number of tones.
    pub fn len(&self) -> (n: usize)
        ensures
            n == self@.len(),
    {
        self.tones.len()
    }

    /// The tone of the character at position `i`, if the sense has one.
    pub fn tone_at(&self, i: usize) -> (r: Option<Tone>)
        ensures
            r == tone_at(self@, i as int),
    {
        if i < self.tones.len() {
            Some(self.tones[i])
        } else {
            None
        }
    }
}

/// What a dictionary is to the contracts: the senses of each word it knows,
/// each sense as the tones of the word's characters.
pub type Lexicon = Map<Seq<char>, Seq<Seq<Tone>>>;

/// The tone at position `i` of `tones`, if there is one.
pub open spec fn tone_at(tones: Seq<Tone>, i: int) -> Option<Tone> {
    if 0 <= i < tones.len() {
        Some(tones[i])
    } else {
        None
    }
}

/// The senses that `lexicon` holds for `word`: none if it does not know it.
pub open spec fn senses_of(lexicon: Lexicon, word: Seq<char>) -> Seq<Seq<Tone>> {
    if lexicon.contains_key(word) {
        lexicon[word]
    } else {
        Seq::empty()
    }
}

#[derive(Debug)]
struct Entry {
    word: String,
    senses: Vec<Pronunciation>,
}

/// The place of `word` among the entries.
spec fn slot(entries: Seq<Entry>, word: Seq<char>) -> int {
    choose|i: int| 0 <= i < entries.len() && (#[trigger] entries[i]).word@ == word
}

/// Some entry is for `word`.
spec fn known(entries: Seq<Entry>, word: Seq<char>) -> bool {
    exists|i: int| 0 <= i < entries.len() && (#[trigger] entries[i]).word@ == word
}

/// No word has two entries, and no entry is without a sense.
spec fn well_formed(entries: Seq<Entry>) -> bool {
    &&& forall|i: int, j: int|
        0 <= i < j < entries.len() ==> (#[trigger] entries[i]).word@ != (
        #[trigger] entries[j]).word@
    &&& forall|i: int| 0 <= i < entries.len() ==> (#[trigger] entries[i]).senses.len() > 0
}

/// What the entries say: each word with its senses.
spec fn meaning(entries: Seq<Entry>) -> Lexicon {
    Map::new(
        |word: Seq<char>| known(entries, word),
        |word: Seq<char>| entries[slot(entries, word)].senses.deep_view(),
    )
}

/// One more sense in the entry at `i` is one more sense of its word, and
/// nothing else.
proof fn lemma_sense_added(before: Seq<Entry>, after: Seq<Entry>, i: int, sense: Seq<Tone>)
    requires
        well_formed(before),
        0 <= i < before.len(),
        after.len() == before.len(),
        forall|j: int| 0 <= j < before.len() && j != i ==> #[trigger] after[j] == before[j],
        after[i].word@ == before[i].word@,
        after[i].senses.deep_view() == before[i].senses.deep_view().push(sense),
    ensures
        well_formed(after),
        meaning(after) == meaning(before).insert(
            before[i].word@,
            senses_of(meaning(before), before[i].word@).push(sense),
        ),
{
    assert(after[i].senses.len() == after[i].senses.deep_view().len());
    assert forall|w: Seq<char>| known(before, w) implies known(after, w) by {
        assert(after[slot(before, w)].word@ == w);
    }
}

/// One more entry, for a word that had none, is that word with its one
/// sense, and nothing else.
proof fn lemma_entry_added(before: Seq<Entry>, after: Seq<Entry>, sense: Seq<Tone>)
    requires
        well_formed(before),
        after.len() == before.len() + 1,
        forall|j: int| 0 <= j < before.len() ==> #[trigger] after[j] == before[j],
        !known(before, after.last().word@),
        after.last().senses.deep_view() == seq![sense],
    ensures
        well_formed(after),
        meaning(after) == meaning(before).insert(
            after.last().word@,
            senses_of(meaning(before), after.last().word@).push(sense),
        ),
{
    assert(after.last().senses.len() == after.last().senses.deep_view().len());
    assert forall|w: Seq<char>| known(before, w) implies known(after, w) by {
        assert(after[slot(before, w)].word@ == w);
    }
}

/// The index of the entry for `word`, if there is one.
fn find(entries: &Vec<Entry>, word: &str) -> (r: Option<usize>)
    ensures
        match r {
            Some(i) => i < entries.len() && entries[i as int].word@ == word@,
            None => !known(entries@, word@),
        },
{
    let mut i: usize = 0;
    while i < entries.len()
        invariant
            i <= entries.len(),
            forall|j: int| 0 <= j < i ==> (#[trigger] entries[j]).word@ != word@,
        decreases entries.len() - i,
    {
        if same_text(entries[i].word.as_str(), word) {
            return Some(i);
        }
        i += 1;
    }
    None
}

/// A mapping from words to their senses. A word that the dictionary knows
/// has at least one sense, and its senses keep the order in which they came.
///
/// The words are looked through one by one: the dictionary is made for the
/// words of a deck, not for a whole lexicon.
#[derive(Debug)]
pub struct Dictionary {
    entries: Vec<Entry>,
}

impl View for Dictionary {
    type V = Lexicon;

    closed spec fn view(&self) -> Lexicon {
        meaning(self.entries@)
    }
}

impl Dictionary {
    #[verifier::type_invariant]
    spec fn inv(self) -> bool {
        well_formed(self.entries@)
    }

    /// A dictionary that knows no word.
    pub fn new() -> (dict: Dictionary)
        ensures
            dict@ == Lexicon::empty(),
    {
        let dict = Dictionary { entries: Vec::new() };
        dict
    }

    /// Adds a sense of `word` behind those that the dictionary has for it.
    pub fn insert(&mut self, word: &str, pronunciation: Pronunciation)
        ensures
            final(self)@ == old(self)@.insert(
                word@,
                senses_of(old(self)@, word@).push(pronunciation@),
            ),
    {
        proof {
            use_type_invariant(&*self);
        }
        let ghost before = self.entries@;
        let ghost sense = pronunciation@;
        let mut entries: Vec<Entry> = Vec::new();
        std::mem::swap(&mut entries, &mut self.entries);
        match find(&entries, word) {
            Some(i) => {
                let mut entry = entries.remove(i);
                entry.senses.push(pronunciation);
                entries.insert(i, entry);
                proof {
                    let grown = entries@[i as int].senses.deep_view();
                    assert(grown =~= before[i as int].senses.deep_view().push(sense));
                    lemma_sense_added(before, entries@, i as int, sense);
                }
            },
            None => {
                let mut senses: Vec<Pronunciation> = Vec::new();
                senses.push(pronunciation);
                entries.push(Entry { word: word.to_owned(), senses });
                proof {
                    assert(entries@.last().senses.deep_view() =~= seq![sense]);
                    lemma_entry_added(before, entries@, sense);
                }
            },
        }
        self.entries = entries;
    }

    /// The senses of `word`, in the order in which they came, or nothing if
    /// the dictionary does not know the word.
    pub fn lookup(&self, word: &str) -> (r: Option<&Vec<Pronunciation>>)
        ensures
            match r {
                Some(senses) => self@.contains_key(word@) && senses.deep_view() == self@[word@]
                    && senses.len() > 0,
                None => !self@.contains_key(word@),
            },
    {
        proof {
            use_type_invariant(self);
        }
        match find(&self.entries, word) {
            Some(i) => {
                assert(self.entries@[slot(self.entries@, word@)].word@ == word@);
                Some(&self.entries[i].senses)
            },
            None => None,
        }
    }
}

} // verus!
