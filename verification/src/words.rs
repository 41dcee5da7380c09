//! Splitting a text into its words and counting how often each word occurs.

use vstd::prelude::*;
use crate::strings::push_char;

verus! {

/// Whether a character is whitespace in the sense of `char::is_whitespace`,
/// that is, whether Unicode classes it as `White_Space`.
pub uninterp spec fn is_whitespace(c: char) -> bool;

/// Taken on trust of `char::is_whitespace`: its result depends on the
/// character alone, and is the one that `is_whitespace` names. Nothing is
/// claimed of which characters are whitespace.
pub assume_specification[ char::is_whitespace ](c: char) -> (white: bool)
    ensures
        white == is_whitespace(c),
;

/// The words of a text: its maximal runs of characters that are not
/// whitespace, from left to right. Whitespace separates words and belongs to
/// none, so a text without any other character has no words.
pub open spec fn words_of(text: Seq<char>) -> Seq<Seq<char>>
    decreases text.len(),
{
    if text.len() == 0 {
        Seq::empty()
    } else {
        let before = words_of(text.drop_last());
        if is_whitespace(text.last()) {
            before
        } else if ends_in_word(text.drop_last()) {
            before.drop_last().push(before.last().push(text.last()))
        } else {
            before.push(seq![text.last()])
        }
    }
}

/// Whether none of the characters of a text is whitespace.
pub open spec fn holds_no_whitespace(text: Seq<char>) -> bool {
    forall|i: int| 0 <= i < text.len() ==> !is_whitespace(#[trigger] text[i])
}

/// Whether the last character of a text belongs to a word.
pub open spec fn ends_in_word(text: Seq<char>) -> bool {
    text.len() > 0 && !is_whitespace(text.last())
}

/// Gathers words from characters that are handed to it one at a time, each
/// with the answer to the question whether it separates words.
pub struct WordSplitter {
    finished: Vec<String>,
    current: String,
}

impl WordSplitter {
    /// The words that were closed by a separator, in order.
    pub closed spec fn finished(&self) -> Seq<Seq<char>> {
        self.finished.deep_view()
    }

    /// The characters met since the last separator: a word that is still open,
    /// or nothing.
    pub closed spec fn current(&self) -> Seq<char> {
        self.current@
    }

    /// The words gathered so far, the open one included.
    pub open spec fn words(&self) -> Seq<Seq<char>> {
        if self.current().len() > 0 {
            self.finished().push(self.current())
        } else {
            self.finished()
        }
    }

    /// A splitter that has met no character.
    pub fn new() -> (splitter: WordSplitter)
        ensures
            splitter.finished() == Seq::<Seq<char>>::empty(),
            splitter.current() == Seq::<char>::empty(),
    {
        WordSplitter { finished: Vec::new(), current: String::new() }
    }

    /// Meets the next character. A separator closes the open word, if there
    /// is one, and is dropped; any other character is added to the open word.
    pub fn feed(&mut self, c: char, separates: bool)
        ensures
            !separates ==> final(self).finished() == old(self).finished() && final(self).current()
                == old(self).current().push(c),
            separates ==> final(self).finished() == old(self).words() && final(self).current()
                == Seq::<char>::empty(),
    {
        if !separates {
            push_char(&mut self.current, c);
        } else if !self.current.as_str().is_empty() {
            let mut word = String::new();
            core::mem::swap(&mut word, &mut self.current);
            self.finished.push(word);
        }
    }

    /// The words gathered: those that a separator closed, and behind them the
    /// open word, if there is one.
    pub fn finish(self) -> (words: Vec<String>)
        ensures
            words.deep_view() == self.words(),
    {
        let mut words = self.finished;
        if !self.current.as_str().is_empty() {
            words.push(self.current);
        }
        words
    }
}

/// What one character more does to the words of a text: whitespace leaves
/// them as they are, another character lengthens the last word where the text
/// ended in one, and starts a new word where it did not.
pub proof fn lemma_words_of_push(text: Seq<char>, c: char)
    ensures
        words_of(text.push(c)) == if is_whitespace(c) {
            words_of(text)
        } else if ends_in_word(text) {
            words_of(text).drop_last().push(words_of(text).last().push(c))
        } else {
            words_of(text).push(seq![c])
        },
        ends_in_word(text.push(c)) == !is_whitespace(c),
{
    assert(text.push(c).drop_last() =~= text);
}

/// Every word is a run of one or more characters, none of them whitespace;
/// and a text that ends in a word has a last word.
pub proof fn lemma_words_are_runs(text: Seq<char>)
    ensures
        forall|i: int| 0 <= i < words_of(text).len() ==> (#[trigger] words_of(text)[i]).len() > 0,
        forall|i: int|
            0 <= i < words_of(text).len() ==> holds_no_whitespace(#[trigger] words_of(text)[i]),
        ends_in_word(text) ==> words_of(text).len() > 0,
    decreases text.len(),
{
    if text.len() > 0 {
        let shorter = text.drop_last();
        let before = words_of(shorter);
        let now = words_of(text);
        lemma_words_are_runs(shorter);
        assert forall|i: int| 0 <= i < now.len() implies (#[trigger] now[i]).len() > 0 by {}
        assert forall|i: int| 0 <= i < now.len() implies holds_no_whitespace(
            #[trigger] now[i],
        ) by {}
    }
}

/// A text of one or more characters, none of them whitespace, is one word.
pub proof fn lemma_words_of_one_word(text: Seq<char>)
    ensures
        text.len() > 0 && holds_no_whitespace(text) ==> words_of(text) == seq![text],
    decreases text.len(),
{
    if text.len() > 0 && holds_no_whitespace(text) {
        let shorter = text.drop_last();
        assert(!is_whitespace(text[text.len() - 1]));
        if shorter.len() > 0 {
            lemma_words_of_one_word(shorter);
            assert forall|i: int| 0 <= i < shorter.len() implies !is_whitespace(
                #[trigger] shorter[i],
            ) by {
                assert(shorter[i] == text[i]);
            }
            assert(holds_no_whitespace(shorter));
            assert(seq![shorter].last().push(text.last()) =~= text);
        } else {
            assert(words_of(shorter) =~= Seq::<Seq<char>>::empty());
            assert(seq![text.last()] =~= text);
        }
    }
}

/// Whitespace parts a text: the words of two texts with a whitespace
/// character between them are the words of the first, then those of the
/// second.
pub proof fn lemma_words_of_separated(left: Seq<char>, separator: char, right: Seq<char>)
    ensures
        is_whitespace(separator) ==> words_of(left.push(separator) + right) == words_of(left)
            + words_of(right),
    decreases right.len(),
{
    let text = left.push(separator) + right;
    if is_whitespace(separator) && right.len() == 0 {
        assert(text.drop_last() =~= left);
    } else if is_whitespace(separator) {
        let shorter = right.drop_last();
        lemma_words_of_separated(left, separator, shorter);
        assert(text.drop_last() =~= left.push(separator) + shorter);
        if !is_whitespace(right.last()) && ends_in_word(shorter) {
            let joined = words_of(left) + words_of(shorter);
            assert(joined.drop_last() =~= words_of(left) + words_of(shorter).drop_last());
        }
    }
}

/// Splits a text at its whitespace and returns the words between, each as a
/// text of its own.
pub fn split_whitespace(text: &str) -> (words: Vec<String>)
    ensures
        words.deep_view() == words_of(text@),
{
    let mut splitter = WordSplitter::new();
    for c in iter: text.chars()
        invariant
            iter.seq() == text@,
            splitter.words() == words_of(text@.take(iter.index())),
            (splitter.current().len() > 0) == ends_in_word(text@.take(iter.index())),
    {
        let ghost seen = text@.take(iter.index());
        let ghost open = splitter.current();
        splitter.feed(c, c.is_whitespace());
        proof {
            assert(text@.take(iter.index() + 1) =~= seen.push(c));
            lemma_words_of_push(seen, c);
            if !ends_in_word(seen) {
                assert(open.push(c) =~= seq![c]);
            }
        }
    }
    proof {
        assert(text@.take(text@.len() as int) =~= text@);
    }
    splitter.finish()
}

/// A word together with the number of times it was met.
#[derive(Debug)]
pub struct WordCount {
    pub word: String,
    pub count: usize,
}

/// A mapping from words to counters, with one counter for each word that was
/// met.
pub struct WordCounts {
    entries: Vec<WordCount>,
}

/// Whether one of the entries holds `word`.
pub open spec fn holds_word(entries: Seq<WordCount>, word: Seq<char>) -> bool {
    exists|i: int| 0 <= i < entries.len() && (#[trigger] entries[i]).word@ == word
}

/// The place of an entry that holds `word`, where there is one.
pub open spec fn place_of(entries: Seq<WordCount>, word: Seq<char>) -> int {
    choose|i: int| 0 <= i < entries.len() && (#[trigger] entries[i]).word@ == word
}

/// The mapping that a list of entries stands for.
pub open spec fn counts_of(entries: Seq<WordCount>) -> Map<Seq<char>, nat> {
    Map::new(
        |word: Seq<char>| holds_word(entries, word),
        |word: Seq<char>| entries[place_of(entries, word)].count as nat,
    )
}

/// No two entries hold the same word.
pub open spec fn distinct_words(entries: Seq<WordCount>) -> bool {
    forall|i: int, j: int|
        0 <= i < j < entries.len() ==> (#[trigger] entries[i]).word@
            != (#[trigger] entries[j]).word@
}

/// What a mapping becomes when `word` is met once more: its counter starts at
/// zero if the word is new, and goes up by one.
pub open spec fn recorded(counts: Map<Seq<char>, nat>, word: Seq<char>) -> Map<Seq<char>, nat> {
    counts.insert(
        word,
        if counts.contains_key(word) {
            counts[word] + 1
        } else {
            1
        },
    )
}

/// How often each word of a list occurs in it. The words that do not occur
/// have no counter.
pub open spec fn frequencies(words: Seq<Seq<char>>) -> Map<Seq<char>, nat> {
    Map::new(
        |word: Seq<char>| words.contains(word),
        |word: Seq<char>| words.to_multiset().count(word),
    )
}

impl View for WordCounts {
    type V = Map<Seq<char>, nat>;

    closed spec fn view(&self) -> Map<Seq<char>, nat> {
        counts_of(self.entries@)
    }
}

/// The first place at which `word` stands among the entries, or their
/// number where it stands nowhere.
fn find(entries: &Vec<WordCount>, word: &String) -> (place: usize)
    ensures
        place <= entries@.len(),
        place < entries@.len() ==> entries@[place as int].word@ == word@,
        forall|i: int| 0 <= i < place ==> (#[trigger] entries@[i]).word@ != word@,
{
    let mut place: usize = 0;
    while place < entries.len()
        invariant
            place <= entries@.len(),
            forall|i: int| 0 <= i < place ==> (#[trigger] entries@[i]).word@ != word@,
        decreases entries@.len() - place,
    {
        if entries[place].word == *word {
            return place;
        }
        place += 1;
    }
    place
}

impl WordCounts {
    #[verifier::type_invariant]
    spec fn well_formed(self) -> bool {
        distinct_words(self.entries@)
    }

    /// A mapping without any word.
    pub fn new() -> (counts: WordCounts)
        ensures
            counts@ == Map::<Seq<char>, nat>::empty(),
    {
        WordCounts { entries: Vec::new() }
    }

    /// Checked lookup: the counter of `word`, or `None` where the word was
    /// never met.
    pub fn get(&self, word: &str) -> (count: Option<usize>)
        ensures
            self@.contains_key(word@) ==> count == Some(self@[word@] as usize),
            !self@.contains_key(word@) ==> count is None,
    {
        proof {
            use_type_invariant(self);
        }
        let sought = String::from_str(word);
        let place = find(&self.entries, &sought);
        if place < self.entries.len() {
            Some(self.entries[place].count)
        } else {
            None
        }
    }

    /// The entries of the mapping: one for each word, in no promised order.
    pub fn entries(&self) -> (entries: &Vec<WordCount>)
        ensures
            distinct_words(entries@),
            counts_of(entries@) == self@,
    {
        proof {
            use_type_invariant(self);
        }
        &self.entries
    }

    /// Meets `word` once more: obtains its counter, which starts at zero
    /// where the word is new, and adds one to it.
    pub fn record(&mut self, word: &str)
        requires
            old(self)@.contains_key(word@) ==> old(self)@[word@] < usize::MAX,
        ensures
            final(self)@ == recorded(old(self)@, word@),
    {
        proof {
            use_type_invariant(&*self);
        }
        let mut entries: Vec<WordCount> = Vec::new();
        core::mem::swap(&mut entries, &mut self.entries);
        let ghost before = entries@;
        let met = String::from_str(word);
        let place = find(&entries, &met);
        if place == entries.len() {
            entries.push(WordCount { word: met, count: 0 });
        }
        let counter = &mut entries[place];
        counter.count += 1;
        proof {
            let after = entries@;
            assert forall|i: int| 0 <= i < before.len() implies (#[trigger] after[i]).word@
                == before[i].word@ by {}
            assert forall|w: Seq<char>| holds_word(after, w) <==> w == word@ || holds_word(
                before,
                w,
            ) by {
                if holds_word(before, w) {
                    assert(after[place_of(before, w)].word@ == w);
                }
            }
            assert forall|w: Seq<char>| holds_word(before, w) implies place_of(after, w)
                == place_of(before, w) by {}
        }
        self.entries = entries;
    }
}

/// Counting one word more is recording it: the frequencies of a list that
/// grew by `word` are those of the list before, with `word` met once more.
pub proof fn lemma_frequencies_push(words: Seq<Seq<char>>, word: Seq<char>)
    ensures
        frequencies(words.push(word)) == recorded(frequencies(words), word),
{
    broadcast use vstd::seq_lib::group_to_multiset_ensures;

    let longer = words.push(word);
    assert forall|w: Seq<char>| longer.contains(w) <==> w == word || words.contains(w) by {
        if words.contains(w) {
            let i = choose|i: int| 0 <= i < words.len() && words[i] == w;
            assert(longer[i] == w);
        }
        assert(longer[words.len() as int] == word);
    }
}

/// No word occurs more often in a list than the list is long.
pub proof fn lemma_frequencies_bounded(words: Seq<Seq<char>>, word: Seq<char>)
    ensures
        frequencies(words).contains_key(word) ==> 1 <= frequencies(words)[word] <= words.len(),
{
    broadcast use vstd::seq_lib::group_to_multiset_ensures;

    vstd::multiset::axiom_count_le_len(words.to_multiset(), word);
}

/// Counts how often each word of a list occurs in it.
pub fn count_words(words: &Vec<String>) -> (counts: WordCounts)
    ensures
        counts@ == frequencies(words.deep_view()),
{
    let mut counts = WordCounts::new();
    for word in iter: words.iter()
        invariant
            iter.seq().len() == words@.len(),
            forall|i: int| 0 <= i < words@.len() ==> *iter.seq()[i] == words@[i],
            counts@ == frequencies(words.deep_view().take(iter.index())),
    {
        proof {
            let seen = words.deep_view().take(iter.index());
            assert(words.deep_view().take(iter.index() + 1) =~= seen.push(word@));
            lemma_frequencies_push(seen, word@);
            lemma_frequencies_bounded(seen, word@);
            assert(seen.len() < words.len());
        }
        counts.record(word.as_str());
    }
    proof {
        assert(words.deep_view().take(words@.len() as int) =~= words.deep_view());
    }
    counts
}

/// Counts how often each word of a text occurs in it, where the words are
/// what whitespace separates.
pub fn word_frequencies(text: &str) -> (counts: WordCounts)
    ensures
        counts@ == frequencies(words_of(text@)),
{
    let words = split_whitespace(text);
    count_words(&words)
}

} // verus!
