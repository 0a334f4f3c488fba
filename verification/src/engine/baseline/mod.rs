//! Completion of the ASCII token before the cursor from a word list.

pub mod mixing;
pub mod scoring;
pub mod trie;

use crate::confidence::{completion_confidence, with_length_bonus, Confidence};
use crate::text::{
    all_ascii, ascii_lowercase, before_cursor, from_chars, lowercase_ascii, subvec,
    text_before_cursor, to_chars, trailing_token, trailing_token_chars,
};
use mixing::{maybe_prepend_space_for_mixed, mixed_spacing};
use scoring::{confidence_from_freq, gate_suggestion, passes_gate};
use trie::{bumped_freq, first_best, Entry, Trie};
use vstd::prelude::*;

verus! {

/// A proposed insertion at the cursor.
#[derive(Debug, Clone)]
pub struct Suggestion {
    /// The text to insert.
    pub suggestion: String,
    /// How sure the engine is of it.
    pub confidence: Confidence,
    /// The range of the context, in UTF-16 code units, that the suggestion
    /// replaces. It is empty and stands at the cursor: the suggestion is
    /// only inserted.
    pub replace_range: [usize; 2],
}

/// The baseline engine: a word list with frequencies.
#[derive(Debug)]
pub struct BaselineSuggestor {
    words: Trie,
}

/// The frequency of `w` after the `entries` were inserted in order into an
/// empty tree.
pub open spec fn inserted_frequency(entries: Seq<Entry>, w: Seq<char>) -> u32
    decreases entries.len(),
{
    if entries.len() == 0 {
        0
    } else if entries.last().0 == w {
        bumped_freq(inserted_frequency(entries.drop_last(), w), entries.last().1)
    } else {
        inserted_frequency(entries.drop_last(), w)
    }
}

/// The built-in word list.
pub open spec fn seed_words() -> Seq<Entry> {
    seq![
        ("world"@, 50u32),
        ("would"@, 30u32),
        ("work"@, 30u32),
        ("thanks"@, 40u32),
        ("thank"@, 25u32),
        ("there"@, 35u32),
        ("their"@, 20u32),
        ("because"@, 25u32),
        ("please"@, 30u32),
        ("tomorrow"@, 20u32),
        ("regards"@, 25u32),
    ]
}

/// The frequencies of the built-in list: each of its words has the
/// frequency that the list gives it, and no other word has any.
pub proof fn lemma_seed_frequencies()
    ensures
        inserted_frequency(seed_words(), "world"@) == 50,
        inserted_frequency(seed_words(), "would"@) == 30,
        inserted_frequency(seed_words(), "work"@) == 30,
        inserted_frequency(seed_words(), "thanks"@) == 40,
        inserted_frequency(seed_words(), "thank"@) == 25,
        inserted_frequency(seed_words(), "there"@) == 35,
        inserted_frequency(seed_words(), "their"@) == 20,
        inserted_frequency(seed_words(), "because"@) == 25,
        inserted_frequency(seed_words(), "please"@) == 30,
        inserted_frequency(seed_words(), "tomorrow"@) == 20,
        inserted_frequency(seed_words(), "regards"@) == 25,
        forall|w: Seq<char>|
            inserted_frequency(seed_words(), w) > 0 ==> exists|i: int|
                0 <= i < seed_words().len() && (#[trigger] seed_words()[i]).0 == w,
{
    reveal_strlit("world");
    reveal_strlit("would");
    reveal_strlit("work");
    reveal_strlit("thanks");
    reveal_strlit("thank");
    reveal_strlit("there");
    reveal_strlit("their");
    reveal_strlit("because");
    reveal_strlit("please");
    reveal_strlit("tomorrow");
    reveal_strlit("regards");
    let s11 = seed_words();
    let s10 = s11.drop_last();
    let s9 = s10.drop_last();
    let s8 = s9.drop_last();
    let s7 = s8.drop_last();
    let s6 = s7.drop_last();
    let s5 = s6.drop_last();
    let s4 = s5.drop_last();
    let s3 = s4.drop_last();
    let s2 = s3.drop_last();
    let s1 = s2.drop_last();
    let s0 = s1.drop_last();
    assert(s0.len() == 0);
    assert(s10.last() == s11[9] && s9.last() == s11[8] && s8.last() == s11[7]);
    assert(s7.last() == s11[6] && s6.last() == s11[5] && s5.last() == s11[4]);
    assert(s4.last() == s11[3] && s3.last() == s11[2] && s2.last() == s11[1]);
    assert(s1.last() == s11[0]);
    assert("world"@.len() == 5 && "world"@[2] == 'r' && "world"@[3] == 'l');
    assert("would"@.len() == 5 && "would"@[2] == 'u' && "would"@[3] == 'l');
    assert("work"@.len() == 4 && "work"@[2] == 'r' && "work"@[3] == 'k');
    assert("thanks"@.len() == 6 && "thanks"@[2] == 'a' && "thanks"@[3] == 'n');
    assert("thank"@.len() == 5 && "thank"@[2] == 'a' && "thank"@[3] == 'n');
    assert("there"@.len() == 5 && "there"@[2] == 'e' && "there"@[3] == 'r');
    assert("their"@.len() == 5 && "their"@[2] == 'e' && "their"@[3] == 'i');
    assert("because"@.len() == 7 && "because"@[2] == 'c' && "because"@[3] == 'a');
    assert("please"@.len() == 6 && "please"@[2] == 'e' && "please"@[3] == 'a');
    assert("tomorrow"@.len() == 8 && "tomorrow"@[2] == 'm' && "tomorrow"@[3] == 'o');
    assert("regards"@.len() == 7 && "regards"@[2] == 'g' && "regards"@[3] == 'a');
    assert forall|w: Seq<char>| inserted_frequency(s11, w) == (if w == "regards"@ {
        25u32
    } else if w == "tomorrow"@ {
        20u32
    } else if w == "please"@ {
        30u32
    } else if w == "because"@ {
        25u32
    } else if w == "their"@ {
        20u32
    } else if w == "there"@ {
        35u32
    } else if w == "thank"@ {
        25u32
    } else if w == "thanks"@ {
        40u32
    } else if w == "work"@ {
        30u32
    } else if w == "would"@ {
        30u32
    } else if w == "world"@ {
        50u32
    } else {
        0u32
    }) by {
        // The length and two characters tell the words of the list apart.
        let signature = (w.len(), w[2], w[3]);
        assert(inserted_frequency(s0, w) == 0);
        assert(inserted_frequency(s1, w) == if w == "world"@ { 50u32 } else { 0u32 });
        assert(inserted_frequency(s2, w) == if w == "would"@ { 30u32 } else { inserted_frequency(s1, w) });
        assert(inserted_frequency(s3, w) == if w == "work"@ { 30u32 } else { inserted_frequency(s2, w) });
        assert(inserted_frequency(s4, w) == if w == "thanks"@ { 40u32 } else { inserted_frequency(s3, w) });
        assert(inserted_frequency(s5, w) == if w == "thank"@ { 25u32 } else { inserted_frequency(s4, w) });
        assert(inserted_frequency(s6, w) == if w == "there"@ { 35u32 } else { inserted_frequency(s5, w) });
        assert(inserted_frequency(s7, w) == if w == "their"@ { 20u32 } else { inserted_frequency(s6, w) });
        assert(inserted_frequency(s8, w) == if w == "because"@ { 25u32 } else { inserted_frequency(s7, w) });
        assert(inserted_frequency(s9, w) == if w == "please"@ { 30u32 } else { inserted_frequency(s8, w) });
        assert(inserted_frequency(s10, w) == if w == "tomorrow"@ { 20u32 } else { inserted_frequency(s9, w) });
    }
    assert forall|w: Seq<char>| inserted_frequency(seed_words(), w) > 0 implies exists|i: int|
        0 <= i < seed_words().len() && (#[trigger] seed_words()[i]).0 == w by {
        let i: int = if w == "regards"@ {
            10
        } else if w == "tomorrow"@ {
            9
        } else if w == "please"@ {
            8
        } else if w == "because"@ {
            7
        } else if w == "their"@ {
            6
        } else if w == "there"@ {
            5
        } else if w == "thank"@ {
            4
        } else if w == "thanks"@ {
            3
        } else if w == "work"@ {
            2
        } else if w == "would"@ {
            1
        } else {
            0
        };
        assert(seed_words()[i].0 == w);
    }
}

/// Every word of the tree is made of seven-bit characters.
pub open spec fn ascii_vocabulary(words: Trie) -> bool {
    forall|w: Seq<char>| #[trigger] words.frequency(w) > 0 ==> all_ascii(w)
}

/// The token that is being typed: the run of word characters that ends at
/// the cursor.
pub open spec fn typed_token(context: Seq<char>, cursor: nat) -> Seq<char> {
    trailing_token(before_cursor(context, cursor))
}

/// `s`, cut after `max_len` characters where it is longer.
pub open spec fn clipped(s: Seq<char>, max_len: nat) -> Seq<char> {
    if s.len() > max_len {
        s.take(max_len as int)
    } else {
        s
    }
}

/// Inserts one word of the built-in list.
fn seed(words: &mut Trie, Ghost(done): Ghost<Seq<Entry>>, word: &str, freq: u32)
    requires
        all_ascii(word@),
        ascii_vocabulary(*old(words)),
        forall|w: Seq<char>| #[trigger] old(words).frequency(w) == inserted_frequency(done, w),
    ensures
        ascii_vocabulary(*final(words)),
        forall|w: Seq<char>| #[trigger]
            final(words).frequency(w) == inserted_frequency(done.push((word@, freq)), w),
{
    words.insert(word, freq);
    proof {
        let next = done.push((word@, freq));
        assert(next.drop_last() =~= done);
        assert(next.last() == (word@, freq));
        assert forall|w: Seq<char>| #[trigger]
            words.frequency(w) == inserted_frequency(next, w) by {
            assert(old(words).frequency(w) == inserted_frequency(done, w));
        }
        assert forall|w: Seq<char>| #[trigger] words.frequency(w) > 0 implies all_ascii(w) by {
            if w != word@ {
                assert(old(words).frequency(w) > 0);
            }
        }
    }
}

impl BaselineSuggestor {
    /// Every word of the list is made of seven-bit characters, so a
    /// completion can be cut at any byte.
    #[verifier::type_invariant]
    pub closed spec fn wf(self) -> bool {
        self.words.wf() && ascii_vocabulary(self.words)
    }

    /// The word list.
    pub closed spec fn vocabulary(self) -> Trie {
        self.words
    }

    /// The best completion of a token: the first word of greatest frequency
    /// that begins with the token in lower case.
    pub open spec fn best_word(self, token: Seq<char>) -> Option<Entry> {
        first_best(self.vocabulary().completions(ascii_lowercase(token)))
    }

    /// What the engine proposes for a context and a cursor: the rest of the
    /// best completion of the typed token, cut to `max_len`, with its
    /// confidence; nothing where no token is being typed, no word completes
    /// it, or the completion does not meet the conditions of `passes_gate`.
    pub open spec fn proposal(self, context: Seq<char>, cursor: nat, max_len: nat) -> Option<
        (Seq<char>, Confidence),
    > {
        let before = before_cursor(context, cursor);
        let token = typed_token(context, cursor);
        if token.len() == 0 {
            None
        } else {
            match self.best_word(token) {
                None => None,
                Some((word, freq)) => {
                    let suffix = clipped(word.skip(token.len() as int), max_len);
                    let confidence = completion_confidence(freq, token.len());
                    if passes_gate(token.len(), suffix.len(), confidence) {
                        Some((mixed_spacing(before, suffix), confidence))
                    } else {
                        None
                    }
                },
            }
        }
    }

    /// The word list of an engine is a well-formed tree of seven-bit words.
    pub proof fn lemma_vocabulary(self)
        requires
            self.wf(),
        ensures
            self.vocabulary().wf(),
            ascii_vocabulary(self.vocabulary()),
    {
    }

    /// The best completion of a token in terms of frequencies: a word that
    /// begins with the token in lower case, whose frequency no such word
    /// exceeds and no such word that it begins with reaches; there is none
    /// exactly when no word begins with the token.
    pub proof fn lemma_best_word(self, token: Seq<char>)
        requires
            self.vocabulary().wf(),
        ensures
            self.best_word_is_best(token),
    {
        self.vocabulary().lemma_best(ascii_lowercase(token));
    }

    /// What [`lemma_best_word`] states of the best completion of a token.
    ///
    /// [`lemma_best_word`]: BaselineSuggestor::lemma_best_word
    pub open spec fn best_word_is_best(self, token: Seq<char>) -> bool {
        match self.best_word(token) {
            Some((word, freq)) => {
                &&& ascii_lowercase(token).is_prefix_of(word)
                &&& freq > 0
                &&& self.vocabulary().frequency(word) == freq
                &&& forall|v: Seq<char>|
                    ascii_lowercase(token).is_prefix_of(v) ==> #[trigger]
                        self.vocabulary().frequency(v) <= freq
                &&& forall|v: Seq<char>|
                    ascii_lowercase(token).is_prefix_of(v) && trie::proper_prefix(v, word)
                        ==> #[trigger] self.vocabulary().frequency(v) < freq
            },
            None => forall|v: Seq<char>|
                ascii_lowercase(token).is_prefix_of(v) ==> #[trigger]
                    self.vocabulary().frequency(v) == 0,
        }
    }

    /// The engine with the built-in word list.
    pub fn new() -> (s: BaselineSuggestor)
        ensures
            s.wf(),
            s.vocabulary().wf(),
            ascii_vocabulary(s.vocabulary()),
            forall|w: Seq<char>| #[trigger]
                s.vocabulary().frequency(w) == inserted_frequency(seed_words(), w),
    {
        let mut words = Trie::default();
        let ghost mut done = Seq::<Entry>::empty();
        proof {
            reveal_strlit("world");
            reveal_strlit("would");
            reveal_strlit("work");
            reveal_strlit("thanks");
            reveal_strlit("thank");
            reveal_strlit("there");
            reveal_strlit("their");
            reveal_strlit("because");
            reveal_strlit("please");
            reveal_strlit("tomorrow");
            reveal_strlit("regards");
        }
        seed(&mut words, Ghost(done), "world", 50);
        proof {
            done = done.push(("world"@, 50u32));
        }
        seed(&mut words, Ghost(done), "would", 30);
        proof {
            done = done.push(("would"@, 30u32));
        }
        seed(&mut words, Ghost(done), "work", 30);
        proof {
            done = done.push(("work"@, 30u32));
        }
        seed(&mut words, Ghost(done), "thanks", 40);
        proof {
            done = done.push(("thanks"@, 40u32));
        }
        seed(&mut words, Ghost(done), "thank", 25);
        proof {
            done = done.push(("thank"@, 25u32));
        }
        seed(&mut words, Ghost(done), "there", 35);
        proof {
            done = done.push(("there"@, 35u32));
        }
        seed(&mut words, Ghost(done), "their", 20);
        proof {
            done = done.push(("their"@, 20u32));
        }
        seed(&mut words, Ghost(done), "because", 25);
        proof {
            done = done.push(("because"@, 25u32));
        }
        seed(&mut words, Ghost(done), "please", 30);
        proof {
            done = done.push(("please"@, 30u32));
        }
        seed(&mut words, Ghost(done), "tomorrow", 20);
        proof {
            done = done.push(("tomorrow"@, 20u32));
        }
        seed(&mut words, Ghost(done), "regards", 25);
        proof {
            done = done.push(("regards"@, 25u32));
            assert(done =~= seed_words());
            use_type_invariant(&words);
        }
        BaselineSuggestor { words }
    }

    /// Proposes a completion of the token that ends at the cursor.
    ///
    /// `cursor_utf16` counts UTF-16 code units of `context`; `max_len` bounds
    /// the completion in bytes, which for the seven-bit words of the list are
    /// characters.
    pub fn suggest_utf16(&self, context: &str, cursor_utf16: usize, max_len: usize) -> (r: Option<
        Suggestion,
    >)
        ensures
            match r {
                Some(s) => self.proposal(context@, cursor_utf16 as nat, max_len as nat) == Some(
                    (s.suggestion@, s.confidence),
                ),
                None => self.proposal(context@, cursor_utf16 as nat, max_len as nat) is None,
            },
            self.vocabulary().wf(),
            ascii_vocabulary(self.vocabulary()),
            self.best_word_is_best(typed_token(context@, cursor_utf16 as nat)),
            typed_token(context@, cursor_utf16 as nat).len() == 0 ==> r is None,
            typed_token(context@, cursor_utf16 as nat).len() < 2 ==> r is None,
            r is Some <==> {
                &&& typed_token(context@, cursor_utf16 as nat).len() >= 2
                &&& self.best_word(typed_token(context@, cursor_utf16 as nat)) matches Some(
                    (word, freq),
                ) && clipped(
                    word.skip(typed_token(context@, cursor_utf16 as nat).len() as int),
                    max_len as nat,
                ).len() >= 1
            },
            r matches Some(s) ==> {
                &&& s.replace_range@[0] == cursor_utf16
                &&& s.replace_range@[1] == cursor_utf16
                &&& s.confidence.wf()
                &&& s.confidence.at_least(1, 2)
                &&& s.confidence.num * 100 <= 99 * s.confidence.den
                &&& 1 <= s.suggestion@.len() <= max_len
                &&& all_ascii(s.suggestion@)
                &&& self.best_word(typed_token(context@, cursor_utf16 as nat)) matches Some(
                    (word, freq),
                ) && s.suggestion@ == clipped(
                    word.skip(typed_token(context@, cursor_utf16 as nat).len() as int),
                    max_len as nat,
                )
            },
    {
        proof {
            use_type_invariant(self);
            self.lemma_best_word(typed_token(context@, cursor_utf16 as nat));
        }
        let before = text_before_cursor(context, cursor_utf16);
        let token = trailing_token_chars(&before);
        let token_len = token.len();
        if token_len == 0 {
            return None;
        }
        let lowered = from_chars(&lowercase_ascii(&token));
        let (best_word, freq) = match self.words.best_completion(lowered.as_str()) {
            Some(found) => found,
            None => {
                return None;
            },
        };
        let word = to_chars(best_word.as_str());
        if word.len() < token_len {
            return None;
        }
        let mut suffix = subvec(&word, token_len, word.len());
        if suffix.len() > max_len {
            suffix = subvec(&suffix, 0, max_len);
        }
        let confidence = with_length_bonus(confidence_from_freq(freq), token_len);
        proof {
            crate::confidence::lemma_completion_confidence(freq, token_len as nat);
        }
        if !gate_suggestion(token_len, suffix.len(), confidence) {
            return None;
        }
        proof {
            assert(all_ascii(word@));
            assert(all_ascii(suffix@));
        }
        let suggestion = maybe_prepend_space_for_mixed(
            from_chars(&before).as_str(),
            from_chars(&suffix),
        );
        Some(Suggestion { suggestion, confidence, replace_range: [cursor_utf16, cursor_utf16] })
    }
}

impl Default for BaselineSuggestor {
    /// The engine with an empty word list, which proposes nothing.
    fn default() -> (s: BaselineSuggestor)
        ensures
            s.wf(),
            s.vocabulary().wf(),
            ascii_vocabulary(s.vocabulary()),
            forall|w: Seq<char>| #[trigger] s.vocabulary().frequency(w) == 0,
    {
        BaselineSuggestor { words: Trie::default() }
    }
}

/// The token that is being typed at the end of `before`: the longest run of
/// ASCII letters, digits and underscores that ends there, and its length in
/// bytes. Both are empty where `before` does not end in such a character.
pub fn last_ascii_token_prefix(before: &str) -> (r: (String, usize))
    ensures
        r.0@ == trailing_token(before@),
        r.1 == r.0@.len(),
        all_ascii(r.0@),
        r.1 == 0 <==> !mixing::ends_in_word_char(before@),
{
    let chars = to_chars(before);
    let token = trailing_token_chars(&chars);
    let len = token.len();
    (from_chars(&token), len)
}

} // verus!
