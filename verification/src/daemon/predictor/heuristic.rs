//! The heuristic engine: two small phrase tables and a few patterns.
//!
//! It needs no model, never fails, and is what the router falls back on.

use crate::confidence::Confidence;
use crate::daemon::predictor::{EngineError, PredictionDraft, PredictionDraftView, PredictorEngine};
use crate::daemon::protocol::{
    Language, PredictMode, PredictRequest, PredictRequestView, PredictionSource,
};
use crate::text::{
    blank, ends_with, from_chars, is_blank, starts_with, strip_end_chars, to_chars, trim_end,
    unicode_lowercase, CharClass,
};
use vstd::prelude::*;

verus! {

/// A table of phrases: what is written, and how it goes on.
pub type PhraseTable = Seq<(Seq<char>, Seq<char>)>;

/// The Chinese phrases.
pub open spec fn zh_next_table() -> PhraseTable {
    seq![
        ("你好"@, "，很高兴见到你"@),
        ("今天"@, "天气不错"@),
        ("我想"@, "要"@),
        ("我们"@, "可以先"@),
        ("谢谢"@, "你的帮助"@),
        ("请问"@, "现在方便吗"@),
    ]
}

/// The English phrases. The text is compared in lower case, so the entry
/// with a capital letter never applies.
pub open spec fn en_next_table() -> PhraseTable {
    seq![
        ("hello"@, ", how are you"@),
        ("thank"@, " you"@),
        ("let's"@, " start with"@),
        ("could"@, " you please"@),
        ("I need"@, " to"@),
        ("please"@, " help me"@),
    ]
}

/// How the first phrase of the table that `text` ends with goes on.
pub open spec fn phrase_after(table: PhraseTable, text: Seq<char>) -> Option<Seq<char>>
    decreases table.len(),
{
    if table.len() == 0 {
        None
    } else if table[0].0.is_suffix_of(text) {
        Some(table[0].1)
    } else {
        phrase_after(table.drop_first(), text)
    }
}

/// A text that ends with a key ends with the last characters of the key.
proof fn lemma_suffix_ends(key: Seq<char>, text: Seq<char>)
    requires
        key.is_suffix_of(text),
    ensures
        forall|k: int| 0 <= k < key.len() ==> #[trigger] key[key.len() - 1 - k] == text[text.len()
            - 1 - k],
{
    let piece = text.subrange(text.len() - key.len(), text.len() as int);
    assert forall|k: int| 0 <= k < key.len() implies #[trigger] key[key.len() - 1 - k]
        == text[text.len() - 1 - k] by {
        assert(piece[key.len() - 1 - k] == text[text.len() - 1 - k]);
    }
}

/// No text ends with two keys of the Chinese table, nor with two of the
/// English one: at most one phrase applies to a text, whatever the order of
/// the table.
pub proof fn lemma_keys_exclusive(text: Seq<char>, i: int, j: int)
    requires
        0 <= i < j < 6,
    ensures
        !(zh_next_table()[i].0.is_suffix_of(text) && zh_next_table()[j].0.is_suffix_of(text)),
        !(en_next_table()[i].0.is_suffix_of(text) && en_next_table()[j].0.is_suffix_of(text)),
{
    reveal_strlit("你好");
    reveal_strlit("今天");
    reveal_strlit("我想");
    reveal_strlit("我们");
    reveal_strlit("谢谢");
    reveal_strlit("请问");
    reveal_strlit("hello");
    reveal_strlit("thank");
    reveal_strlit("let's");
    reveal_strlit("could");
    reveal_strlit("I need");
    reveal_strlit("please");
    let zi = zh_next_table()[i].0;
    let zj = zh_next_table()[j].0;
    if zi.is_suffix_of(text) && zj.is_suffix_of(text) {
        lemma_suffix_ends(zi, text);
        lemma_suffix_ends(zj, text);
        assert(zi[zi.len() - 1 - 0] == text[text.len() - 1 - 0]);
        assert(zj[zj.len() - 1 - 0] == text[text.len() - 1 - 0]);
    }
    let ei = en_next_table()[i].0;
    let ej = en_next_table()[j].0;
    if ei.is_suffix_of(text) && ej.is_suffix_of(text) {
        lemma_suffix_ends(ei, text);
        lemma_suffix_ends(ej, text);
        assert(ei[ei.len() - 1 - 0] == text[text.len() - 1 - 0]);
        assert(ej[ej.len() - 1 - 0] == text[text.len() - 1 - 0]);
        assert(ei[ei.len() - 1 - 1] == text[text.len() - 1 - 1]);
        assert(ej[ej.len() - 1 - 1] == text[text.len() - 1 - 1]);
    }
}

/// The continuation of `prefix`; `lowered` is `prefix` in lower case.
///
/// Chinese: the phrase that the prefix, without trailing white space, ends
/// with; else one character after a final `我` or `想`; else nothing.
/// English: the phrase that the lowered prefix ends with; else nothing.
pub open spec fn next_ghost_text(language: Language, prefix: Seq<char>, lowered: Seq<char>) -> Seq<
    char,
> {
    match language {
        Language::Zh => match phrase_after(zh_next_table(), trim_end(prefix)) {
            Some(v) => v,
            None => if prefix.len() > 0 && prefix.last() == '我' {
                "们"@
            } else if prefix.len() > 0 && prefix.last() == '想' {
                "要"@
            } else {
                Seq::<char>::empty()
            },
        },
        Language::En => match phrase_after(en_next_table(), lowered) {
            Some(v) => v,
            None => Seq::<char>::empty(),
        },
    }
}

/// The two stock alternatives of a language.
pub open spec fn stock_candidates(language: Language) -> Seq<Seq<char>> {
    match language {
        Language::Zh => seq!["继续"@, "补充一下"@],
        Language::En => seq![" and"@, " with details"@],
    }
}

/// The draft of a continuation: the ghost text, followed by the stock
/// alternatives where it is not empty, at confidence 0.42.
pub open spec fn next_draft(language: Language, prefix: Seq<char>, lowered: Seq<char>) -> PredictionDraftView {
    let ghost_text = next_ghost_text(language, prefix, lowered);
    PredictionDraftView {
        ghost_text,
        candidates: if ghost_text.len() > 0 {
            seq![ghost_text] + stock_candidates(language)
        } else {
            Seq::<Seq<char>>::empty()
        },
        confidence: Confidence { num: 42, den: 100 },
        source: PredictionSource::LocalNext,
    }
}

/// What goes between `prefix` and `suffix`; the lowered texts are the two in
/// lower case, which the English patterns are compared with.
pub open spec fn fim_ghost_text(
    language: Language,
    prefix: Seq<char>,
    suffix: Seq<char>,
    lowered_prefix: Seq<char>,
    lowered_suffix: Seq<char>,
) -> Seq<char> {
    match language {
        Language::Zh => if "我"@.is_suffix_of(prefix) && "吃饭"@.is_prefix_of(suffix) {
            "们一起去"@
        } else if "今天"@.is_suffix_of(prefix) && "很好"@.is_prefix_of(suffix) {
            "心情"@
        } else if "这个"@.is_suffix_of(prefix) && "问题"@.is_prefix_of(suffix) {
            "技术"@
        } else {
            "先"@
        },
        Language::En => if "we"@.is_suffix_of(lowered_prefix) && "build"@.is_prefix_of(
            lowered_suffix,
        ) {
            " can"@
        } else if "please"@.is_suffix_of(lowered_prefix) && "review"@.is_prefix_of(
            lowered_suffix,
        ) {
            " quickly"@
        } else {
            " "@
        },
    }
}

/// The draft of a fill-in: the ghost text, alone among the candidates
/// unless it is blank, at confidence 0.38.
pub open spec fn fim_draft(
    language: Language,
    prefix: Seq<char>,
    suffix: Seq<char>,
    lowered_prefix: Seq<char>,
    lowered_suffix: Seq<char>,
) -> PredictionDraftView {
    let ghost_text = fim_ghost_text(language, prefix, suffix, lowered_prefix, lowered_suffix);
    PredictionDraftView {
        ghost_text,
        candidates: if blank(ghost_text) {
            Seq::<Seq<char>>::empty()
        } else {
            seq![ghost_text]
        },
        confidence: Confidence { num: 38, den: 100 },
        source: PredictionSource::LocalFim,
    }
}

/// What the heuristic engine proposes for a request in `mode`.
pub open spec fn heuristic_draft(request: PredictRequestView, mode: PredictMode) -> PredictionDraftView {
    match mode {
        PredictMode::Next => next_draft(
            request.language,
            request.prefix,
            unicode_lowercase(request.prefix),
        ),
        PredictMode::Fim => fim_draft(
            request.language,
            request.prefix,
            request.suffix,
            unicode_lowercase(request.prefix),
            unicode_lowercase(request.suffix),
        ),
    }
}

struct Phrase {
    key: Vec<char>,
    value: Vec<char>,
}

/// The engine.
pub struct HeuristicPredictor {
    zh_next: Vec<Phrase>,
    en_next: Vec<Phrase>,
}

spec fn table_view(phrases: Seq<Phrase>) -> PhraseTable {
    Seq::new(phrases.len(), |i: int| (phrases[i].key@, phrases[i].value@))
}

fn phrase(key: &str, value: &str) -> (p: Phrase)
    ensures
        p.key@ == key@,
        p.value@ == value@,
{
    Phrase { key: to_chars(key), value: to_chars(value) }
}

/// How the first phrase that `text` ends with goes on.
fn find_phrase(phrases: &Vec<Phrase>, text: &Vec<char>) -> (r: Option<Vec<char>>)
    ensures
        match r {
            Some(v) => phrase_after(table_view(phrases@), text@) == Some(v@),
            None => phrase_after(table_view(phrases@), text@) is None,
        },
{
    let ghost table = table_view(phrases@);
    let mut i: usize = 0;
    assert(table.skip(0) =~= table);
    while i < phrases.len()
        invariant
            i <= phrases@.len(),
            table == table_view(phrases@),
            phrase_after(table, text@) == phrase_after(table.skip(i as int), text@),
        decreases phrases@.len() - i,
    {
        assert(table.skip(i as int)[0] == table[i as int]);
        assert(table.skip(i as int).drop_first() =~= table.skip(i + 1));
        if ends_with(text, &phrases[i].key) {
            return Some(crate::text::subvec(&phrases[i].value, 0, phrases[i].value.len()));
        }
        i += 1;
    }
    None
}

fn text_of(s: &str) -> (v: Vec<String>)
    ensures
        v@.len() == 1,
        v@[0]@ == s@,
{
    let mut v: Vec<String> = Vec::new();
    v.push(s.to_owned());
    v
}

impl HeuristicPredictor {
    #[verifier::type_invariant]
    pub closed spec fn wf(self) -> bool {
        table_view(self.zh_next@) == zh_next_table() && table_view(self.en_next@)
            == en_next_table()
    }

    /// The engine with its phrase tables.
    pub fn new() -> (p: HeuristicPredictor)
        ensures
            p.wf(),
    {
        let mut zh_next: Vec<Phrase> = Vec::new();
        zh_next.push(phrase("你好", "，很高兴见到你"));
        zh_next.push(phrase("今天", "天气不错"));
        zh_next.push(phrase("我想", "要"));
        zh_next.push(phrase("我们", "可以先"));
        zh_next.push(phrase("谢谢", "你的帮助"));
        zh_next.push(phrase("请问", "现在方便吗"));
        let mut en_next: Vec<Phrase> = Vec::new();
        en_next.push(phrase("hello", ", how are you"));
        en_next.push(phrase("thank", " you"));
        en_next.push(phrase("let's", " start with"));
        en_next.push(phrase("could", " you please"));
        en_next.push(phrase("I need", " to"));
        en_next.push(phrase("please", " help me"));
        assert(table_view(zh_next@) =~= zh_next_table());
        assert(table_view(en_next@) =~= en_next_table());
        HeuristicPredictor { zh_next, en_next }
    }

    /// The continuation of `prefix`, given the prefix in lower case.
    pub fn next_from(&self, language: Language, prefix: &str, lowered_prefix: &str) -> (d:
        PredictionDraft)
        ensures
            d@ == next_draft(language, prefix@, lowered_prefix@),
    {
        proof {
            use_type_invariant(self);
        }
        let ghost_text: String = match language {
            Language::Zh => {
                let chars = to_chars(prefix);
                let trimmed = strip_end_chars(&chars, CharClass::Whitespace);
                match find_phrase(&self.zh_next, &trimmed) {
                    Some(v) => from_chars(&v),
                    None => {
                        if chars.len() > 0 && chars[chars.len() - 1] == '我' {
                            "们".to_owned()
                        } else if chars.len() > 0 && chars[chars.len() - 1] == '想' {
                            "要".to_owned()
                        } else {
                            String::new()
                        }
                    },
                }
            },
            Language::En => {
                let chars = to_chars(lowered_prefix);
                match find_phrase(&self.en_next, &chars) {
                    Some(v) => from_chars(&v),
                    None => String::new(),
                }
            },
        };
        let mut candidates: Vec<String> = Vec::new();
        if ghost_text.as_str().unicode_len() > 0 {
            candidates.push(ghost_text.clone());
            match language {
                Language::Zh => {
                    candidates.push("继续".to_owned());
                    candidates.push("补充一下".to_owned());
                },
                Language::En => {
                    candidates.push(" and".to_owned());
                    candidates.push(" with details".to_owned());
                },
            }
        }
        let d = PredictionDraft {
            ghost_text,
            candidates,
            confidence: Confidence::percent(42),
            source: PredictionSource::LocalNext,
        };
        assert(d@.candidates =~= next_draft(language, prefix@, lowered_prefix@).candidates);
        d
    }

    /// What goes between `prefix` and `suffix`, given both in lower case.
    pub fn fim_from(
        &self,
        language: Language,
        prefix: &str,
        suffix: &str,
        lowered_prefix: &str,
        lowered_suffix: &str,
    ) -> (d: PredictionDraft)
        ensures
            d@ == fim_draft(language, prefix@, suffix@, lowered_prefix@, lowered_suffix@),
    {
        let ghost_text: String = match language {
            Language::Zh => {
                let before = to_chars(prefix);
                let after = to_chars(suffix);
                if ends_with(&before, &to_chars("我")) && starts_with(&after, &to_chars("吃饭")) {
                    "们一起去".to_owned()
                } else if ends_with(&before, &to_chars("今天")) && starts_with(
                    &after,
                    &to_chars("很好"),
                ) {
                    "心情".to_owned()
                } else if ends_with(&before, &to_chars("这个")) && starts_with(
                    &after,
                    &to_chars("问题"),
                ) {
                    "技术".to_owned()
                } else {
                    "先".to_owned()
                }
            },
            Language::En => {
                let before = to_chars(lowered_prefix);
                let after = to_chars(lowered_suffix);
                if ends_with(&before, &to_chars("we")) && starts_with(&after, &to_chars("build")) {
                    " can".to_owned()
                } else if ends_with(&before, &to_chars("please")) && starts_with(
                    &after,
                    &to_chars("review"),
                ) {
                    " quickly".to_owned()
                } else {
                    " ".to_owned()
                }
            },
        };
        let candidates: Vec<String> = if is_blank(ghost_text.as_str()) {
            Vec::new()
        } else {
            text_of(ghost_text.as_str())
        };
        let d = PredictionDraft {
            ghost_text,
            candidates,
            confidence: Confidence::percent(38),
            source: PredictionSource::LocalFim,
        };
        assert(d@.candidates =~= fim_draft(
            language,
            prefix@,
            suffix@,
            lowered_prefix@,
            lowered_suffix@,
        ).candidates);
        d
    }

    /// The continuation of the request's prefix.
    pub fn predict_next(&self, request: &PredictRequest) -> (d: PredictionDraft)
        ensures
            d@ == heuristic_draft(request@, PredictMode::Next),
    {
        let lowered = request.prefix.as_str().to_lowercase();
        self.next_from(request.language, request.prefix.as_str(), lowered.as_str())
    }

    /// What goes between the request's prefix and suffix.
    pub fn predict_fim(&self, request: &PredictRequest) -> (d: PredictionDraft)
        ensures
            d@ == heuristic_draft(request@, PredictMode::Fim),
    {
        let lowered_prefix = request.prefix.as_str().to_lowercase();
        let lowered_suffix = request.suffix.as_str().to_lowercase();
        self.fim_from(
            request.language,
            request.prefix.as_str(),
            request.suffix.as_str(),
            lowered_prefix.as_str(),
            lowered_suffix.as_str(),
        )
    }
}

impl PredictorEngine for HeuristicPredictor {
    /// The heuristic proposal; it never fails.
    fn predict(&self, request: &PredictRequest, mode: PredictMode) -> (r: Result<
        PredictionDraft,
        EngineError,
    >)
        ensures
            r matches Ok(d) && d@ == heuristic_draft(request@, mode),
    {
        let draft = match mode {
            PredictMode::Next => self.predict_next(request),
            PredictMode::Fim => self.predict_fim(request),
        };
        Ok(draft)
    }
}

} // verus!
