//! Character classes and the small vocabulary of sequence operations that the
//! rest of the crate states its contracts in.
//!
//! Every text is modelled as its sequence of Unicode scalar values
//! (`Seq<char>`, the view of `str` and `String`). Executable code converts a
//! string to a `Vec<char>` once, works on that, and converts back.

use vstd::prelude::*;

verus! {

/// `String::push` appends one scalar value to the end of the string.
pub assume_specification[ String::push ](s: &mut String, ch: char)
    ensures
        final(s)@ == old(s)@.push(ch),
;

/// The name of what `str::to_lowercase` returns: the Unicode lowercase
/// mapping of a whole text, which depends on nothing but the text.
pub uninterp spec fn unicode_lowercase(s: Seq<char>) -> Seq<char>;

/// `str::to_lowercase` returns the Unicode lowercase form of the text.
pub assume_specification[ str::to_lowercase ](s: &str) -> (r: String)
    ensures
        r@ == unicode_lowercase(s@),
;

// ---------------------------------------------------------------------------
// Character classes
// ---------------------------------------------------------------------------

/// ASCII letters and digits.
pub open spec fn ascii_alphanumeric(c: char) -> bool {
    ('0' <= c && c <= '9') || ('A' <= c && c <= 'Z') || ('a' <= c && c <= 'z')
}

/// The characters of a completable token: ASCII letters, digits, underscore.
pub open spec fn word_char(c: char) -> bool {
    ascii_alphanumeric(c) || c == '_'
}

/// The code points that carry the Unicode `White_Space` property.
pub open spec fn white_space(c: char) -> bool {
    ('\u{9}' <= c && c <= '\u{D}') || c == ' ' || c == '\u{85}' || c == '\u{A0}' || c
        == '\u{1680}' || ('\u{2000}' <= c && c <= '\u{200A}') || c == '\u{2028}' || c
        == '\u{2029}' || c == '\u{202F}' || c == '\u{205F}' || c == '\u{3000}'
}

/// CJK Unified Ideographs, U+4E00 to U+9FFF.
pub open spec fn cjk_ideograph(c: char) -> bool {
    '\u{4E00}' <= c && c <= '\u{9FFF}'
}

/// Seven-bit characters.
pub open spec fn ascii(c: char) -> bool {
    c <= '\u{7F}'
}

/// A text all of whose characters are seven-bit; its length in UTF-8 bytes
/// is then its length in characters.
pub open spec fn all_ascii(s: Seq<char>) -> bool {
    forall|i: int| 0 <= i < s.len() ==> ascii(#[trigger] s[i])
}

/// ASCII lowercase of one character: `A`..`Z` move to `a`..`z`, every other
/// character stays.
pub open spec fn ascii_lower(c: char) -> char {
    if 'A' <= c && c <= 'Z' {
        ((c as u8) + 32) as char
    } else {
        c
    }
}

/// ASCII lowercase of a text, character by character.
pub open spec fn ascii_lowercase(s: Seq<char>) -> Seq<char> {
    Seq::new(s.len(), |i: int| ascii_lower(s[i]))
}

/// A set of characters that can be stripped from the ends of a text.
#[derive(Clone, Copy, Debug)]
pub enum CharClass {
    /// Unicode white space.
    Whitespace,
    /// ASCII letters, digits and underscore.
    Word,
    /// One given character.
    Only(char),
    /// Every character but the given one.
    Except(char),
}

impl CharClass {
    /// Whether `c` belongs to the class.
    pub open spec fn has(self, c: char) -> bool {
        match self {
            CharClass::Whitespace => white_space(c),
            CharClass::Word => word_char(c),
            CharClass::Only(d) => c == d,
            CharClass::Except(d) => c != d,
        }
    }

    /// Membership test.
    pub fn contains(&self, c: char) -> (b: bool)
        ensures
            b == self.has(c),
    {
        match self {
            CharClass::Whitespace => is_whitespace(c),
            CharClass::Word => is_word_char(c),
            CharClass::Only(d) => c == *d,
            CharClass::Except(d) => c != *d,
        }
    }
}

/// Whether `c` is Unicode white space.
pub fn is_whitespace(c: char) -> (b: bool)
    ensures
        b == white_space(c),
{
    (c >= '\u{9}' && c <= '\u{D}') || c == ' ' || c == '\u{85}' || c == '\u{A0}' || c
        == '\u{1680}' || (c >= '\u{2000}' && c <= '\u{200A}') || c == '\u{2028}' || c
        == '\u{2029}' || c == '\u{202F}' || c == '\u{205F}' || c == '\u{3000}'
}

/// Whether `c` is an ASCII letter or digit.
pub fn is_alphanumeric(c: char) -> (b: bool)
    ensures
        b == ascii_alphanumeric(c),
{
    (c >= '0' && c <= '9') || (c >= 'A' && c <= 'Z') || (c >= 'a' && c <= 'z')
}

/// Whether `c` is an ASCII letter, digit or underscore.
pub fn is_word_char(c: char) -> (b: bool)
    ensures
        b == word_char(c),
{
    is_alphanumeric(c) || c == '_'
}

/// Whether `c` is a CJK Unified Ideograph.
pub fn is_cjk(c: char) -> (b: bool)
    ensures
        b == cjk_ideograph(c),
{
    c >= '\u{4E00}' && c <= '\u{9FFF}'
}

/// ASCII lowercase of one character.
pub fn to_ascii_lower(c: char) -> (r: char)
    ensures
        r == ascii_lower(c),
{
    if c >= 'A' && c <= 'Z' {
        let u: u8 = c as u8;
        (u + 32) as char
    } else {
        c
    }
}

// ---------------------------------------------------------------------------
// Runs at the ends of a text
// ---------------------------------------------------------------------------

/// The number of characters at the start of `s` that belong to `class`.
pub open spec fn leading_run(s: Seq<char>, class: CharClass) -> nat
    decreases s.len(),
{
    if s.len() > 0 && class.has(s[0]) {
        1 + leading_run(s.drop_first(), class)
    } else {
        0
    }
}

/// The number of characters at the end of `s` that belong to `class`.
pub open spec fn trailing_run(s: Seq<char>, class: CharClass) -> nat
    decreases s.len(),
{
    if s.len() > 0 && class.has(s.last()) {
        1 + trailing_run(s.drop_last(), class)
    } else {
        0
    }
}

/// `s` without its leading run of `class`.
pub open spec fn strip_start(s: Seq<char>, class: CharClass) -> Seq<char> {
    s.skip(leading_run(s, class) as int)
}

/// `s` without its trailing run of `class`.
pub open spec fn strip_end(s: Seq<char>, class: CharClass) -> Seq<char> {
    s.take(s.len() - trailing_run(s, class))
}

/// `s` without its leading and trailing runs of `class`.
pub open spec fn strip(s: Seq<char>, class: CharClass) -> Seq<char> {
    strip_end(strip_start(s, class), class)
}

/// `s` without leading and trailing white space.
pub open spec fn trim(s: Seq<char>) -> Seq<char> {
    strip(s, CharClass::Whitespace)
}

/// `s` without trailing white space.
pub open spec fn trim_end(s: Seq<char>) -> Seq<char> {
    strip_end(s, CharClass::Whitespace)
}

/// Whether `s` is empty or white space only.
pub open spec fn blank(s: Seq<char>) -> bool {
    trim(s).len() == 0
}

/// The leading run is the longest prefix inside the class.
pub proof fn lemma_leading_run(s: Seq<char>, class: CharClass)
    ensures
        leading_run(s, class) <= s.len(),
        forall|i: int| 0 <= i < leading_run(s, class) ==> class.has(#[trigger] s[i]),
        leading_run(s, class) < s.len() ==> !class.has(s[leading_run(s, class) as int]),
    decreases s.len(),
{
    if s.len() > 0 && class.has(s[0]) {
        let t = s.drop_first();
        lemma_leading_run(t, class);
        assert forall|i: int| 0 <= i < leading_run(s, class) implies class.has(
            #[trigger] s[i],
        ) by {
            if i > 0 {
                assert(s[i] == t[i - 1]);
            }
        }
        if leading_run(s, class) < s.len() {
            assert(s[leading_run(s, class) as int] == t[leading_run(t, class) as int]);
        }
    }
}

/// A prefix inside the class that cannot be extended is the leading run.
pub proof fn lemma_leading_run_is(s: Seq<char>, class: CharClass, n: nat)
    requires
        n <= s.len(),
        forall|i: int| 0 <= i < n ==> class.has(#[trigger] s[i]),
        n < s.len() ==> !class.has(s[n as int]),
    ensures
        leading_run(s, class) == n,
    decreases s.len(),
{
    if n > 0 {
        let t = s.drop_first();
        assert(class.has(s[0]));
        assert forall|i: int| 0 <= i < n - 1 implies class.has(#[trigger] t[i]) by {
            assert(t[i] == s[i + 1]);
        }
        lemma_leading_run_is(t, class, (n - 1) as nat);
    }
}

/// The trailing run is the longest suffix inside the class.
pub proof fn lemma_trailing_run(s: Seq<char>, class: CharClass)
    ensures
        trailing_run(s, class) <= s.len(),
        forall|i: int|
            s.len() - trailing_run(s, class) <= i < s.len() ==> class.has(#[trigger] s[i]),
        trailing_run(s, class) < s.len() ==> !class.has(
            s[s.len() - trailing_run(s, class) - 1],
        ),
    decreases s.len(),
{
    if s.len() > 0 && class.has(s.last()) {
        let t = s.drop_last();
        lemma_trailing_run(t, class);
        assert forall|i: int| s.len() - trailing_run(s, class) <= i < s.len() implies class.has(
            #[trigger] s[i],
        ) by {
            if i < s.len() - 1 {
                assert(s[i] == t[i]);
            }
        }
        if trailing_run(s, class) < s.len() {
            assert(s[s.len() - trailing_run(s, class) - 1] == t[t.len() - trailing_run(t, class)
                - 1]);
        }
    }
}

/// A suffix inside the class that cannot be extended is the trailing run.
pub proof fn lemma_trailing_run_is(s: Seq<char>, class: CharClass, n: nat)
    requires
        n <= s.len(),
        forall|i: int| s.len() - n <= i < s.len() ==> class.has(#[trigger] s[i]),
        n < s.len() ==> !class.has(s[s.len() - n - 1]),
    ensures
        trailing_run(s, class) == n,
    decreases s.len(),
{
    if n > 0 {
        let t = s.drop_last();
        assert(class.has(s[s.len() - 1]));
        assert forall|i: int| t.len() - (n - 1) <= i < t.len() implies class.has(
            #[trigger] t[i],
        ) by {
            assert(t[i] == s[i]);
        }
        if n - 1 < t.len() {
            assert(t[t.len() - (n - 1) - 1] == s[s.len() - n - 1]);
        }
        lemma_trailing_run_is(t, class, (n - 1) as nat);
    }
}

/// A run at the start is empty exactly when the text is empty or begins
/// outside the class; likewise at the end.
pub proof fn lemma_run_zero(s: Seq<char>, class: CharClass)
    ensures
        leading_run(s, class) == 0 <==> (s.len() == 0 || !class.has(s[0])),
        trailing_run(s, class) == 0 <==> (s.len() == 0 || !class.has(s.last())),
{
}

/// What is left after stripping has nothing more to strip.
pub proof fn lemma_strip_is_clean(s: Seq<char>, class: CharClass)
    ensures
        leading_run(strip(s, class), class) == 0,
        trailing_run(strip(s, class), class) == 0,
        strip(s, class).len() <= s.len(),
{
    let t = strip_start(s, class);
    let u = strip(s, class);
    lemma_leading_run(s, class);
    lemma_trailing_run(t, class);
    if u.len() > 0 {
        assert(u[0] == t[0]);
        assert(t[0] == s[leading_run(s, class) as int]);
        assert(u.last() == t[t.len() - trailing_run(t, class) - 1]);
    }
}

/// A text with nothing to strip is left as it is.
pub proof fn lemma_strip_noop(s: Seq<char>, class: CharClass)
    requires
        leading_run(s, class) == 0,
        trailing_run(s, class) == 0,
    ensures
        strip(s, class) == s,
{
    assert(s.skip(0) =~= s);
    assert(s.take(s.len() as int) =~= s);
}

/// Stripping a text that has something to strip makes it shorter.
pub proof fn lemma_strip_shortens(s: Seq<char>, class: CharClass)
    requires
        leading_run(s, class) > 0 || trailing_run(s, class) > 0,
    ensures
        strip(s, class).len() < s.len(),
{
    let t = strip_start(s, class);
    lemma_leading_run(s, class);
    lemma_trailing_run(t, class);
    if leading_run(s, class) == 0 {
        assert(t =~= s);
    }
}

/// What is left after stripping is one piece of the text, which begins
/// where the leading run ends.
pub proof fn lemma_strip_is_piece(s: Seq<char>, class: CharClass)
    ensures
        strip(s, class) == s.subrange(
            leading_run(s, class) as int,
            (leading_run(s, class) + strip(s, class).len()) as int,
        ),
        leading_run(s, class) + strip(s, class).len() <= s.len(),
{
    let t = strip_start(s, class);
    lemma_leading_run(s, class);
    lemma_trailing_run(t, class);
    assert(strip(s, class) =~= s.subrange(
        leading_run(s, class) as int,
        (leading_run(s, class) + strip(s, class).len()) as int,
    ));
}

// ---------------------------------------------------------------------------
// Searching
// ---------------------------------------------------------------------------

/// Whether `pat` stands in `s` at index `i`.
pub open spec fn occurs_at(s: Seq<char>, pat: Seq<char>, i: int) -> bool {
    0 <= i && i + pat.len() <= s.len() && s.subrange(i, i + pat.len()) == pat
}

/// The least index at or after `from` at which `pat` stands in `s`.
pub open spec fn first_occurrence_from(s: Seq<char>, pat: Seq<char>, from: int) -> Option<int>
    decreases s.len() - from + 1,
{
    if from < 0 || from + pat.len() > s.len() {
        None
    } else if occurs_at(s, pat, from) {
        Some(from)
    } else {
        first_occurrence_from(s, pat, from + 1)
    }
}

/// The least index at which `pat` stands in `s`.
pub open spec fn first_occurrence(s: Seq<char>, pat: Seq<char>) -> Option<int> {
    first_occurrence_from(s, pat, 0)
}

/// What the search returns is an occurrence with none before it; when it
/// returns nothing, there is none.
pub proof fn lemma_first_occurrence_from(s: Seq<char>, pat: Seq<char>, from: int)
    requires
        0 <= from,
    ensures
        match first_occurrence_from(s, pat, from) {
            Some(i) => from <= i && occurs_at(s, pat, i) && forall|j: int|
                from <= j < i ==> !occurs_at(s, pat, j),
            None => forall|j: int| from <= j ==> !occurs_at(s, pat, j),
        },
    decreases s.len() - from + 1,
{
    if from + pat.len() > s.len() {
    } else if occurs_at(s, pat, from) {
    } else {
        lemma_first_occurrence_from(s, pat, from + 1);
    }
}

/// `s` up to the first occurrence of `pat`, or all of `s` where there is none.
pub open spec fn before_first(s: Seq<char>, pat: Seq<char>) -> Seq<char> {
    match first_occurrence(s, pat) {
        Some(i) => s.take(i),
        None => s,
    }
}

/// `s` up to its first line feed, or all of `s` where it has none.
pub open spec fn first_line(s: Seq<char>) -> Seq<char> {
    s.take(leading_run(s, CharClass::Except('\n')) as int)
}

/// A piece of a text holds no occurrence of a pattern that the text does
/// not hold.
pub proof fn lemma_piece_has_no_occurrence(s: Seq<char>, pat: Seq<char>, from: int, to: int)
    requires
        0 <= from <= to <= s.len(),
        forall|j: int| !occurs_at(s, pat, j) || j + pat.len() > to || j < from,
    ensures
        first_occurrence(s.subrange(from, to), pat) is None,
{
    let piece = s.subrange(from, to);
    lemma_first_occurrence_from(piece, pat, 0);
    if first_occurrence(piece, pat) is Some {
        let i = first_occurrence(piece, pat)->0;
        assert(piece.subrange(i, i + pat.len()) =~= s.subrange(from + i, from + i + pat.len()));
        assert(occurs_at(s, pat, from + i));
    }
}

/// The first line of a text holds no line feed, and a text without a line
/// feed is its own first line.
pub proof fn lemma_first_line(s: Seq<char>)
    ensures
        first_line(s).len() <= s.len(),
        forall|i: int| 0 <= i < first_line(s).len() ==> #[trigger] first_line(s)[i] != '\n',
        (forall|i: int| 0 <= i < s.len() ==> #[trigger] s[i] != '\n') ==> first_line(s) == s,
{
    let class = CharClass::Except('\n');
    lemma_leading_run(s, class);
    if forall|i: int| 0 <= i < s.len() ==> #[trigger] s[i] != '\n' {
        lemma_leading_run_is(s, class, s.len());
        assert(s.take(s.len() as int) =~= s);
    }
}

// ---------------------------------------------------------------------------
// Positions in UTF-16 code units
// ---------------------------------------------------------------------------

/// The character that stands for text that cannot be decoded.
pub open spec fn replacement_char() -> char {
    '\u{FFFD}'
}

/// The number of UTF-16 code units that encode `c`.
pub open spec fn utf16_width(c: char) -> nat {
    if (c as u32) < 0x10000 {
        1
    } else {
        2
    }
}

/// The number of UTF-16 code units that encode `s`.
pub open spec fn utf16_len(s: Seq<char>) -> nat
    decreases s.len(),
{
    if s.len() == 0 {
        0
    } else {
        utf16_len(s.drop_last()) + utf16_width(s.last())
    }
}

/// The text that the first `cursor` UTF-16 code units of `s` decode to. A
/// cursor beyond the end takes all of `s`; a character that the cursor cuts
/// in two leaves a replacement character.
pub open spec fn before_cursor(s: Seq<char>, cursor: nat) -> Seq<char>
    decreases s.len(),
{
    if s.len() == 0 || cursor == 0 {
        Seq::<char>::empty()
    } else if utf16_width(s[0]) <= cursor {
        seq![s[0]] + before_cursor(s.drop_first(), (cursor - utf16_width(s[0])) as nat)
    } else {
        seq![replacement_char()]
    }
}

/// The code units of a text are those of its first character and those of
/// the rest.
pub proof fn lemma_utf16_len_front(s: Seq<char>)
    requires
        s.len() > 0,
    ensures
        utf16_len(s) == utf16_width(s[0]) + utf16_len(s.drop_first()),
    decreases s.len(),
{
    if s.len() == 1 {
        assert(s.drop_last() =~= s.drop_first());
    } else {
        lemma_utf16_len_front(s.drop_last());
        assert(s.drop_last().drop_first() =~= s.drop_first().drop_last());
    }
}

/// A cursor at the end of the text or beyond it takes the whole text.
pub proof fn lemma_before_cursor_whole(s: Seq<char>, cursor: nat)
    requires
        cursor >= utf16_len(s),
    ensures
        before_cursor(s, cursor) == s,
    decreases s.len(),
{
    if s.len() == 0 {
        assert(s =~= Seq::<char>::empty());
    } else {
        lemma_utf16_len_front(s);
        lemma_before_cursor_whole(s.drop_first(), (cursor - utf16_width(s[0])) as nat);
        assert(seq![s[0]] + s.drop_first() =~= s);
    }
}

/// A cursor that stands between two characters takes exactly the text
/// before it: counted in code units of `s + t`, the position behind `s`
/// gives `s`.
pub proof fn lemma_before_cursor_at_boundary(s: Seq<char>, t: Seq<char>)
    ensures
        before_cursor(s + t, utf16_len(s)) == s,
    decreases s.len(),
{
    if s.len() == 0 {
        assert(s =~= Seq::<char>::empty());
    } else {
        lemma_utf16_len_front(s);
        lemma_before_cursor_at_boundary(s.drop_first(), t);
        assert((s + t).drop_first() =~= s.drop_first() + t);
        assert(seq![s[0]] + s.drop_first() =~= s);
    }
}

/// The characters of `context` that stand before the UTF-16 position `cursor`.
pub fn text_before_cursor(context: &str, cursor: usize) -> (before: Vec<char>)
    ensures
        before@ == before_cursor(context@, cursor as nat),
{
    let chars = to_chars(context);
    let mut before: Vec<char> = Vec::new();
    let mut left: usize = cursor;
    let mut i: usize = 0;
    assert(chars@.skip(0) =~= chars@);
    assert(before@ + before_cursor(chars@, cursor as nat) =~= before_cursor(
        chars@,
        cursor as nat,
    ));
    while i < chars.len() && left > 0
        invariant
            i <= chars@.len(),
            chars@ == context@,
            before_cursor(chars@, cursor as nat) == before@ + before_cursor(
                chars@.skip(i as int),
                left as nat,
            ),
        decreases chars@.len() - i,
    {
        let c = chars[i];
        let width: usize = if (c as u32) < 0x10000 {
            1
        } else {
            2
        };
        let ghost rest = chars@.skip(i as int);
        assert(rest[0] == c);
        assert(rest.drop_first() =~= chars@.skip(i + 1));
        if width <= left {
            proof {
                let tail = before_cursor(chars@.skip(i + 1), (left - width) as nat);
                assert(before@ + (seq![c] + tail) =~= before@.push(c) + tail);
            }
            before.push(c);
            left -= width;
            i += 1;
        } else {
            proof {
                assert(before@ + seq![replacement_char()] =~= before@.push(replacement_char()));
            }
            before.push('\u{FFFD}');
            return before;
        }
    }
    assert(before@ + Seq::<char>::empty() =~= before@);
    before
}

/// The longest run of word characters at the end of `s`.
pub open spec fn trailing_token(s: Seq<char>) -> Seq<char> {
    s.skip(s.len() - trailing_run(s, CharClass::Word))
}

/// The longest run of word characters at the end of `v`.
pub fn trailing_token_chars(v: &Vec<char>) -> (token: Vec<char>)
    ensures
        token@ == trailing_token(v@),
        all_ascii(token@),
        token@.len() == 0 <==> (v@.len() == 0 || !word_char(v@.last())),
{
    let n = trailing_len(v, CharClass::Word);
    proof {
        lemma_trailing_run(v@, CharClass::Word);
    }
    subvec(v, v.len() - n, v.len())
}

// ---------------------------------------------------------------------------
// Decimal numerals
// ---------------------------------------------------------------------------

/// The character of one decimal digit.
pub open spec fn digit_char(d: nat) -> char
    recommends
        d < 10,
{
    (('0' as u8) + (d as u8)) as char
}

/// The decimal numeral of `n`, without leading zeros.
pub open spec fn decimal(n: nat) -> Seq<char>
    decreases n,
{
    if n < 10 {
        seq![digit_char(n)]
    } else {
        decimal(n / 10).push(digit_char(n % 10))
    }
}

/// Appends the decimal numeral of `n` to `buf`.
pub fn push_decimal(buf: &mut Vec<char>, n: u64)
    ensures
        final(buf)@ == old(buf)@ + decimal(n as nat),
    decreases n,
{
    if n >= 10 {
        push_decimal(buf, n / 10);
    }
    let d: u8 = (n % 10) as u8;
    let c: char = (48u8 + d) as char;
    assert(c == digit_char((n % 10) as nat));
    buf.push(c);
    proof {
        if n < 10 {
            assert(old(buf)@.push(c) =~= old(buf)@ + decimal(n as nat));
        } else {
            assert((old(buf)@ + decimal((n / 10) as nat)).push(c) =~= old(buf)@ + decimal(
                n as nat,
            ));
        }
    }
}

/// The decimal numeral of `n` as a string.
pub fn decimal_string(n: u64) -> (s: String)
    ensures
        s@ == decimal(n as nat),
{
    let mut buf: Vec<char> = Vec::new();
    push_decimal(&mut buf, n);
    assert(Seq::<char>::empty() + decimal(n as nat) =~= decimal(n as nat));
    from_chars(&buf)
}

// ---------------------------------------------------------------------------
// Executable helpers on character vectors
// ---------------------------------------------------------------------------

/// The characters of a string.
pub fn to_chars(s: &str) -> (v: Vec<char>)
    ensures
        v@ == s@,
{
    let mut v: Vec<char> = Vec::new();
    for c in it: s.chars()
        invariant
            v@ == s@.take(it.index() as int),
            it.seq() == s@,
    {
        v.push(c);
    }
    v
}

/// The string made of the given characters.
pub fn from_chars(v: &Vec<char>) -> (s: String)
    ensures
        s@ == v@,
{
    let mut s = String::new();
    let mut i: usize = 0;
    while i < v.len()
        invariant
            i <= v.len(),
            s@ == v@.take(i as int),
        decreases v.len() - i,
    {
        s.push(v[i]);
        i += 1;
    }
    s
}

/// The character of `v` at index `i`.
pub(crate) fn char_at(v: &Vec<char>, i: usize) -> (c: char)
    requires
        i < v@.len(),
    ensures
        c == v@[i as int],
{
    v[i]
}

/// The characters of `v` from index `from` up to, not including, `to`.
pub(crate) fn subvec(v: &Vec<char>, from: usize, to: usize) -> (r: Vec<char>)
    requires
        from <= to <= v.len(),
    ensures
        r@ == v@.subrange(from as int, to as int),
{
    let mut r: Vec<char> = Vec::new();
    let mut i: usize = from;
    while i < to
        invariant
            from <= i <= to <= v.len(),
            r@ == v@.subrange(from as int, i as int),
        decreases to - i,
    {
        r.push(v[i]);
        i += 1;
    }
    r
}

/// Appends the characters of `tail` to `buf`.
pub fn extend_chars(buf: &mut Vec<char>, tail: &Vec<char>)
    ensures
        final(buf)@ == old(buf)@ + tail@,
{
    let mut i: usize = 0;
    while i < tail.len()
        invariant
            i <= tail.len(),
            buf@ == old(buf)@ + tail@.take(i as int),
        decreases tail.len() - i,
    {
        buf.push(tail[i]);
        i += 1;
    }
}

/// The length of the leading run of `class` in `v`.
pub fn leading_len(v: &Vec<char>, class: CharClass) -> (n: usize)
    ensures
        n == leading_run(v@, class),
        n <= v.len(),
{
    let mut n: usize = 0;
    while n < v.len() && class.contains(v[n])
        invariant
            n <= v.len(),
            forall|i: int| 0 <= i < n ==> class.has(#[trigger] v@[i]),
        decreases v.len() - n,
    {
        n += 1;
    }
    proof {
        lemma_leading_run_is(v@, class, n as nat);
    }
    n
}

/// The length of the trailing run of `class` in `v`.
pub fn trailing_len(v: &Vec<char>, class: CharClass) -> (n: usize)
    ensures
        n == trailing_run(v@, class),
        n <= v.len(),
{
    let mut n: usize = 0;
    while n < v.len() && class.contains(v[v.len() - n - 1])
        invariant
            n <= v.len(),
            forall|i: int| v.len() - n <= i < v.len() ==> class.has(#[trigger] v@[i]),
        decreases v.len() - n,
    {
        n += 1;
    }
    proof {
        lemma_trailing_run_is(v@, class, n as nat);
    }
    n
}

/// `v` without its leading and trailing runs of `class`.
pub fn strip_chars(v: &Vec<char>, class: CharClass) -> (r: Vec<char>)
    ensures
        r@ == strip(v@, class),
{
    let start = leading_len(v, class);
    let rest = subvec(v, start, v.len());
    assert(rest@ == strip_start(v@, class));
    let tail = trailing_len(&rest, class);
    subvec(&rest, 0, rest.len() - tail)
}

/// `v` without its trailing run of `class`.
pub fn strip_end_chars(v: &Vec<char>, class: CharClass) -> (r: Vec<char>)
    ensures
        r@ == strip_end(v@, class),
{
    let tail = trailing_len(v, class);
    subvec(v, 0, v.len() - tail)
}

/// Whether `pat` stands in `v` at index `i`.
pub fn matches_at(v: &Vec<char>, pat: &Vec<char>, i: usize) -> (b: bool)
    ensures
        b == occurs_at(v@, pat@, i as int),
{
    if pat.len() > v.len() || i > v.len() - pat.len() {
        return false;
    }
    let mut k: usize = 0;
    while k < pat.len()
        invariant
            k <= pat.len(),
            i + pat.len() <= v.len(),
            forall|j: int| 0 <= j < k ==> v@[i + j] == pat@[j],
        decreases pat.len() - k,
    {
        if v[i + k] != pat[k] {
            proof {
                let sub = v@.subrange(i as int, i + pat.len());
                assert(sub[k as int] == v@[i + k]);
            }
            return false;
        }
        k += 1;
    }
    assert(v@.subrange(i as int, i + pat.len()) =~= pat@);
    true
}

/// Whether `v` begins with `pat`.
pub fn starts_with(v: &Vec<char>, pat: &Vec<char>) -> (b: bool)
    ensures
        b == pat@.is_prefix_of(v@),
{
    let b = matches_at(v, pat, 0);
    proof {
        if pat.len() <= v.len() {
            assert(v@.subrange(0, 0 + pat.len()) =~= v@.subrange(0, pat.len() as int));
        }
    }
    b
}

/// Whether `v` ends with `pat`.
pub fn ends_with(v: &Vec<char>, pat: &Vec<char>) -> (b: bool)
    ensures
        b == pat@.is_suffix_of(v@),
{
    if pat.len() > v.len() {
        return false;
    }
    let at: usize = v.len() - pat.len();
    let b = matches_at(v, pat, at);
    proof {
        assert(v@.subrange(at as int, at + pat.len()) =~= v@.subrange(
            v.len() - pat.len(),
            v.len() as int,
        ));
    }
    b
}

/// The least index at which `pat` stands in `v`.
pub fn find(v: &Vec<char>, pat: &Vec<char>) -> (r: Option<usize>)
    ensures
        match r {
            Some(i) => first_occurrence(v@, pat@) == Some(i as int),
            None => first_occurrence(v@, pat@) is None,
        },
{
    if pat.len() > v.len() {
        return None;
    }
    let last: usize = v.len() - pat.len();
    let mut i: usize = 0;
    loop
        invariant
            i <= last,
            last == v.len() - pat.len(),
            first_occurrence(v@, pat@) == first_occurrence_from(v@, pat@, i as int),
        decreases last - i,
    {
        if matches_at(v, pat, i) {
            return Some(i);
        }
        if i == last {
            assert(first_occurrence_from(v@, pat@, i + 1) is None);
            return None;
        }
        i += 1;
    }
}

/// ASCII lowercase of `v`.
pub fn lowercase_ascii(v: &Vec<char>) -> (r: Vec<char>)
    ensures
        r@ == ascii_lowercase(v@),
{
    let mut r: Vec<char> = Vec::new();
    let mut i: usize = 0;
    while i < v.len()
        invariant
            i <= v.len(),
            r@.len() == i,
            forall|j: int| 0 <= j < i ==> r@[j] == ascii_lower(v@[j]),
        decreases v.len() - i,
    {
        r.push(to_ascii_lower(v[i]));
        i += 1;
    }
    assert(r@ =~= ascii_lowercase(v@));
    r
}

/// Whether the string is empty or white space only.
pub fn is_blank(s: &str) -> (b: bool)
    ensures
        b == blank(s@),
{
    let v = to_chars(s);
    let n = leading_len(&v, CharClass::Whitespace);
    proof {
        lemma_blank_iff(v@);
    }
    n == v.len()
}

/// A text is blank exactly when white space runs through all of it.
pub proof fn lemma_blank_iff(s: Seq<char>)
    ensures
        blank(s) <==> leading_run(s, CharClass::Whitespace) == s.len(),
{
    let class = CharClass::Whitespace;
    let n = leading_run(s, class);
    lemma_leading_run(s, class);
    let t = strip_start(s, class);
    lemma_trailing_run(t, class);
    if n < s.len() {
        assert(t[0] == s[n as int]);
        if trailing_run(t, class) == t.len() {
            assert(class.has(t[0]));
        }
    }
}

} // verus!
