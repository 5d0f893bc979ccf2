//! From texts to tokens.

use crate::text::{chars_of, same_text, text_of};
use crate::unicode::{
    alphabetic, alphanumeric, byte_len, is_alphabetic, is_alphanumeric, is_whitespace,
    lemma_byte_len_push, lowercase, lowercase_of, whitespace, width_of,
};
use vstd::prelude::*;
use vstd::string::*;

verus! {

/// How texts are turned into tokens.
#[derive(Debug)]
pub struct AnalyzerConfig {
    /// `standard`, `whitespace`, `simple` or `keyword`.
    pub tokenizer: String,
    pub lowercase: bool,
    /// Whether stop words are left out.
    pub stop_words: bool,
    /// In bytes.
    pub min_token_length: usize,
}

/// What an [`AnalyzerConfig`] stands for.
#[verifier::ext_equal]
pub struct AnalyzerView {
    pub tokenizer: Seq<char>,
    pub lowercase: bool,
    pub stop_words: bool,
    pub min_token_length: usize,
}

pub fn default_tokenizer() -> (r: String)
    ensures
        r@ == "standard"@,
{
    "standard".to_owned()
}

pub fn default_min_length() -> (r: usize)
    ensures
        r == 1,
{
    1
}

impl View for AnalyzerConfig {
    type V = AnalyzerView;

    open spec fn view(&self) -> AnalyzerView {
        AnalyzerView {
            tokenizer: self.tokenizer@,
            lowercase: self.lowercase,
            stop_words: self.stop_words,
            min_token_length: self.min_token_length,
        }
    }
}

impl AnalyzerConfig {
    /// A copy.
    pub fn copy(&self) -> (r: AnalyzerConfig)
        ensures
            r == *self,
    {
        AnalyzerConfig {
            tokenizer: self.tokenizer.clone(),
            lowercase: self.lowercase,
            stop_words: self.stop_words,
            min_token_length: self.min_token_length,
        }
    }
}

impl AnalyzerView {
    /// What is used where nothing is said.
    pub open spec fn standard() -> Self {
        AnalyzerView {
            tokenizer: "standard"@,
            lowercase: true,
            stop_words: false,
            min_token_length: 1,
        }
    }
}

impl Default for AnalyzerConfig {
    fn default() -> (r: Self)
        ensures
            r@ == AnalyzerView::standard(),
    {
        AnalyzerConfig {
            tokenizer: "standard".to_owned(),
            lowercase: true,
            stop_words: false,
            min_token_length: 1,
        }
    }
}

/// A token: its text, its place among the tokens, and where it stands in the text, in bytes.
#[derive(Debug)]
pub struct Token {
    pub text: String,
    pub position: u32,
    pub start_offset: usize,
    pub end_offset: usize,
}

/// What a [`Token`] stands for.
#[verifier::ext_equal]
pub struct TokenView {
    pub text: Seq<char>,
    pub position: nat,
    pub start_offset: nat,
    pub end_offset: nat,
}

impl View for Token {
    type V = TokenView;

    open spec fn view(&self) -> TokenView {
        TokenView {
            text: self.text@,
            position: self.position as nat,
            start_offset: self.start_offset as nat,
            end_offset: self.end_offset as nat,
        }
    }
}

/// What a list of tokens stands for.
pub open spec fn token_views(v: Seq<Token>) -> Seq<TokenView> {
    Seq::new(v.len(), |i: int| v[i]@)
}

/// Whether a word is one of the English stop words.
pub open spec fn is_stop_word(w: Seq<char>) -> bool {
    ||| w == "a"@
    ||| w == "an"@
    ||| w == "and"@
    ||| w == "are"@
    ||| w == "as"@
    ||| w == "at"@
    ||| w == "be"@
    ||| w == "but"@
    ||| w == "by"@
    ||| w == "for"@
    ||| w == "if"@
    ||| w == "in"@
    ||| w == "into"@
    ||| w == "is"@
    ||| w == "it"@
    ||| w == "no"@
    ||| w == "not"@
    ||| w == "of"@
    ||| w == "on"@
    ||| w == "or"@
    ||| w == "such"@
    ||| w == "that"@
    ||| w == "the"@
    ||| w == "their"@
    ||| w == "then"@
    ||| w == "there"@
    ||| w == "these"@
    ||| w == "they"@
    ||| w == "this"@
    ||| w == "to"@
    ||| w == "was"@
    ||| w == "will"@
    ||| w == "with"@
}

fn stop_word(w: &str) -> (r: bool)
    ensures
        r == is_stop_word(w@),
{
    same_text(w, "a") || same_text(w, "an") || same_text(w, "and") || same_text(w, "are")
        || same_text(w, "as") || same_text(w, "at") || same_text(w, "be") || same_text(w, "but")
        || same_text(w, "by") || same_text(w, "for") || same_text(w, "if") || same_text(w, "in")
        || same_text(w, "into") || same_text(w, "is") || same_text(w, "it") || same_text(w, "no")
        || same_text(w, "not") || same_text(w, "of") || same_text(w, "on") || same_text(w, "or")
        || same_text(w, "such") || same_text(w, "that") || same_text(w, "the") || same_text(
        w,
        "their",
    ) || same_text(w, "then") || same_text(w, "there") || same_text(w, "these") || same_text(
        w,
        "they",
    ) || same_text(w, "this") || same_text(w, "to") || same_text(w, "was") || same_text(w, "will")
        || same_text(w, "with")
}

/// What the words of a text are made of.
#[derive(Debug, Clone, Copy, PartialEq, Eq, Structural)]
pub enum WordKind {
    /// Anything but white space.
    NonSpace,
    /// Letters.
    Letters,
    /// Letters, numbers, underscores, hyphens and apostrophes.
    Standard,
}

/// Whether a character belongs to a word.
pub open spec fn in_word(kind: WordKind, c: char) -> bool {
    match kind {
        WordKind::NonSpace => !is_whitespace(c),
        WordKind::Letters => is_alphabetic(c),
        WordKind::Standard => is_alphanumeric(c) || c == '_' || c == '-' || c == '\'',
    }
}

fn belongs(kind: WordKind, c: char) -> (r: bool)
    ensures
        r == in_word(kind, c),
{
    match kind {
        WordKind::NonSpace => !whitespace(c),
        WordKind::Letters => alphabetic(c),
        WordKind::Standard => alphanumeric(c) || c == '_' || c == '-' || c == '\'',
    }
}

/// Where the word that reaches up to place `k` starts, if there is one.
pub open spec fn open_word(t: Seq<char>, kind: WordKind, k: int) -> Option<int>
    decreases k,
{
    if k <= 0 || !in_word(kind, t[k - 1]) {
        None
    } else {
        match open_word(t, kind, k - 1) {
            Some(s) => Some(s),
            None => Some(k - 1),
        }
    }
}

/// The words that end before place `k`, each by its start and its end.
pub open spec fn closed_words(t: Seq<char>, kind: WordKind, k: int) -> Seq<(int, int)>
    decreases k,
{
    if k <= 0 {
        Seq::empty()
    } else if !in_word(kind, t[k - 1]) && open_word(t, kind, k - 1) is Some {
        closed_words(t, kind, k - 1).push((open_word(t, kind, k - 1)->0, k - 1))
    } else {
        closed_words(t, kind, k - 1)
    }
}

/// The words of a text, each by its start and its end.
pub open spec fn words_of(t: Seq<char>, kind: WordKind) -> Seq<(int, int)> {
    let n = t.len() as int;
    match open_word(t, kind, n) {
        Some(s) => closed_words(t, kind, n).push((s, n)),
        None => closed_words(t, kind, n),
    }
}

/// The pairs of numbers in a list.
pub open spec fn int_pairs(v: Seq<(usize, usize)>) -> Seq<(int, int)> {
    Seq::new(v.len(), |i: int| (v[i].0 as int, v[i].1 as int))
}

/// The words of a text, each by its start and its end.
fn find_words(cs: &Vec<char>, kind: WordKind) -> (r: Vec<(usize, usize)>)
    ensures
        int_pairs(r@) == words_of(cs@, kind),
        forall|i: int| 0 <= i < r@.len() ==> (#[trigger] r@[i]).0 < r@[i].1 <= cs@.len(),
        r@.len() <= cs@.len(),
{
    let mut out: Vec<(usize, usize)> = Vec::new();
    let mut start: Option<usize> = None;
    let mut k: usize = 0;
    assert(int_pairs(out@) =~= closed_words(cs@, kind, 0));
    while k < cs.len()
        invariant
            k <= cs@.len(),
            int_pairs(out@) == closed_words(cs@, kind, k as int),
            forall|i: int| 0 <= i < out@.len() ==> (#[trigger] out@[i]).0 < out@[i].1 <= k,
            out@.len() <= k,
            start is Some ==> out@.len() < k,
            match start {
                Some(s) => open_word(cs@, kind, k as int) == Some(s as int) && s < k,
                None => open_word(cs@, kind, k as int) is None,
            },
        decreases cs@.len() - k,
    {
        let ghost prior = out@;
        if belongs(kind, cs[k]) {
            if start.is_none() {
                start = Some(k);
            }
        } else {
            match start {
                Some(s) => {
                    out.push((s, k));
                    start = None;
                    assert(int_pairs(out@) =~= int_pairs(prior).push((s as int, k as int)));
                },
                None => {},
            }
        }
        k = k + 1;
    }
    let ghost prior = out@;
    match start {
        Some(s) => {
            out.push((s, k));
            assert(int_pairs(out@) =~= int_pairs(prior).push((s as int, k as int)));
        },
        None => {},
    }
    out
}

/// The number of bytes before each place of a text.
fn byte_offsets(cs: &Vec<char>) -> (r: Vec<usize>)
    requires
        byte_len(cs@) <= usize::MAX,
    ensures
        r@.len() == cs@.len() + 1,
        forall|i: int| 0 <= i < r@.len() ==> #[trigger] r@[i] == byte_len(cs@.take(i)),
{
    let mut out: Vec<usize> = Vec::new();
    out.push(0);
    let mut k: usize = 0;
    assert(cs@.take(0) =~= Seq::<char>::empty());
    while k < cs.len()
        invariant
            k <= cs@.len(),
            byte_len(cs@) <= usize::MAX,
            out@.len() == k + 1,
            forall|i: int| 0 <= i <= k ==> #[trigger] out@[i] == byte_len(cs@.take(i)),
        decreases cs@.len() - k,
    {
        proof {
            assert(cs@.take(k + 1) =~= cs@.take(k as int).push(cs@[k as int]));
            lemma_byte_len_push(cs@.take(k as int), cs@[k as int]);
            lemma_byte_len_take(cs@, k + 1);
            assert(out@[k as int] == byte_len(cs@.take(k as int)));
        }
        let w: usize = width_of(cs[k]);
        let at: usize = out[k];
        out.push(at + w);
        k = k + 1;
    }
    out
}

proof fn lemma_byte_len_take(s: Seq<char>, k: int)
    requires
        0 <= k <= s.len(),
    ensures
        byte_len(s.take(k)) <= byte_len(s),
    decreases s.len() - k,
{
    if k == s.len() {
        assert(s.take(k) =~= s);
    } else {
        lemma_byte_len_take(s, k + 1);
        assert(s.take(k + 1) =~= s.take(k).push(s[k]));
        lemma_byte_len_push(s.take(k), s[k]);
    }
}

/// What a list of words with their places in bytes stands for.
pub open spec fn placed_words(v: Seq<(usize, String)>) -> Seq<(nat, Seq<char>)> {
    Seq::new(v.len(), |i: int| (v[i].0 as nat, v[i].1@))
}

/// The words of a text with their places in bytes.
pub open spec fn words_in(t: Seq<char>, kind: WordKind) -> Seq<(nat, Seq<char>)> {
    let words = words_of(t, kind);
    Seq::new(
        words.len(),
        |i: int| (byte_len(t.take(words[i].0)), t.subrange(words[i].0, words[i].1)),
    )
}

fn find_tokens(text: &str, kind: WordKind) -> (r: Vec<(usize, String)>)
    ensures
        placed_words(r@) == words_in(text@, kind),
        r@.len() <= text@.len(),
{
    let cs = chars_of(text);
    let n: usize = text.as_bytes().len();
    let offsets = byte_offsets(&cs);
    let words = find_words(&cs, kind);
    let ghost spans = words_of(text@, kind);
    let mut out: Vec<(usize, String)> = Vec::new();
    let mut k: usize = 0;
    assert(int_pairs(words@).len() == words@.len());
    while k < words.len()
        invariant
            k <= words@.len(),
            words@.len() <= cs@.len(),
            cs@ == text@,
            spans == int_pairs(words@),
            spans == words_of(text@, kind),
            forall|i: int|
                0 <= i < words@.len() ==> (#[trigger] words@[i]).0 < words@[i].1 <= cs@.len(),
            offsets@.len() == cs@.len() + 1,
            forall|i: int|
                0 <= i < offsets@.len() ==> #[trigger] offsets@[i] == byte_len(cs@.take(i)),
            out@.len() == k,
            forall|i: int|
                0 <= i < k ==> (#[trigger] out@[i]).0 == words_in(text@, kind)[i].0 && out@[i].1@
                    == words_in(text@, kind)[i].1,
        decreases words@.len() - k,
    {
        let (a, b) = words[k];
        assert(spans[k as int] == (a as int, b as int));
        assert(words@[k as int].0 < words@[k as int].1);
        out.push((offsets[a], text_of(&cs, a, b)));
        k = k + 1;
    }
    assert(placed_words(out@) =~= words_in(text@, kind));
    out
}

/// The words of a text that white space separates, with their places in bytes.
pub fn find_whitespace_tokens(text: &str) -> (r: Vec<(usize, String)>)
    ensures
        placed_words(r@) == words_in(text@, WordKind::NonSpace),
{
    find_tokens(text, WordKind::NonSpace)
}

/// The words of a text that consist of letters, with their places in bytes.
pub fn find_letter_tokens(text: &str) -> (r: Vec<(usize, String)>)
    ensures
        placed_words(r@) == words_in(text@, WordKind::Letters),
{
    find_tokens(text, WordKind::Letters)
}

/// The words of a text with their places in bytes.
pub fn find_standard_tokens(text: &str) -> (r: Vec<(usize, String)>)
    ensures
        placed_words(r@) == words_in(text@, WordKind::Standard),
{
    find_tokens(text, WordKind::Standard)
}

/// A word without what is neither letter nor number at its start and its end.
pub open spec fn trimmed(w: Seq<char>) -> Seq<char>
    decreases w.len(),
{
    if w.len() == 0 {
        w
    } else if !is_alphanumeric(w[0]) {
        trimmed(w.drop_first())
    } else if !is_alphanumeric(w.last()) {
        trimmed(w.drop_last())
    } else {
        w
    }
}

/// A word without what is neither letter nor number at its start and its end.
pub fn trim_word(w: &str) -> (r: String)
    ensures
        r@ == trimmed(w@),
{
    let cs = chars_of(w);
    let mut a: usize = 0;
    let mut b: usize = cs.len();
    assert(cs@.subrange(0, cs@.len() as int) =~= cs@);
    while a < b && !alphanumeric(cs[a])
        invariant
            a <= b <= cs@.len(),
            b == cs@.len(),
            trimmed(w@) == trimmed(cs@.subrange(a as int, b as int)),
        decreases b - a,
    {
        assert(cs@.subrange(a as int, b as int).drop_first() =~= cs@.subrange(a + 1, b as int));
        a = a + 1;
    }
    while a < b && !alphanumeric(cs[b - 1])
        invariant
            a <= b <= cs@.len(),
            a < b ==> is_alphanumeric(cs@[a as int]),
            trimmed(w@) == trimmed(cs@.subrange(a as int, b as int)),
        decreases b - a,
    {
        assert(cs@.subrange(a as int, b as int).drop_last() =~= cs@.subrange(a as int, b - 1));
        assert(cs@.subrange(a as int, b as int).last() == cs@[b - 1]);
        b = b - 1;
    }
    text_of(&cs, a, b)
}

/// The tokenizers.
#[derive(Debug, Clone, Copy, PartialEq, Eq, Structural)]
pub enum Tokenizer {
    Keyword,
    Whitespace,
    Simple,
    Standard,
}

/// The tokenizer of a name; other names mean the standard one.
pub open spec fn tokenizer_of(name: Seq<char>) -> Tokenizer {
    if name == "keyword"@ {
        Tokenizer::Keyword
    } else if name == "whitespace"@ {
        Tokenizer::Whitespace
    } else if name == "simple"@ {
        Tokenizer::Simple
    } else {
        Tokenizer::Standard
    }
}

fn tokenizer_named(name: &str) -> (r: Tokenizer)
    ensures
        r == tokenizer_of(name@),
{
    if same_text(name, "keyword") {
        Tokenizer::Keyword
    } else if same_text(name, "whitespace") {
        Tokenizer::Whitespace
    } else if same_text(name, "simple") {
        Tokenizer::Simple
    } else {
        Tokenizer::Standard
    }
}

/// A text in lower case, where that is asked for.
pub open spec fn cased(t: Seq<char>, lower: bool) -> Seq<char> {
    if lower {
        lowercase_of(t)
    } else {
        t
    }
}

/// The text of the token that a word becomes, if it becomes one.
pub open spec fn token_text(tokenizer: Tokenizer, config: AnalyzerView, word: Seq<char>) -> Option<
    Seq<char>,
> {
    match tokenizer {
        Tokenizer::Keyword => Some(cased(word, config.lowercase)),
        Tokenizer::Whitespace => {
            let t = cased(word, config.lowercase);
            if byte_len(t) >= config.min_token_length {
                Some(t)
            } else {
                None
            }
        },
        Tokenizer::Simple => {
            let t = lowercase_of(word);
            if byte_len(t) >= config.min_token_length {
                Some(t)
            } else {
                None
            }
        },
        Tokenizer::Standard => {
            let t = cased(trimmed(word), config.lowercase);
            if trimmed(word).len() == 0 || byte_len(t) < config.min_token_length || (
            config.stop_words && is_stop_word(t)) {
                None
            } else {
                Some(t)
            }
        },
    }
}

/// The tokens of the first `k` words.
pub open spec fn tokens_of_words(
    tokenizer: Tokenizer,
    config: AnalyzerView,
    words: Seq<(nat, Seq<char>)>,
    k: int,
) -> Seq<TokenView>
    decreases k,
{
    if k <= 0 {
        Seq::empty()
    } else {
        let rest = tokens_of_words(tokenizer, config, words, k - 1);
        let (start, word) = words[k - 1];
        match token_text(tokenizer, config, word) {
            Some(t) => rest.push(
                TokenView {
                    text: t,
                    position: rest.len(),
                    start_offset: start,
                    end_offset: start + byte_len(word),
                },
            ),
            None => rest,
        }
    }
}

/// What the words of a tokenizer are made of.
pub open spec fn kind_of(tokenizer: Tokenizer) -> WordKind {
    match tokenizer {
        Tokenizer::Whitespace => WordKind::NonSpace,
        Tokenizer::Simple => WordKind::Letters,
        _ => WordKind::Standard,
    }
}

/// The tokens of a text.
pub open spec fn tokens_of(text: Seq<char>, config: AnalyzerView) -> Seq<TokenView> {
    let tokenizer = tokenizer_of(config.tokenizer);
    if tokenizer == Tokenizer::Keyword {
        seq![
            TokenView {
                text: cased(text, config.lowercase),
                position: 0,
                start_offset: 0,
                end_offset: byte_len(text),
            },
        ]
    } else {
        let words = words_in(text, kind_of(tokenizer));
        tokens_of_words(tokenizer, config, words, words.len() as int)
    }
}

fn make_cased(t: String, lower: bool) -> (r: String)
    ensures
        r@ == cased(t@, lower),
{
    if lower {
        lowercase(t.as_str())
    } else {
        t
    }
}

/// The text of the token that a word becomes, if it becomes one.
fn text_of_token(tokenizer: Tokenizer, config: &AnalyzerConfig, word: &str) -> (r: Option<String>)
    requires
        tokenizer != Tokenizer::Keyword,
    ensures
        match r {
            Some(t) => token_text(tokenizer, config@, word@) == Some(t@),
            None => token_text(tokenizer, config@, word@) is None,
        },
{
    match tokenizer {
        Tokenizer::Keyword => None,
        Tokenizer::Whitespace => {
            let t = make_cased(word.to_owned(), config.lowercase);
            if t.as_str().as_bytes().len() >= config.min_token_length {
                Some(t)
            } else {
                None
            }
        },
        Tokenizer::Simple => {
            let t = lowercase(word);
            if t.as_str().as_bytes().len() >= config.min_token_length {
                Some(t)
            } else {
                None
            }
        },
        Tokenizer::Standard => {
            let core = trim_word(word);
            if core.as_str().is_empty() {
                return None;
            }
            let t = make_cased(core, config.lowercase);
            if t.as_str().as_bytes().len() < config.min_token_length {
                return None;
            }
            if config.stop_words && stop_word(t.as_str()) {
                return None;
            }
            Some(t)
        },
    }
}

/// The tokens of a text.
pub fn tokenize(text: &str, config: &AnalyzerConfig) -> (r: Vec<Token>)
    requires
        text@.len() <= u32::MAX,
    ensures
        token_views(r@) == tokens_of(text@, config@),
        r@.len() <= text@.len() || r@.len() == 1,
{
    let tokenizer = tokenizer_named(config.tokenizer.as_str());
    let mut tokens: Vec<Token> = Vec::new();
    let total: usize = text.as_bytes().len();
    if tokenizer == Tokenizer::Keyword {
        let t = make_cased(text.to_owned(), config.lowercase);
        tokens.push(Token { text: t, position: 0, start_offset: 0, end_offset: total });
        assert(token_views(tokens@) =~= tokens_of(text@, config@));
        return tokens;
    }
    let kind = match tokenizer {
        Tokenizer::Whitespace => WordKind::NonSpace,
        Tokenizer::Simple => WordKind::Letters,
        _ => WordKind::Standard,
    };
    let words = find_tokens(text, kind);
    let ghost placed = words_in(text@, kind);
    let mut k: usize = 0;
    assert(placed_words(words@).len() == words@.len());
    assert(token_views(tokens@) =~= tokens_of_words(tokenizer, config@, placed, 0));
    while k < words.len()
        invariant
            k <= words@.len(),
            words@.len() <= text@.len() <= u32::MAX,
            total == byte_len(text@),
            tokenizer != Tokenizer::Keyword,
            kind == kind_of(tokenizer),
            placed == words_in(text@, kind),
            placed == placed_words(words@),
            tokens@.len() <= k,
            token_views(tokens@) == tokens_of_words(tokenizer, config@, placed, k as int),
        decreases words@.len() - k,
    {
        let ghost prior = tokens@;
        assert(token_views(prior).len() == prior.len());
        assert(placed[k as int] == (words@[k as int].0 as nat, words@[k as int].1@));
        let start: usize = words[k].0;
        let width: usize = words[k].1.as_str().as_bytes().len();
        proof {
            lemma_word_within(text@, kind, k as int);
        }
        match text_of_token(tokenizer, config, words[k].1.as_str()) {
            Some(t) => {
                let position: u32 = tokens.len() as u32;
                let token = Token {
                    text: t,
                    position,
                    start_offset: start,
                    end_offset: start + width,
                };
                tokens.push(token);
                assert(token_views(tokens@) =~= token_views(prior).push(token@));
            },
            None => {},
        }
        k = k + 1;
    }
    tokens
}

proof fn lemma_words_ordered(t: Seq<char>, kind: WordKind, k: int)
    requires
        0 <= k <= t.len(),
    ensures
        forall|i: int|
            0 <= i < closed_words(t, kind, k).len() ==> 0 <= (#[trigger] closed_words(
                t,
                kind,
                k,
            )[i]).0 < closed_words(t, kind, k)[i].1 <= k,
        open_word(t, kind, k) is Some ==> 0 <= open_word(t, kind, k)->0 < k,
    decreases k,
{
    if k > 0 {
        lemma_words_ordered(t, kind, k - 1);
        let rest = closed_words(t, kind, k - 1);
        let list = closed_words(t, kind, k);
        assert forall|i: int| 0 <= i < list.len() implies 0 <= (#[trigger] list[i]).0 < list[i].1
            <= k by {
            if i < rest.len() {
                assert(list[i] == rest[i]);
            }
        }
    }
}

proof fn lemma_byte_len_split(a: Seq<char>, b: Seq<char>)
    ensures
        byte_len(a + b) == byte_len(a) + byte_len(b),
    decreases b.len(),
{
    if b.len() == 0 {
        assert(a + b =~= a);
    } else {
        let b1 = b.drop_last();
        lemma_byte_len_split(a, b1);
        assert((a + b) =~= (a + b1).push(b.last()));
        assert(b =~= b1.push(b.last()));
        lemma_byte_len_push(a + b1, b.last());
        lemma_byte_len_push(b1, b.last());
    }
}

/// A word lies within its text.
proof fn lemma_word_within(t: Seq<char>, kind: WordKind, i: int)
    requires
        0 <= i < words_in(t, kind).len(),
    ensures
        words_in(t, kind)[i].0 + byte_len(words_in(t, kind)[i].1) <= byte_len(t),
{
    let n = t.len() as int;
    lemma_words_ordered(t, kind, n);
    let (a, b) = words_of(t, kind)[i];
    assert(0 <= a < b <= n);
    lemma_byte_len_split(t.take(a), t.subrange(a, b));
    assert(t.take(a) + t.subrange(a, b) =~= t.take(b));
    lemma_byte_len_take(t, b);
}

// ---- Laws ----

proof fn lemma_positions(tokenizer: Tokenizer, config: AnalyzerView, words: Seq<(nat, Seq<char>)>, k: int)
    ensures
        forall|i: int|
            0 <= i < tokens_of_words(tokenizer, config, words, k).len() ==> (
            #[trigger] tokens_of_words(tokenizer, config, words, k)[i]).position == i,
    decreases k,
{
    if k > 0 {
        lemma_positions(tokenizer, config, words, k - 1);
        let rest = tokens_of_words(tokenizer, config, words, k - 1);
        let list = tokens_of_words(tokenizer, config, words, k);
        assert forall|i: int| 0 <= i < list.len() implies (#[trigger] list[i]).position == i by {
            if i < rest.len() {
                assert(list[i] == rest[i]);
            }
        }
    }
}

/// The positions of the tokens count up from zero without gaps.
pub proof fn law_positions_count_up(text: Seq<char>, config: AnalyzerView)
    ensures
        forall|i: int|
            0 <= i < tokens_of(text, config).len() ==> (#[trigger] tokens_of(text, config)[i]).position
                == i,
{
    let tokenizer = tokenizer_of(config.tokenizer);
    let words = words_in(text, kind_of(tokenizer));
    lemma_positions(tokenizer, config, words, words.len() as int);
}

proof fn lemma_no_stop_words(config: AnalyzerView, words: Seq<(nat, Seq<char>)>, k: int)
    requires
        config.stop_words,
    ensures
        forall|i: int|
            0 <= i < tokens_of_words(Tokenizer::Standard, config, words, k).len() ==> !is_stop_word(
                (#[trigger] tokens_of_words(Tokenizer::Standard, config, words, k)[i]).text,
            ),
    decreases k,
{
    if k > 0 {
        lemma_no_stop_words(config, words, k - 1);
        let rest = tokens_of_words(Tokenizer::Standard, config, words, k - 1);
        let list = tokens_of_words(Tokenizer::Standard, config, words, k);
        assert forall|i: int| 0 <= i < list.len() implies !is_stop_word(
            (#[trigger] list[i]).text,
        ) by {
            if i < rest.len() {
                assert(list[i] == rest[i]);
            }
        }
    }
}

/// Where stop words are left out, no token of the standard tokenizer is one.
pub proof fn law_stop_words_are_left_out(text: Seq<char>, config: AnalyzerView)
    requires
        config.stop_words,
        tokenizer_of(config.tokenizer) == Tokenizer::Standard,
    ensures
        forall|i: int|
            0 <= i < tokens_of(text, config).len() ==> !is_stop_word(
                (#[trigger] tokens_of(text, config)[i]).text,
            ),
{
    let words = words_in(text, WordKind::Standard);
    lemma_no_stop_words(config, words, words.len() as int);
}

/// What belongs to a word: anything but white space, or letters, or letters, numbers, underscores,
/// hyphens and apostrophes.
pub proof fn law_word_characters(c: char)
    ensures
        in_word(WordKind::NonSpace, c) <==> !is_whitespace(c),
        in_word(WordKind::Letters, c) <==> is_alphabetic(c),
        is_alphanumeric(c) ==> in_word(WordKind::Standard, c),
        !is_alphanumeric(c) && in_word(WordKind::Standard, c) ==> c == '_' || c == '-' || c == '\'',
        in_word(WordKind::Standard, '_') && in_word(WordKind::Standard, '-') && in_word(
            WordKind::Standard,
            '\'',
        ),
{
}

/// Whether a word, by its start and its end, is a run of characters of words that cannot be made
/// longer.
pub open spec fn is_maximal(t: Seq<char>, kind: WordKind, w: (int, int)) -> bool {
    &&& 0 <= w.0 < w.1 <= t.len()
    &&& forall|i: int| w.0 <= i < w.1 ==> in_word(kind, #[trigger] t[i])
    &&& w.0 > 0 ==> !in_word(kind, t[w.0 - 1])
    &&& w.1 < t.len() ==> !in_word(kind, t[w.1])
}

/// Whether a character lies in one of the words.
pub open spec fn is_covered(words: Seq<(int, int)>, p: int) -> bool {
    exists|i: int| 0 <= i < words.len() && (#[trigger] words[i]).0 <= p < words[i].1
}

proof fn lemma_open_word(t: Seq<char>, kind: WordKind, k: int)
    requires
        0 <= k <= t.len(),
    ensures
        match open_word(t, kind, k) {
            Some(s) => {
                &&& 0 <= s < k
                &&& forall|i: int| s <= i < k ==> in_word(kind, #[trigger] t[i])
                &&& s > 0 ==> !in_word(kind, t[s - 1])
            },
            None => k > 0 ==> !in_word(kind, t[k - 1]),
        },
    decreases k,
{
    if k > 0 {
        lemma_open_word(t, kind, k - 1);
    }
}

proof fn lemma_closed_words(t: Seq<char>, kind: WordKind, k: int)
    requires
        0 <= k <= t.len(),
    ensures
        forall|i: int|
            0 <= i < closed_words(t, kind, k).len() ==> is_maximal(
                t,
                kind,
                #[trigger] closed_words(t, kind, k)[i],
            ) && closed_words(t, kind, k)[i].1 < k,
        forall|i: int, j: int|
            0 <= i < j < closed_words(t, kind, k).len() ==> (#[trigger] closed_words(t, kind, k)[i]).1
                <= (#[trigger] closed_words(t, kind, k)[j]).0,
        match open_word(t, kind, k) {
            Some(s) => forall|i: int|
                0 <= i < closed_words(t, kind, k).len() ==> (#[trigger] closed_words(t, kind, k)[i]).1
                    <= s,
            None => true,
        },
        forall|p: int|
            0 <= p < k && in_word(kind, #[trigger] t[p]) ==> is_covered(closed_words(t, kind, k), p)
                || (open_word(t, kind, k) is Some && open_word(t, kind, k)->0 <= p),
    decreases k,
{
    if k > 0 {
        lemma_closed_words(t, kind, k - 1);
        lemma_open_word(t, kind, k - 1);
        lemma_open_word(t, kind, k);
        let rest = closed_words(t, kind, k - 1);
        let list = closed_words(t, kind, k);
        let pushed = !in_word(kind, t[k - 1]) && open_word(t, kind, k - 1) is Some;
        assert forall|i: int| 0 <= i < list.len() implies is_maximal(t, kind, #[trigger] list[i])
            && list[i].1 < k by {
            if i < rest.len() {
                assert(list[i] == rest[i]);
            }
        }
        assert forall|i: int, j: int| 0 <= i < j < list.len() implies (#[trigger] list[i]).1 <= (
        #[trigger] list[j]).0 by {
            assert(list[i] == rest[i]);
            if j < rest.len() {
                assert(list[j] == rest[j]);
            }
        }
        assert forall|p: int| 0 <= p < k && in_word(kind, #[trigger] t[p]) implies is_covered(
            list,
            p,
        ) || (open_word(t, kind, k) is Some && open_word(t, kind, k)->0 <= p) by {
            if p < k - 1 {
                if is_covered(rest, p) {
                    let i = choose|i: int|
                        0 <= i < rest.len() && (#[trigger] rest[i]).0 <= p < rest[i].1;
                    assert(list[i] == rest[i]);
                } else if pushed {
                    assert(list[rest.len() as int].0 <= p < list[rest.len() as int].1);
                }
            }
        }
        match open_word(t, kind, k) {
            Some(s) => {
                assert forall|i: int| 0 <= i < list.len() implies (#[trigger] list[i]).1 <= s by {
                    assert(list[i] == rest[i]);
                }
            },
            None => {},
        }
    }
}

/// The words of a text are its longest runs of characters that belong to words, in their order, and
/// no such character is left out.
pub proof fn law_words_are_the_longest_runs(t: Seq<char>, kind: WordKind)
    ensures
        forall|i: int|
            0 <= i < words_of(t, kind).len() ==> is_maximal(t, kind, #[trigger] words_of(t, kind)[i]),
        forall|i: int, j: int|
            0 <= i < j < words_of(t, kind).len() ==> (#[trigger] words_of(t, kind)[i]).1 <= (
            #[trigger] words_of(t, kind)[j]).0,
        forall|p: int|
            0 <= p < t.len() && in_word(kind, #[trigger] t[p]) ==> is_covered(words_of(t, kind), p),
{
    let n = t.len() as int;
    lemma_closed_words(t, kind, n);
    lemma_open_word(t, kind, n);
    let closed = closed_words(t, kind, n);
    let all = words_of(t, kind);
    assert forall|i: int| 0 <= i < all.len() implies is_maximal(t, kind, #[trigger] all[i]) by {
        if i < closed.len() {
            assert(all[i] == closed[i]);
        }
    }
    assert forall|i: int, j: int| 0 <= i < j < all.len() implies (#[trigger] all[i]).1 <= (
    #[trigger] all[j]).0 by {
        assert(all[i] == closed[i]);
        if j < closed.len() {
            assert(all[j] == closed[j]);
        }
    }
    assert forall|p: int| 0 <= p < n && in_word(kind, #[trigger] t[p]) implies is_covered(all, p) by {
        if is_covered(closed, p) {
            let i = choose|i: int|
                0 <= i < closed.len() && (#[trigger] closed[i]).0 <= p < closed[i].1;
            assert(all[i] == closed[i]);
        } else {
            assert(all[closed.len() as int].0 <= p < all[closed.len() as int].1);
        }
    }
}

/// Whether the part of a word from `a` to `b` begins and ends with a letter or a number, or is empty,
/// and there are none outside it.
pub open spec fn is_core(w: Seq<char>, a: int, b: int) -> bool {
    &&& 0 <= a <= b <= w.len()
    &&& forall|i: int| 0 <= i < a ==> !is_alphanumeric(#[trigger] w[i])
    &&& forall|i: int| b <= i < w.len() ==> !is_alphanumeric(#[trigger] w[i])
    &&& a < b ==> is_alphanumeric(w[a]) && is_alphanumeric(w[b - 1])
}

proof fn lemma_core(w: Seq<char>) -> (r: (int, int))
    ensures
        is_core(w, r.0, r.1),
        trimmed(w) == w.subrange(r.0, r.1),
    decreases w.len(),
{
    if w.len() == 0 {
        assert(w.subrange(0, 0) =~= w);
        (0, 0)
    } else if !is_alphanumeric(w[0]) {
        let rest = w.drop_first();
        let (a, b) = lemma_core(rest);
        assert(w.subrange(a + 1, b + 1) =~= rest.subrange(a, b));
        assert forall|i: int| 0 <= i < a + 1 implies !is_alphanumeric(#[trigger] w[i]) by {
            if i > 0 {
                assert(rest[i - 1] == w[i]);
            }
        }
        assert forall|i: int| b + 1 <= i < w.len() implies !is_alphanumeric(#[trigger] w[i]) by {
            assert(rest[i - 1] == w[i]);
        }
        (a + 1, b + 1)
    } else if !is_alphanumeric(w.last()) {
        let rest = w.drop_last();
        let (a, b) = lemma_core(rest);
        assert(w.subrange(a, b) =~= rest.subrange(a, b));
        assert forall|i: int| 0 <= i < a implies !is_alphanumeric(#[trigger] w[i]) by {
            assert(rest[i] == w[i]);
        }
        assert forall|i: int| b <= i < w.len() implies !is_alphanumeric(#[trigger] w[i]) by {
            if i < rest.len() {
                assert(rest[i] == w[i]);
            }
        }
        (a, b)
    } else {
        assert(w.subrange(0, w.len() as int) =~= w);
        (0, w.len() as int)
    }
}

/// A trimmed word is a part of the word that begins and ends with a letter or a number, and nothing
/// that was cut off is one; it is empty where the word has none.
pub proof fn law_trimming_cuts_the_ends(w: Seq<char>)
    ensures
        exists|a: int, b: int| #[trigger] is_core(w, a, b) && trimmed(w) == w.subrange(a, b),
{
    let (a, b) = lemma_core(w);
    assert(is_core(w, a, b));
}

proof fn lemma_tokens_are_words(
    tokenizer: Tokenizer,
    config: AnalyzerView,
    words: Seq<(nat, Seq<char>)>,
    k: int,
)
    requires
        0 <= k <= words.len(),
    ensures
        ({
            let kept = words.take(k).filter(
                |w: (nat, Seq<char>)| token_text(tokenizer, config, w.1) is Some,
            );
            let tokens = tokens_of_words(tokenizer, config, words, k);
            &&& tokens.len() == kept.len()
            &&& forall|i: int|
                0 <= i < tokens.len() ==> {
                    let t = #[trigger] tokens[i];
                    &&& Some(t.text) == token_text(tokenizer, config, kept[i].1)
                    &&& t.start_offset == kept[i].0
                    &&& t.end_offset == kept[i].0 + byte_len(kept[i].1)
                }
        }),
    decreases k,
{
    reveal(Seq::filter);
    if k > 0 {
        lemma_tokens_are_words(tokenizer, config, words, k - 1);
        assert(words.take(k).drop_last() =~= words.take(k - 1));
        let rest = tokens_of_words(tokenizer, config, words, k - 1);
        let list = tokens_of_words(tokenizer, config, words, k);
        assert forall|i: int| 0 <= i < rest.len() implies list[i] == rest[i] by {}
    }
}

/// The tokens of a text are its words, in their order and where they stand, without those that become
/// no token.
pub proof fn law_tokens_are_the_words(text: Seq<char>, config: AnalyzerView)
    requires
        tokenizer_of(config.tokenizer) != Tokenizer::Keyword,
    ensures
        ({
            let tokenizer = tokenizer_of(config.tokenizer);
            let kind = match tokenizer {
                Tokenizer::Whitespace => WordKind::NonSpace,
                Tokenizer::Simple => WordKind::Letters,
                _ => WordKind::Standard,
            };
            let kept = words_in(text, kind).filter(
                |w: (nat, Seq<char>)| token_text(tokenizer, config, w.1) is Some,
            );
            let tokens = tokens_of(text, config);
            &&& tokens.len() == kept.len()
            &&& forall|i: int|
                0 <= i < tokens.len() ==> {
                    let t = #[trigger] tokens[i];
                    &&& Some(t.text) == token_text(tokenizer, config, kept[i].1)
                    &&& t.start_offset == kept[i].0
                    &&& t.end_offset == kept[i].0 + byte_len(kept[i].1)
                }
        }),
{
    let tokenizer = tokenizer_of(config.tokenizer);
    let words = words_in(text, kind_of(tokenizer));
    lemma_tokens_are_words(tokenizer, config, words, words.len() as int);
    assert(words.take(words.len() as int) =~= words);
}

/// A word becomes a token in lower case, where that is asked for, always with the simple tokenizer.
/// It becomes none where it is too short, and with the standard tokenizer where it is a stop word
/// that is to be left out, or has neither letters nor numbers.
pub proof fn law_words_become_tokens(config: AnalyzerView, word: Seq<char>)
    ensures
        ({
            let t = token_text(Tokenizer::Whitespace, config, word);
            let text = if config.lowercase {
                lowercase_of(word)
            } else {
                word
            };
            &&& t is Some <==> byte_len(text) >= config.min_token_length
            &&& t is Some ==> t->0 == text
        }),
        ({
            let t = token_text(Tokenizer::Simple, config, word);
            &&& t is Some <==> byte_len(lowercase_of(word)) >= config.min_token_length
            &&& t is Some ==> t->0 == lowercase_of(word)
        }),
        ({
            let t = token_text(Tokenizer::Standard, config, word);
            let text = if config.lowercase {
                lowercase_of(trimmed(word))
            } else {
                trimmed(word)
            };
            &&& t is Some ==> t->0 == text
            &&& t is Some ==> trimmed(word).len() > 0 && byte_len(text) >= config.min_token_length
            &&& t is None ==> trimmed(word).len() == 0 || byte_len(text) < config.min_token_length
                || (config.stop_words && is_stop_word(text))
            &&& config.stop_words && is_stop_word(text) ==> t is None
        }),
{
}

/// The keyword tokenizer makes one token of the whole text.
pub proof fn law_keywords_are_whole(text: Seq<char>, config: AnalyzerView)
    requires
        config.tokenizer == "keyword"@,
    ensures
        tokens_of(text, config).len() == 1,
        tokens_of(text, config)[0].text == if config.lowercase {
            lowercase_of(text)
        } else {
            text
        },
        tokens_of(text, config)[0].start_offset == 0,
        tokens_of(text, config)[0].end_offset == byte_len(text),
{
}

/// The tokenizers go by their names, and any other name means the standard one.
pub proof fn law_tokenizers_go_by_name(name: Seq<char>)
    ensures
        tokenizer_of(name) == Tokenizer::Keyword <==> name == "keyword"@,
        tokenizer_of(name) == Tokenizer::Whitespace <==> name == "whitespace"@,
        tokenizer_of(name) == Tokenizer::Simple <==> name == "simple"@,
        name == "standard"@ ==> tokenizer_of(name) == Tokenizer::Standard,
{
    reveal_strlit("keyword");
    reveal_strlit("whitespace");
    reveal_strlit("simple");
    reveal_strlit("standard");
    assert("keyword"@.len() == 7 && "whitespace"@.len() == 10 && "simple"@.len() == 6
        && "standard"@.len() == 8);
}

/// Where nothing is said, texts are cut into words in lower case, with no word left out.
pub proof fn law_analyzer_where_nothing_is_said()
    ensures
        AnalyzerView::standard().tokenizer == "standard"@,
        AnalyzerView::standard().lowercase,
        !AnalyzerView::standard().stop_words,
        AnalyzerView::standard().min_token_length == 1,
{
}

/// The English stop words are these thirty-three.
pub proof fn law_stop_words_are_these(w: Seq<char>)
    ensures
        is_stop_word(w) <==> stop_word_list().contains(w),
{
    let list = stop_word_list();
    assert(list[0] == "a"@);
    assert(list[1] == "an"@);
    assert(list[2] == "and"@);
    assert(list[3] == "are"@);
    assert(list[4] == "as"@);
    assert(list[5] == "at"@);
    assert(list[6] == "be"@);
    assert(list[7] == "but"@);
    assert(list[8] == "by"@);
    assert(list[9] == "for"@);
    assert(list[10] == "if"@);
    assert(list[11] == "in"@);
    assert(list[12] == "into"@);
    assert(list[13] == "is"@);
    assert(list[14] == "it"@);
    assert(list[15] == "no"@);
    assert(list[16] == "not"@);
    assert(list[17] == "of"@);
    assert(list[18] == "on"@);
    assert(list[19] == "or"@);
    assert(list[20] == "such"@);
    assert(list[21] == "that"@);
    assert(list[22] == "the"@);
    assert(list[23] == "their"@);
    assert(list[24] == "then"@);
    assert(list[25] == "there"@);
    assert(list[26] == "these"@);
    assert(list[27] == "they"@);
    assert(list[28] == "this"@);
    assert(list[29] == "to"@);
    assert(list[30] == "was"@);
    assert(list[31] == "will"@);
    assert(list[32] == "with"@);
}

/// The English stop words in alphabetical order.
pub open spec fn stop_word_list() -> Seq<Seq<char>> {
    seq![
        "a"@,
        "an"@,
        "and"@,
        "are"@,
        "as"@,
        "at"@,
        "be"@,
        "but"@,
        "by"@,
        "for"@,
        "if"@,
        "in"@,
        "into"@,
        "is"@,
        "it"@,
        "no"@,
        "not"@,
        "of"@,
        "on"@,
        "or"@,
        "such"@,
        "that"@,
        "the"@,
        "their"@,
        "then"@,
        "there"@,
        "these"@,
        "they"@,
        "this"@,
        "to"@,
        "was"@,
        "will"@,
        "with"@,
    ]
}

} // verus!
