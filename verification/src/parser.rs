//! The scanner: from source text to instructions.
//!
//! Scanning is lenient: after comments, line endings and spaces have been
//! removed, every character that is not one of the eight instruction symbols
//! is passed over in silence.  Brackets are not matched here; a stray `]`
//! shows only when the program runs.

use crate::source::{
    after_first_line, chars_of, clean, cleaned, first_line, is_blank, is_comment, kept,
    lemma_cleaned_by_line, lines,
};
use crate::token::{is_symbol, token_of, Token};
use vstd::prelude::*;

verus! {

/// The instructions that `text` denotes: one for each instruction symbol in
/// it, in order.
pub open spec fn lex(text: Seq<char>) -> Seq<Token> {
    text.filter_map(|c: char| token_of(c))
}

/// The number of instruction symbols in `text`.
pub open spec fn symbol_count(text: Seq<char>) -> nat {
    text.filter(|c: char| is_symbol(c)).len()
}

/// A scanner over cleaned source text.
#[derive(Debug)]
pub struct Parser {
    index: usize,
    source: Vec<char>,
}

impl Parser {
    /// The cleaned text that is scanned.
    pub closed spec fn source(&self) -> Seq<char> {
        self.source@
    }

    /// The position of the next character to scan.  It may lie behind the
    /// end of the text.
    pub closed spec fn index(&self) -> nat {
        self.index as nat
    }

    /// The part of the text that has not been scanned yet.
    pub open spec fn remaining(&self) -> Seq<char> {
        if self.index() <= self.source().len() {
            self.source().skip(self.index() as int)
        } else {
            Seq::empty()
        }
    }

    /// A scanner at the start of `source`, cleaned of comments, line endings
    /// and spaces.
    pub fn new(source: String) -> (parser: Self)
        ensures
            parser.source() == cleaned(source@),
            parser.index() == 0,
    {
        let text = chars_of(source.as_str());
        Self { index: 0, source: clean(&text) }
    }

    /// Scans the rest of the text and returns its instructions.  Afterwards
    /// nothing is left to scan.
    pub fn parse(&mut self) -> (parsed: Vec<Token>)
        ensures
            parsed@ == lex(old(self).remaining()),
            parsed@.len() == symbol_count(old(self).remaining()),
            parsed@.len() <= old(self).remaining().len(),
            final(self).source() == old(self).source(),
            final(self).index() == if old(self).index() <= old(self).source().len() {
                old(self).source().len()
            } else {
                old(self).index()
            },
    {
        let mut parsed: Vec<Token> = Vec::new();
        let ghost text = self.remaining();
        let ghost start = self.index as int;
        while self.has_next()
            invariant
                self.source() == old(self).source(),
                text == old(self).remaining(),
                start == old(self).index(),
                start <= self.index,
                self.index <= self.source@.len() || self.index == start,
                self.index <= self.source@.len() ==> parsed@ == lex(text.take(self.index - start)),
                self.index > self.source@.len() ==> parsed@ == Seq::<Token>::empty(),
            decreases self.source@.len() - self.index,
        {
            proof {
                text.lemma_filter_map_take_succ(|c: char| token_of(c), self.index - start);
                assert(self.index < self.source.len());
            }
            match Token::from_char(self.source[self.index]) {
                Some(token) => parsed.push(token),
                None => (),
            }
            self.next()
        }
        proof {
            if start <= self.source@.len() {
                assert(text.take(self.index - start) =~= text);
            }
            lemma_lex_len(text);
            text.lemma_filter_len(|c: char| is_symbol(c));
        }
        parsed
    }

    /// Whether a character is left to scan.
    pub fn has_next(&self) -> (more: bool)
        ensures
            more == (self.index() < self.source().len()),
    {
        self.index < self.source.len()
    }

    /// Moves on by one character, also behind the end of the text.
    pub fn next(&mut self)
        requires
            old(self).index() < usize::MAX,
        ensures
            final(self).index() == old(self).index() + 1,
            final(self).source() == old(self).source(),
    {
        self.index += 1;
    }
}

/// The instructions of a text followed by another are those of the first
/// followed by those of the second.
pub proof fn lemma_lex_concat(a: Seq<char>, b: Seq<char>)
    ensures
        lex(a + b) == lex(a) + lex(b),
    decreases b.len(),
{
    if b.len() > 0 {
        lemma_lex_concat(a, b.drop_last());
        assert((a + b).drop_last() =~= a + b.drop_last());
    }
}

/// Scanning yields exactly one instruction for each instruction symbol of
/// the text.
pub proof fn lemma_lex_len(text: Seq<char>)
    ensures
        lex(text).len() == symbol_count(text),
    decreases text.len(),
{
    reveal(Seq::filter);
    if text.len() > 0 {
        lemma_lex_len(text.drop_last());
    }
}

/// For every source text, the number of instructions scanned from it is the
/// number of instruction symbols that are left once comments, line endings
/// and spaces have been removed.
pub proof fn lemma_token_count(source: Seq<char>)
    ensures
        lex(cleaned(source)).len() == symbol_count(cleaned(source)),
{
    lemma_lex_len(cleaned(source));
}

/// A text without instruction symbols denotes no instruction.
pub proof fn lemma_lex_without_symbols(text: Seq<char>)
    requires
        forall|j: int| 0 <= j < text.len() ==> !is_symbol(#[trigger] text[j]),
    ensures
        lex(text) == Seq::<Token>::empty(),
    decreases text.len(),
{
    if text.len() > 0 {
        lemma_lex_without_symbols(text.drop_last());
    }
}

/// A source text in which every line is a comment or blank yields no
/// instruction.
pub proof fn lemma_blank_source_is_empty_program(source: Seq<char>)
    requires
        forall|i: int|
            0 <= i < lines(source).len() ==> is_comment(#[trigger] lines(source)[i]) || is_blank(
                lines(source)[i],
            ),
    ensures
        lex(cleaned(source)) == Seq::<Token>::empty(),
    decreases source.len(),
{
    if source.len() > 0 {
        let line = first_line(source);
        let rest = after_first_line(source);
        assert(lines(source)[0] == line);
        assert forall|i: int| 0 <= i < lines(rest).len() implies is_comment(
            #[trigger] lines(rest)[i],
        ) || is_blank(lines(rest)[i]) by {
            assert(lines(rest)[i] == lines(source)[i + 1]);
        }
        lemma_blank_source_is_empty_program(rest);
        let shown = kept(line);
        assert forall|j: int| 0 <= j < shown.len() implies !is_symbol(#[trigger] shown[j]) by {
            line.lemma_filter_contains_rev(|c: char| c != ' ', shown[j]);
        }
        lemma_lex_without_symbols(shown);
        lemma_cleaned_by_line(source);
        lemma_lex_concat(shown, cleaned(rest));
    }
}

} // verus!
