//! The tokens of the description language.
//!
//! A description is a sequence of words and punctuation marks, separated by
//! whitespace where two words meet.  The punctuation marks are the two
//! braces, the semicolon, the comma and the equals sign; a word is a longest
//! run of characters that are neither whitespace nor punctuation.
use vstd::prelude::*;
use vstd::string::{StrSliceExecFns, StringExecFns};

verus! {

/// A token of the description language.
#[derive(Debug, PartialEq, Eq)]
pub enum Token {
    Word(String),
    Open,
    Close,
    Semicolon,
    Comma,
    Equals,
}

/// The mathematical value of a [`Token`].
pub enum TokenView {
    Word(Seq<char>),
    Open,
    Close,
    Semicolon,
    Comma,
    Equals,
}

impl View for Token {
    type V = TokenView;

    open spec fn view(&self) -> TokenView {
        match self {
            Token::Word(w) => TokenView::Word(w@),
            Token::Open => TokenView::Open,
            Token::Close => TokenView::Close,
            Token::Semicolon => TokenView::Semicolon,
            Token::Comma => TokenView::Comma,
            Token::Equals => TokenView::Equals,
        }
    }
}

/// The views of a list of tokens.
pub open spec fn tokens_view(tokens: Seq<Token>) -> Seq<TokenView> {
    Seq::new(tokens.len(), |i: int| tokens[i]@)
}

/// Blank, tab, line feed and carriage return separate tokens.
pub open spec fn is_space(c: char) -> bool {
    c == ' ' || c == '\t' || c == '\n' || c == '\r'
}

/// The token that a punctuation mark stands for.
pub open spec fn punctuation(c: char) -> Option<TokenView> {
    if c == '{' {
        Some(TokenView::Open)
    } else if c == '}' {
        Some(TokenView::Close)
    } else if c == ';' {
        Some(TokenView::Semicolon)
    } else if c == ',' {
        Some(TokenView::Comma)
    } else if c == '=' {
        Some(TokenView::Equals)
    } else {
        None
    }
}

/// A character of a word: neither whitespace nor punctuation.
pub open spec fn is_word_char(c: char) -> bool {
    !is_space(c) && punctuation(c) is None
}

/// Where the run of word characters that starts at `i` ends.
pub open spec fn word_end(s: Seq<char>, i: int) -> int
    decreases s.len() - i,
{
    if 0 <= i < s.len() && is_word_char(s[i]) {
        word_end(s, i + 1)
    } else {
        i
    }
}

/// The tokens of `s` from position `i` on.
pub open spec fn lex_from(s: Seq<char>, i: int) -> Seq<TokenView>
    decreases s.len() - i,
{
    if i < 0 || i >= s.len() {
        Seq::empty()
    } else if is_space(s[i]) {
        lex_from(s, i + 1)
    } else if punctuation(s[i]) is Some {
        seq![punctuation(s[i])->0] + lex_from(s, i + 1)
    } else {
        proof {
            lemma_word_end(s, i + 1);
        }
        let end = word_end(s, i + 1);
        seq![TokenView::Word(s.subrange(i, end))] + lex_from(s, end)
    }
}

/// The tokens of a description.
pub open spec fn lex(s: Seq<char>) -> Seq<TokenView> {
    lex_from(s, 0)
}

/// A run of word characters ends within the text, at a character that is
/// not one of a word, and holds word characters only.
pub proof fn lemma_word_end(s: Seq<char>, i: int)
    requires
        0 <= i <= s.len(),
    ensures
        i <= word_end(s, i) <= s.len(),
        word_end(s, i) < s.len() ==> !is_word_char(s[word_end(s, i)]),
        forall|k: int| i <= k < word_end(s, i) ==> is_word_char(#[trigger] s[k]),
    decreases s.len() - i,
{
    if i < s.len() && is_word_char(s[i]) {
        lemma_word_end(s, i + 1);
    }
}

/// The tokens of an ASCII text.  `None` where the text holds a character
/// outside ASCII.
pub fn tokenize(s: &str) -> (r: Option<Vec<Token>>)
    ensures
        match r {
            Some(tokens) => s.is_ascii() && tokens_view(tokens@) == lex(s@),
            None => !s.is_ascii(),
        },
{
    if !s.is_ascii() {
        return None;
    }
    let n = s.unicode_len();
    let mut tokens: Vec<Token> = Vec::new();
    let mut i: usize = 0;
    assert(tokens_view(tokens@) =~= Seq::empty());
    while i < n
        invariant
            s.is_ascii(),
            n == s@.len(),
            i <= n,
            lex(s@) == tokens_view(tokens@) + lex_from(s@, i as int),
        decreases n - i,
    {
        let b = s.get_ascii(i);
        let ghost c = s@[i as int];
        assert('\0' <= c <= '\u{7f}');
        let ghost before = tokens_view(tokens@);
        if b == 32 || b == 9 || b == 10 || b == 13 {
            i += 1;
        } else if b == 123 || b == 125 || b == 59 || b == 44 || b == 61 {
            let t = if b == 123 {
                Token::Open
            } else if b == 125 {
                Token::Close
            } else if b == 59 {
                Token::Semicolon
            } else if b == 44 {
                Token::Comma
            } else {
                Token::Equals
            };
            tokens.push(t);
            proof {
                assert(tokens_view(tokens@) =~= before + seq![punctuation(c)->0]);
                assert(lex(s@) =~= tokens_view(tokens@) + lex_from(s@, i + 1));
            }
            i += 1;
        } else {
            let start = i;
            i += 1;
            while i < n && is_word_byte(s.get_ascii(i))
                invariant
                    s.is_ascii(),
                    n == s@.len(),
                    start < i <= n,
                    word_end(s@, start + 1) == word_end(s@, i as int),
                decreases n - i,
            {
                assert('\0' <= s@[i as int] <= '\u{7f}');
                i += 1;
            }
            proof {
                if i < n {
                    assert('\0' <= s@[i as int] <= '\u{7f}');
                }
                assert(word_end(s@, start + 1) == i);
            }
            let word = String::from_str(s.substring_ascii(start, i));
            tokens.push(Token::Word(word));
            proof {
                assert(tokens_view(tokens@) =~= before + seq![
                    TokenView::Word(s@.subrange(start as int, i as int)),
                ]);
                assert(lex(s@) =~= tokens_view(tokens@) + lex_from(s@, i as int));
            }
        }
    }
    assert(lex(s@) =~= tokens_view(tokens@));
    Some(tokens)
}

/// Whether the ASCII code is that of a character of a word.
pub fn is_word_byte(b: u8) -> (r: bool)
    ensures
        r == is_word_char(b as char),
{
    !(b == 32 || b == 9 || b == 10 || b == 13 || b == 123 || b == 125 || b == 59 || b == 44 || b
        == 61)
}

} // verus!
