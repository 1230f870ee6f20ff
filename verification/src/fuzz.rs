//! The parser of the description language.
//!
//! A description is a sequence of items:
//!
//! ```text
//! struct <Name> { (<TypeSpec> <field> ;)* }
//! enum <Name> { (<Variant> = <Integer> ,)+ }
//! var:free <name> op:<null|none|deref|addressof> gen:<generator> <TypeSpec>
//! function:new <name> <TypeSpec> { (<TypeSpec> ,)* }
//! ```
//!
//! A type is a native keyword (`int`, `i32`, `usize`, `char`, `void`),
//! `pointer` before a type, or `struct` or `enum` before the name of an
//! aggregate that is declared elsewhere.
use vstd::prelude::*;
use vstd::string::{StrSliceExecFns, StringExecFns};
use crate::api::{
    DeclType, DeclTypeView, Declaration, DeclarationView, FreeVarDecl, FreeVarDeclView, FuncDecl,
    FuncDeclView, UDTDecl, UDTDeclView, decl_types_view, declarations_view, udts_view,
};
use crate::lexer::{Token, TokenView, lex, tokenize, tokens_view};
use crate::typ::{EnumValue, Native, Type, TypeView, enum_values_view, fields_view};
use crate::variable::ScalarOp;

verus! {

/// Why a text is not a description.
#[derive(Clone, Copy, Debug, PartialEq, Eq, Structural)]
pub enum ParseError {
    /// The text holds a character outside ASCII.
    NotAscii,
    /// The text has more tokens than this machine can number.
    TooLong,
    /// The item with the given number, counted from zero, which starts at
    /// the token with the given number, is not an item of the language.
    Syntax { item: usize, token: usize },
}

/// The greatest number of tokens that a description may have.
pub open spec fn token_limit() -> nat {
    (usize::MAX - 8) as nat
}

/// A letter or an underscore.
pub open spec fn is_name_start(c: char) -> bool {
    ('a' <= c <= 'z') || ('A' <= c <= 'Z') || c == '_'
}

/// A letter, a digit or an underscore.
pub open spec fn is_name_char(c: char) -> bool {
    is_name_start(c) || ('0' <= c <= '9')
}

/// A name: a letter or an underscore, then letters, digits and underscores.
pub open spec fn is_name(w: Seq<char>) -> bool {
    &&& w.len() > 0
    &&& is_name_start(w[0])
    &&& forall|i: int| 0 <= i < w.len() ==> is_name_char(#[trigger] w[i])
}

/// A decimal digit.
pub open spec fn is_digit(c: char) -> bool {
    '0' <= c <= '9'
}

/// The number that a sequence of digits denotes.
pub open spec fn digits_value(w: Seq<char>) -> nat
    decreases w.len(),
{
    if w.len() == 0 {
        0
    } else {
        digits_value(w.drop_last()) * 10 + ((w.last() as int) - ('0' as int)) as nat
    }
}

/// One to eighteen digits.
pub open spec fn is_digits(w: Seq<char>) -> bool {
    1 <= w.len() <= 18 && forall|i: int| 0 <= i < w.len() ==> is_digit(#[trigger] w[i])
}

/// The integer that a word denotes: one to eighteen digits, with a minus
/// sign before them for a negative number.
pub open spec fn integer_of(w: Seq<char>) -> Option<int> {
    if w.len() > 0 && w[0] == '-' {
        if is_digits(w.subrange(1, w.len() as int)) {
            Some(-(digits_value(w.subrange(1, w.len() as int)) as int))
        } else {
            None
        }
    } else if is_digits(w) {
        Some(digits_value(w) as int)
    } else {
        None
    }
}

/// The native kind that a keyword names.
pub open spec fn native_of(w: Seq<char>) -> Option<Native> {
    if w == "int"@ {
        Some(Native::Integer)
    } else if w == "i32"@ {
        Some(Native::I32)
    } else if w == "usize"@ {
        Some(Native::Usize)
    } else if w == "char"@ {
        Some(Native::Character)
    } else if w == "void"@ {
        Some(Native::Void)
    } else {
        None
    }
}

/// The scalar transformation that a word names.
pub open spec fn op_of(w: Seq<char>) -> Option<ScalarOp> {
    if w == "op:null"@ || w == "op:none"@ {
        Some(ScalarOp::Null)
    } else if w == "op:deref"@ {
        Some(ScalarOp::Deref)
    } else if w == "op:addressof"@ {
        Some(ScalarOp::AddressOf)
    } else {
        None
    }
}

/// The generator that a word names: what follows `gen:`.
pub open spec fn gen_of(w: Seq<char>) -> Option<Seq<char>> {
    if w.len() >= 4 && w.subrange(0, 4) == "gen:"@ {
        Some(w.subrange(4, w.len() as int))
    } else {
        None
    }
}

/// The word at position `pos`.
pub open spec fn word_at(toks: Seq<TokenView>, pos: int) -> Option<Seq<char>> {
    if 0 <= pos < toks.len() && toks[pos] is Word {
        Some(toks[pos]->Word_0)
    } else {
        None
    }
}

/// The name at position `pos`.
pub open spec fn name_at(toks: Seq<TokenView>, pos: int) -> Option<Seq<char>> {
    match word_at(toks, pos) {
        Some(w) => if is_name(w) {
            Some(w)
        } else {
            None
        },
        None => None,
    }
}

/// The token at position `pos` is `t`.
pub open spec fn is_at(toks: Seq<TokenView>, pos: int, t: TokenView) -> bool {
    0 <= pos < toks.len() && toks[pos] == t
}

/// The type that starts at position `pos`, and the position after it.  An
/// aggregate is named only: it has no members here.
pub open spec fn parse_type(toks: Seq<TokenView>, pos: int) -> Option<(TypeView, int)>
    decreases toks.len() - pos,
{
    match word_at(toks, pos) {
        None => None,
        Some(w) => if native_of(w) is Some {
            Some((TypeView::Builtin(native_of(w)->0), pos + 1))
        } else if w == "pointer"@ {
            match parse_type(toks, pos + 1) {
                Some((t, next)) => Some((TypeView::Pointer(Box::new(t)), next)),
                None => None,
            }
        } else if w == "struct"@ {
            match name_at(toks, pos + 1) {
                Some(n) => Some((TypeView::Struct(n, Seq::empty()), pos + 2)),
                None => None,
            }
        } else if w == "enum"@ {
            match name_at(toks, pos + 1) {
                Some(n) => Some((TypeView::Enum(n, Seq::empty()), pos + 2)),
                None => None,
            }
        } else {
            None
        },
    }
}

/// The declared type that starts at position `pos`, and the position after
/// it.  An aggregate that stands by itself is a reference by name; any
/// other type is basic.
pub open spec fn parse_decl_type(toks: Seq<TokenView>, pos: int) -> Option<(DeclTypeView, int)> {
    match word_at(toks, pos) {
        None => None,
        Some(w) => if w == "struct"@ {
            match name_at(toks, pos + 1) {
                Some(n) => Some((DeclTypeView::StructRef(n), pos + 2)),
                None => None,
            }
        } else if w == "enum"@ {
            match name_at(toks, pos + 1) {
                Some(n) => Some((DeclTypeView::EnumRef(n), pos + 2)),
                None => None,
            }
        } else {
            match parse_type(toks, pos) {
                Some((t, next)) => Some((DeclTypeView::Basic(t), next)),
                None => None,
            }
        },
    }
}

/// A type takes at least one token and ends within the text.
pub proof fn lemma_parse_type(toks: Seq<TokenView>, pos: int)
    ensures
        parse_type(toks, pos) matches Some((_, next)) ==> 0 <= pos < next <= toks.len(),
        parse_decl_type(toks, pos) matches Some((_, next)) ==> 0 <= pos < next <= toks.len(),
    decreases toks.len() - pos,
{
    if word_at(toks, pos) is Some {
        lemma_parse_type(toks, pos + 1);
    }
}

/// The fields of a struct from position `pos` to the closing brace, and
/// the position after the brace.
pub open spec fn parse_fields(toks: Seq<TokenView>, pos: int) -> Option<(Seq<UDTDeclView>, int)>
    decreases toks.len() - pos,
{
    if is_at(toks, pos, TokenView::Close) {
        Some((Seq::empty(), pos + 1))
    } else {
        proof {
            lemma_parse_type(toks, pos);
        }
        match parse_decl_type(toks, pos) {
            None => None,
            Some((ty, after)) => match name_at(toks, after) {
                None => None,
                Some(name) => if is_at(toks, after + 1, TokenView::Semicolon) {
                    match parse_fields(toks, after + 2) {
                        None => None,
                        Some((rest, end)) => Some(
                            (seq![UDTDeclView { name: name, ty: ty }] + rest, end),
                        ),
                    }
                } else {
                    None
                },
            },
        }
    }
}

/// The variants of an enumeration from position `pos` to the closing
/// brace, of which there is at least one, and the position after the
/// brace.
pub open spec fn parse_variants(toks: Seq<TokenView>, pos: int) -> Option<
    (Seq<(Seq<char>, int)>, int),
>
    decreases toks.len() - pos,
{
    match name_at(toks, pos) {
        None => None,
        Some(name) => if is_at(toks, pos + 1, TokenView::Equals) && is_at(
            toks,
            pos + 3,
            TokenView::Comma,
        ) {
            match word_at(toks, pos + 2) {
                None => None,
                Some(w) => match integer_of(w) {
                    None => None,
                    Some(value) => if is_at(toks, pos + 4, TokenView::Close) {
                        Some((seq![(name, value)], pos + 5))
                    } else {
                        match parse_variants(toks, pos + 4) {
                            None => None,
                            Some((rest, end)) => Some((seq![(name, value)] + rest, end)),
                        }
                    },
                },
            }
        } else {
            None
        },
    }
}

/// The parameter types of a function from position `pos` to the closing
/// brace, and the position after the brace.
pub open spec fn parse_params(toks: Seq<TokenView>, pos: int) -> Option<(Seq<DeclTypeView>, int)>
    decreases toks.len() - pos,
{
    if is_at(toks, pos, TokenView::Close) {
        Some((Seq::empty(), pos + 1))
    } else {
        proof {
            lemma_parse_type(toks, pos);
        }
        match parse_decl_type(toks, pos) {
            None => None,
            Some((ty, after)) => if is_at(toks, after, TokenView::Comma) {
                match parse_params(toks, after + 1) {
                    None => None,
                    Some((rest, end)) => Some((seq![ty] + rest, end)),
                }
            } else {
                None
            },
        }
    }
}

/// The item that starts at position `pos`, and the position after it.
pub open spec fn parse_item(toks: Seq<TokenView>, pos: int) -> Option<(DeclarationView, int)> {
    match word_at(toks, pos) {
        None => None,
        Some(w) => match name_at(toks, pos + 1) {
            None => None,
            Some(name) => if w == "struct"@ {
                if is_at(toks, pos + 2, TokenView::Open) {
                    match parse_fields(toks, pos + 3) {
                        None => None,
                        Some((fields, end)) => Some(
                            (
                                DeclarationView::UDT(
                                    UDTDeclView { name: name, ty: DeclTypeView::Struct(fields) },
                                ),
                                end,
                            ),
                        ),
                    }
                } else {
                    None
                }
            } else if w == "enum"@ {
                if is_at(toks, pos + 2, TokenView::Open) {
                    match parse_variants(toks, pos + 3) {
                        None => None,
                        Some((variants, end)) => Some(
                            (
                                DeclarationView::UDT(
                                    UDTDeclView { name: name, ty: DeclTypeView::Enum(variants) },
                                ),
                                end,
                            ),
                        ),
                    }
                } else {
                    None
                }
            } else if w == "var:free"@ {
                match (word_at(toks, pos + 2), word_at(toks, pos + 3)) {
                    (Some(o), Some(g)) => match (op_of(o), gen_of(g), parse_decl_type(toks, pos + 4)) {
                        (Some(op), Some(genname), Some((ty, end))) => Some(
                            (
                                DeclarationView::Free(
                                    FreeVarDeclView { name: name, op: op, genname: genname, ty: ty },
                                ),
                                end,
                            ),
                        ),
                        _ => None,
                    },
                    _ => None,
                }
            } else if w == "function:new"@ {
                match parse_decl_type(toks, pos + 2) {
                    None => None,
                    Some((retval, after)) => if is_at(toks, after, TokenView::Open) {
                        match parse_params(toks, after + 1) {
                            None => None,
                            Some((arguments, end)) => Some(
                                (
                                    DeclarationView::Function(
                                        FuncDeclView {
                                            name: name,
                                            retval: retval,
                                            arguments: arguments,
                                        },
                                    ),
                                    end,
                                ),
                            ),
                        }
                    } else {
                        None
                    },
                }
            } else {
                None
            },
        },
    }
}

/// The position after the declared type that starts at `pos`.
pub open spec fn after_type(toks: Seq<TokenView>, pos: int) -> int {
    let found = parse_decl_type(toks, pos)->0;
    found.1
}

/// Every list of members ends within the text, after where it began.
pub proof fn lemma_parse_lists(toks: Seq<TokenView>, pos: int)
    ensures
        parse_fields(toks, pos) matches Some((_, end)) ==> 0 <= pos < end <= toks.len(),
        parse_variants(toks, pos) matches Some((_, end)) ==> 0 <= pos < end <= toks.len(),
        parse_params(toks, pos) matches Some((_, end)) ==> 0 <= pos < end <= toks.len(),
    decreases toks.len() - pos,
{
    lemma_parse_type(toks, pos);
    if parse_fields(toks, pos) is Some && !is_at(toks, pos, TokenView::Close) {
        lemma_parse_lists(toks, after_type(toks, pos) + 2);
    }
    if parse_variants(toks, pos) is Some && !is_at(toks, pos + 4, TokenView::Close) {
        lemma_parse_lists(toks, pos + 4);
    }
    if parse_params(toks, pos) is Some && !is_at(toks, pos, TokenView::Close) {
        lemma_parse_lists(toks, after_type(toks, pos) + 1);
    }
}

/// An item takes at least one token and ends within the text.
pub proof fn lemma_parse_item(toks: Seq<TokenView>, pos: int)
    ensures
        parse_item(toks, pos) matches Some((_, end)) ==> 0 <= pos < end <= toks.len(),
{
    if parse_item(toks, pos) is Some {
        lemma_parse_lists(toks, pos + 3);
        lemma_parse_type(toks, pos + 4);
        lemma_parse_type(toks, pos + 2);
        if parse_decl_type(toks, pos + 2) is Some {
            lemma_parse_lists(toks, after_type(toks, pos + 2) + 1);
        }
    }
}

/// The items from position `pos` to the end of the text, of which `count`
/// precede them; or, where one of them is no item, its number and the
/// position at which it starts.
pub open spec fn parse_items(toks: Seq<TokenView>, pos: int, count: nat) -> Result<
    Seq<DeclarationView>,
    (nat, int),
>
    decreases toks.len() - pos,
{
    if pos < 0 || pos >= toks.len() {
        Ok(Seq::empty())
    } else {
        proof {
            lemma_parse_item(toks, pos);
        }
        match parse_item(toks, pos) {
            None => Err((count, pos)),
            Some((d, next)) => match parse_items(toks, next, count + 1) {
                Ok(rest) => Ok(seq![d] + rest),
                Err(e) => Err(e),
            },
        }
    }
}

/// The declarations that a sequence of tokens spells.
pub open spec fn parse(toks: Seq<TokenView>) -> Result<Seq<DeclarationView>, (nat, int)> {
    parse_items(toks, 0, 0)
}

/// Whether the word is the given keyword.
fn word_is(w: &String, keyword: &str) -> (r: bool)
    ensures
        r == (w@ == keyword@),
{
    let k = String::from_str(keyword);
    *w == k
}

/// Whether the word is a name.
pub fn check_name(w: &str) -> (r: bool)
    ensures
        r == is_name(w@),
{
    let n = w.unicode_len();
    if n == 0 {
        return false;
    }
    let first = w.get_char(0) as u32;
    if !((97 <= first && first <= 122) || (65 <= first && first <= 90) || first == 95) {
        return false;
    }
    let mut i: usize = 0;
    while i < n
        invariant
            n == w@.len(),
            i <= n,
            forall|k: int| 0 <= k < i ==> is_name_char(#[trigger] w@[k]),
        decreases n - i,
    {
        let c = w.get_char(i) as u32;
        if !((97 <= c && c <= 122) || (65 <= c && c <= 90) || c == 95 || (48 <= c && c <= 57)) {
            assert(!is_name_char(w@[i as int]));
            return false;
        }
        i += 1;
    }
    true
}

/// The value of the digits of `w` from position `from` on, where they are
/// one to eighteen digits.
fn digits_from(w: &str, from: usize) -> (r: Option<u64>)
    requires
        from <= w@.len(),
    ensures
        match r {
            Some(v) => is_digits(w@.subrange(from as int, w@.len() as int)) && v == digits_value(
                w@.subrange(from as int, w@.len() as int),
            ),
            None => !is_digits(w@.subrange(from as int, w@.len() as int)),
        },
{
    let n = w.unicode_len();
    let ghost body = w@.subrange(from as int, n as int);
    if n - from < 1 || n - from > 18 {
        return None;
    }
    let mut acc: u64 = 0;
    let mut i: usize = from;
    assert(body.take(0) =~= Seq::empty());
    while i < n
        invariant
            body == w@.subrange(from as int, n as int),
            n == w@.len(),
            from <= i <= n,
            n - from <= 18,
            forall|k: int| 0 <= k < i - from ==> is_digit(#[trigger] body[k]),
            acc == digits_value(body.take(i - from)),
            acc < pow10((i - from) as nat),
        decreases n - i,
    {
        let c = w.get_char(i) as u32;
        if !(48 <= c && c <= 57) {
            assert(!is_digit(body[i - from]));
            return None;
        }
        proof {
            let upto = body.take(i - from + 1);
            assert(upto.drop_last() =~= body.take(i - from));
            assert(upto.last() == w@[i as int]);
            lemma_pow10((i - from) as nat);
        }
        acc = acc * 10 + ((c - 48) as u64);
        i += 1;
    }
    assert(body.take(n - from) =~= body);
    Some(acc)
}

/// Ten to the power `n`.
pub open spec fn pow10(n: nat) -> nat
    decreases n,
{
    if n == 0 {
        1
    } else {
        10 * pow10((n - 1) as nat)
    }
}

/// The powers of ten up to the eighteenth fit easily in 64 bits.
proof fn lemma_pow10(n: nat)
    requires
        n <= 18,
    ensures
        pow10(n) <= 1_000_000_000_000_000_000,
        pow10(n + 1) == 10 * pow10(n),
    decreases 18 - n,
{
    reveal_with_fuel(pow10, 20);
}

/// The integer that the word denotes.
pub fn integer_value(w: &str) -> (r: Option<i64>)
    ensures
        match r {
            Some(v) => integer_of(w@) == Some(v as int),
            None => integer_of(w@) is None,
        },
{
    let n = w.unicode_len();
    if n > 0 && w.get_char(0) == '-' {
        match digits_from(w, 1) {
            Some(v) => {
                proof {
                    lemma_pow10(18);
                    lemma_digits_bound(w@.subrange(1, n as int));
                }
                Some(-(v as i64))
            },
            None => None,
        }
    } else {
        assert(w@.subrange(0, n as int) =~= w@);
        match digits_from(w, 0) {
            Some(v) => {
                proof {
                    lemma_digits_bound(w@);
                }
                Some(v as i64)
            },
            None => None,
        }
    }
}

/// Up to eighteen digits denote a number below ten to the eighteenth.
proof fn lemma_digits_bound(w: Seq<char>)
    requires
        w.len() <= 18,
        forall|i: int| 0 <= i < w.len() ==> is_digit(#[trigger] w[i]),
    ensures
        digits_value(w) < pow10(w.len()),
        pow10(w.len()) <= 1_000_000_000_000_000_000,
    decreases w.len(),
{
    lemma_pow10(w.len());
    if w.len() > 0 {
        lemma_digits_bound(w.drop_last());
        lemma_pow10((w.len() - 1) as nat);
        assert(is_digit(w[w.len() - 1]));
    }
}

/// The word at position `pos`, if there is one.
fn get_word(tokens: &Vec<Token>, pos: usize) -> (r: Option<&String>)
    ensures
        match r {
            Some(w) => word_at(tokens_view(tokens@), pos as int) == Some(w@),
            None => word_at(tokens_view(tokens@), pos as int) is None,
        },
{
    if pos < tokens.len() {
        match &tokens[pos] {
            Token::Word(w) => Some(w),
            _ => None,
        }
    } else {
        None
    }
}

/// The name at position `pos`, if there is one.
fn get_name(tokens: &Vec<Token>, pos: usize) -> (r: Option<String>)
    ensures
        match r {
            Some(w) => name_at(tokens_view(tokens@), pos as int) == Some(w@),
            None => name_at(tokens_view(tokens@), pos as int) is None,
        },
{
    match get_word(tokens, pos) {
        Some(w) => if check_name(w.as_str()) {
            Some(w.clone())
        } else {
            None
        },
        None => None,
    }
}

/// Which punctuation mark a lookup asks for.
#[derive(Clone, Copy, PartialEq, Eq, Structural)]
enum Mark {
    Open,
    Close,
    Semicolon,
    Comma,
    Equals,
}

impl Mark {
    spec fn token(self) -> TokenView {
        match self {
            Mark::Open => TokenView::Open,
            Mark::Close => TokenView::Close,
            Mark::Semicolon => TokenView::Semicolon,
            Mark::Comma => TokenView::Comma,
            Mark::Equals => TokenView::Equals,
        }
    }
}

/// Whether the token at position `pos` is the given punctuation mark.
fn mark_at(tokens: &Vec<Token>, pos: usize, mark: Mark) -> (r: bool)
    ensures
        r == is_at(tokens_view(tokens@), pos as int, mark.token()),
{
    if pos < tokens.len() {
        match (&tokens[pos], mark) {
            (Token::Open, Mark::Open) => true,
            (Token::Close, Mark::Close) => true,
            (Token::Semicolon, Mark::Semicolon) => true,
            (Token::Comma, Mark::Comma) => true,
            (Token::Equals, Mark::Equals) => true,
            _ => false,
        }
    } else {
        false
    }
}

/// The native kind that the keyword names.
fn native_kind(w: &String) -> (r: Option<Native>)
    ensures
        r == native_of(w@),
{
    if word_is(w, "int") {
        Some(Native::Integer)
    } else if word_is(w, "i32") {
        Some(Native::I32)
    } else if word_is(w, "usize") {
        Some(Native::Usize)
    } else if word_is(w, "char") {
        Some(Native::Character)
    } else if word_is(w, "void") {
        Some(Native::Void)
    } else {
        None
    }
}

/// The type that starts at position `pos`.
fn type_at(tokens: &Vec<Token>, pos: usize) -> (r: Option<(Type, usize)>)
    requires
        tokens.len() <= token_limit(),
        pos <= tokens.len(),
    ensures
        match r {
            Some((t, next)) => parse_type(tokens_view(tokens@), pos as int) == Some(
                (t@, next as int),
            ),
            None => parse_type(tokens_view(tokens@), pos as int) is None,
        },
    decreases tokens.len() - pos,
{
    let w = match get_word(tokens, pos) {
        Some(w) => w,
        None => {
            return None;
        },
    };
    match native_kind(w) {
        Some(native) => {
            return Some((Type::Builtin(native), pos + 1));
        },
        None => {},
    }
    if word_is(w, "pointer") {
        match type_at(tokens, pos + 1) {
            Some((t, next)) => Some((Type::Pointer(Box::new(t)), next)),
            None => None,
        }
    } else if word_is(w, "struct") {
        match get_name(tokens, pos + 1) {
            Some(n) => {
                let t = Type::Struct(n, Vec::new());
                assert(fields_view(t->Struct_1@) =~= Seq::empty());
                Some((t, pos + 2))
            },
            None => None,
        }
    } else if word_is(w, "enum") {
        match get_name(tokens, pos + 1) {
            Some(n) => {
                let t = Type::Enum(n, Vec::new());
                assert(enum_values_view(t->Enum_1@) =~= Seq::empty());
                Some((t, pos + 2))
            },
            None => None,
        }
    } else {
        None
    }
}

/// The declared type that starts at position `pos`.
fn decl_type_at(tokens: &Vec<Token>, pos: usize) -> (r: Option<(DeclType, usize)>)
    requires
        tokens.len() <= token_limit(),
        pos <= tokens.len(),
    ensures
        match r {
            Some((t, next)) => parse_decl_type(tokens_view(tokens@), pos as int) == Some(
                (t@, next as int),
            ) && pos < next <= tokens.len(),
            None => parse_decl_type(tokens_view(tokens@), pos as int) is None,
        },
{
    proof {
        lemma_parse_type(tokens_view(tokens@), pos as int);
    }
    let w = match get_word(tokens, pos) {
        Some(w) => w,
        None => {
            return None;
        },
    };
    if word_is(w, "struct") {
        match get_name(tokens, pos + 1) {
            Some(n) => Some((DeclType::StructRef(n), pos + 2)),
            None => None,
        }
    } else if word_is(w, "enum") {
        match get_name(tokens, pos + 1) {
            Some(n) => Some((DeclType::EnumRef(n), pos + 2)),
            None => None,
        }
    } else {
        match type_at(tokens, pos) {
            Some((t, next)) => Some((DeclType::Basic(t), next)),
            None => None,
        }
    }
}

/// What is parsed so far, followed by what the rest of a list yields.
pub open spec fn followed<T>(done: Seq<T>, rest: Option<(Seq<T>, int)>) -> Option<(Seq<T>, int)> {
    match rest {
        Some((more, end)) => Some((done + more, end)),
        None => None,
    }
}

/// The fields of a struct from position `start` to the closing brace.
fn fields_at(tokens: &Vec<Token>, start: usize) -> (r: Option<(Vec<UDTDecl>, usize)>)
    requires
        tokens.len() <= token_limit(),
        start <= tokens.len(),
    ensures
        match r {
            Some((fields, end)) => parse_fields(tokens_view(tokens@), start as int) == Some(
                (udts_view(fields@), end as int),
            ) && start < end <= tokens.len(),
            None => parse_fields(tokens_view(tokens@), start as int) is None,
        },
{
    let ghost toks = tokens_view(tokens@);
    let mut fields: Vec<UDTDecl> = Vec::new();
    let mut pos: usize = start;
    assert(udts_view(fields@) =~= Seq::empty());
    assert(followed(udts_view(fields@), parse_fields(toks, pos as int)) =~= parse_fields(
        toks,
        start as int,
    )) by {
        if parse_fields(toks, pos as int) is Some {
            let found = parse_fields(toks, pos as int)->0;
            assert(Seq::<UDTDeclView>::empty() + found.0 =~= found.0);
        }
    }
    loop
        invariant
            toks == tokens_view(tokens@),
            tokens.len() <= token_limit(),
            start <= pos <= tokens.len(),
            parse_fields(toks, start as int) == followed(
                udts_view(fields@),
                parse_fields(toks, pos as int),
            ),
        decreases tokens.len() - pos,
    {
        if mark_at(tokens, pos, Mark::Close) {
            assert(udts_view(fields@) + Seq::<UDTDeclView>::empty() =~= udts_view(fields@));
            return Some((fields, pos + 1));
        }
        let (ty, after) = match decl_type_at(tokens, pos) {
            Some(found) => found,
            None => {
                return None;
            },
        };
        let name = match get_name(tokens, after) {
            Some(name) => name,
            None => {
                return None;
            },
        };
        if !mark_at(tokens, after + 1, Mark::Semicolon) {
            return None;
        }
        proof {
            let field = UDTDeclView { name: name@, ty: ty@ };
            let done = udts_view(fields@);
            let longer = fields@.push(UDTDecl { name, ty });
            assert(udts_view(longer) =~= done.push(field));
            if parse_fields(toks, after + 2) is Some {
                let rest = (parse_fields(toks, after + 2)->0).0;
                assert(done + (seq![field] + rest) =~= done.push(field) + rest);
            }
        }
        fields.push(UDTDecl { name, ty });
        pos = after + 2;
    }
}

/// The variants of an enumeration from position `start` to the closing
/// brace.
fn variants_at(tokens: &Vec<Token>, start: usize) -> (r: Option<(Vec<EnumValue>, usize)>)
    requires
        tokens.len() <= token_limit(),
        start <= tokens.len(),
    ensures
        match r {
            Some((variants, end)) => parse_variants(tokens_view(tokens@), start as int) == Some(
                (enum_values_view(variants@), end as int),
            ) && start < end <= tokens.len(),
            None => parse_variants(tokens_view(tokens@), start as int) is None,
        },
{
    let ghost toks = tokens_view(tokens@);
    let mut variants: Vec<EnumValue> = Vec::new();
    let mut pos: usize = start;
    assert(enum_values_view(variants@) =~= Seq::empty());
    assert(followed(enum_values_view(variants@), parse_variants(toks, pos as int))
        =~= parse_variants(toks, start as int)) by {
        if parse_variants(toks, pos as int) is Some {
            let found = parse_variants(toks, pos as int)->0;
            assert(Seq::<(Seq<char>, int)>::empty() + found.0 =~= found.0);
        }
    }
    loop
        invariant
            toks == tokens_view(tokens@),
            tokens.len() <= token_limit(),
            start <= pos <= tokens.len(),
            parse_variants(toks, start as int) == followed(
                enum_values_view(variants@),
                parse_variants(toks, pos as int),
            ),
        decreases tokens.len() - pos,
    {
        let name = match get_name(tokens, pos) {
            Some(name) => name,
            None => {
                return None;
            },
        };
        if !(mark_at(tokens, pos + 1, Mark::Equals) && mark_at(tokens, pos + 3, Mark::Comma)) {
            return None;
        }
        let value = match get_word(tokens, pos + 2) {
            Some(w) => match integer_value(w.as_str()) {
                Some(value) => value,
                None => {
                    return None;
                },
            },
            None => {
                return None;
            },
        };
        let ghost variant = (name@, value as int);
        let ghost done = enum_values_view(variants@);
        proof {
            let longer = variants@.push((name, value));
            assert(enum_values_view(longer) =~= done.push(variant));
        }
        variants.push((name, value));
        if mark_at(tokens, pos + 4, Mark::Close) {
            assert(done + seq![variant] =~= done.push(variant));
            return Some((variants, pos + 5));
        }
        proof {
            if parse_variants(toks, pos + 4) is Some {
                let rest = (parse_variants(toks, pos + 4)->0).0;
                assert(done + (seq![variant] + rest) =~= done.push(variant) + rest);
            }
        }
        pos = pos + 4;
    }
}

/// The parameter types of a function from position `start` to the closing
/// brace.
fn params_at(tokens: &Vec<Token>, start: usize) -> (r: Option<(Vec<DeclType>, usize)>)
    requires
        tokens.len() <= token_limit(),
        start <= tokens.len(),
    ensures
        match r {
            Some((params, end)) => parse_params(tokens_view(tokens@), start as int) == Some(
                (decl_types_view(params@), end as int),
            ) && start < end <= tokens.len(),
            None => parse_params(tokens_view(tokens@), start as int) is None,
        },
{
    let ghost toks = tokens_view(tokens@);
    let mut params: Vec<DeclType> = Vec::new();
    let mut pos: usize = start;
    assert(decl_types_view(params@) =~= Seq::empty());
    assert(followed(decl_types_view(params@), parse_params(toks, pos as int)) =~= parse_params(
        toks,
        start as int,
    )) by {
        if parse_params(toks, pos as int) is Some {
            let found = parse_params(toks, pos as int)->0;
            assert(Seq::<DeclTypeView>::empty() + found.0 =~= found.0);
        }
    }
    loop
        invariant
            toks == tokens_view(tokens@),
            tokens.len() <= token_limit(),
            start <= pos <= tokens.len(),
            parse_params(toks, start as int) == followed(
                decl_types_view(params@),
                parse_params(toks, pos as int),
            ),
        decreases tokens.len() - pos,
    {
        if mark_at(tokens, pos, Mark::Close) {
            assert(decl_types_view(params@) + Seq::<DeclTypeView>::empty() =~= decl_types_view(
                params@,
            ));
            return Some((params, pos + 1));
        }
        let (ty, after) = match decl_type_at(tokens, pos) {
            Some(found) => found,
            None => {
                return None;
            },
        };
        if !mark_at(tokens, after, Mark::Comma) {
            return None;
        }
        proof {
            let done = decl_types_view(params@);
            let longer = params@.push(ty);
            assert(decl_types_view(longer) =~= done.push(ty@));
            if parse_params(toks, after + 1) is Some {
                let rest = (parse_params(toks, after + 1)->0).0;
                assert(done + (seq![ty@] + rest) =~= done.push(ty@) + rest);
            }
        }
        params.push(ty);
        pos = after + 1;
    }
}

/// The scalar transformation that the word names.
fn scalar_op(w: &String) -> (r: Option<ScalarOp>)
    ensures
        r == op_of(w@),
{
    if word_is(w, "op:null") || word_is(w, "op:none") {
        Some(ScalarOp::Null)
    } else if word_is(w, "op:deref") {
        Some(ScalarOp::Deref)
    } else if word_is(w, "op:addressof") {
        Some(ScalarOp::AddressOf)
    } else {
        None
    }
}

/// The generator that the word names.
fn generator_name(w: &String) -> (r: Option<String>)
    ensures
        match r {
            Some(g) => gen_of(w@) == Some(g@),
            None => gen_of(w@) is None,
        },
{
    let text = w.as_str();
    let n = text.unicode_len();
    if n < 4 {
        return None;
    }
    let prefix = String::from_str(text.substring_char(0, 4));
    if word_is(&prefix, "gen:") {
        Some(String::from_str(text.substring_char(4, n)))
    } else {
        None
    }
}

/// The item that starts at position `pos`.
fn item_at(tokens: &Vec<Token>, pos: usize) -> (r: Option<(Declaration, usize)>)
    requires
        tokens.len() <= token_limit(),
        pos < tokens.len(),
    ensures
        match r {
            Some((d, end)) => parse_item(tokens_view(tokens@), pos as int) == Some(
                (d@, end as int),
            ) && pos < end <= tokens.len(),
            None => parse_item(tokens_view(tokens@), pos as int) is None,
        },
{
    proof {
        lemma_parse_item(tokens_view(tokens@), pos as int);
    }
    let w = match get_word(tokens, pos) {
        Some(w) => w,
        None => {
            return None;
        },
    };
    let name = match get_name(tokens, pos + 1) {
        Some(name) => name,
        None => {
            return None;
        },
    };
    if word_is(w, "struct") {
        if !mark_at(tokens, pos + 2, Mark::Open) {
            return None;
        }
        match fields_at(tokens, pos + 3) {
            Some((fields, end)) => Some(
                (Declaration::UDT(UDTDecl { name, ty: DeclType::Struct(fields) }), end),
            ),
            None => None,
        }
    } else if word_is(w, "enum") {
        if !mark_at(tokens, pos + 2, Mark::Open) {
            return None;
        }
        match variants_at(tokens, pos + 3) {
            Some((variants, end)) => Some(
                (Declaration::UDT(UDTDecl { name, ty: DeclType::Enum(variants) }), end),
            ),
            None => None,
        }
    } else if word_is(w, "var:free") {
        let op = match get_word(tokens, pos + 2) {
            Some(o) => scalar_op(o),
            None => {
                return None;
            },
        };
        let genname = match get_word(tokens, pos + 3) {
            Some(g) => generator_name(g),
            None => {
                return None;
            },
        };
        if pos + 4 > tokens.len() {
            return None;
        }
        let ty = decl_type_at(tokens, pos + 4);
        match (op, genname, ty) {
            (Some(op), Some(genname), Some((ty, end))) => Some(
                (Declaration::Free(FreeVarDecl { name, op, genname, ty }), end),
            ),
            _ => None,
        }
    } else if word_is(w, "function:new") {
        if pos + 2 > tokens.len() {
            return None;
        }
        let (retval, after) = match decl_type_at(tokens, pos + 2) {
            Some(found) => found,
            None => {
                return None;
            },
        };
        if !mark_at(tokens, after, Mark::Open) {
            return None;
        }
        match params_at(tokens, after + 1) {
            Some((arguments, end)) => Some(
                (Declaration::Function(FuncDecl { name, retval, arguments }), end),
            ),
            None => None,
        }
    } else {
        None
    }
}

/// What a text means as a description: its tokens, read as items.
pub open spec fn parse_text(s: Seq<char>) -> Result<Seq<DeclarationView>, ParseError> {
    if !vstd::utf8::is_ascii_chars(s) {
        Err(ParseError::NotAscii)
    } else if lex(s).len() > token_limit() {
        Err(ParseError::TooLong)
    } else {
        match parse(lex(s)) {
            Ok(decls) => Ok(decls),
            Err((item, token)) => Err(
                ParseError::Syntax { item: item as usize, token: token as usize },
            ),
        }
    }
}

/// What is parsed so far, followed by what the rest of the text yields.
pub open spec fn then_items(
    done: Seq<DeclarationView>,
    rest: Result<Seq<DeclarationView>, (nat, int)>,
) -> Result<Seq<DeclarationView>, (nat, int)> {
    match rest {
        Ok(more) => Ok(done + more),
        Err(e) => Err(e),
    }
}

/// The declarations that a sequence of tokens spells.
pub fn parse_tokens(tokens: &Vec<Token>) -> (r: Result<Vec<Declaration>, (usize, usize)>)
    requires
        tokens.len() <= token_limit(),
    ensures
        match r {
            Ok(decls) => parse(tokens_view(tokens@)) == Ok::<Seq<DeclarationView>, (nat, int)>(
                declarations_view(decls@),
            ),
            Err((item, token)) => parse(tokens_view(tokens@)) == Err::<
                Seq<DeclarationView>,
                (nat, int),
            >((item as nat, token as int)),
        },
{
    let ghost toks = tokens_view(tokens@);
    let mut decls: Vec<Declaration> = Vec::new();
    let mut pos: usize = 0;
    assert(declarations_view(decls@) =~= Seq::empty());
    assert(then_items(declarations_view(decls@), parse_items(toks, 0, 0)) =~= parse(toks)) by {
        if parse_items(toks, 0, 0) is Ok {
            let found = parse_items(toks, 0, 0)->Ok_0;
            assert(Seq::<DeclarationView>::empty() + found =~= found);
        }
    }
    while pos < tokens.len()
        invariant
            toks == tokens_view(tokens@),
            tokens.len() <= token_limit(),
            pos <= tokens.len(),
            decls.len() <= pos,
            parse(toks) == then_items(
                declarations_view(decls@),
                parse_items(toks, pos as int, decls.len() as nat),
            ),
        decreases tokens.len() - pos,
    {
        match item_at(tokens, pos) {
            None => {
                return Err((decls.len(), pos));
            },
            Some((d, next)) => {
                proof {
                    let done = declarations_view(decls@);
                    let longer = decls@.push(d);
                    assert(declarations_view(longer) =~= done.push(d@));
                    if parse_items(toks, next as int, (decls.len() + 1) as nat) is Ok {
                        let rest = parse_items(toks, next as int, (decls.len() + 1) as nat)->Ok_0;
                        assert(done + (seq![d@] + rest) =~= done.push(d@) + rest);
                    }
                }
                decls.push(d);
                pos = next;
            },
        }
    }
    assert(declarations_view(decls@) + Seq::<DeclarationView>::empty() =~= declarations_view(
        decls@,
    ));
    Ok(decls)
}

/// Reads a description.
#[allow(non_snake_case)]
pub fn parse_L_API(s: &str) -> (r: Result<Vec<Declaration>, ParseError>)
    ensures
        match r {
            Ok(decls) => parse_text(s@) == Ok::<Seq<DeclarationView>, ParseError>(
                declarations_view(decls@),
            ),
            Err(e) => parse_text(s@) == Err::<Seq<DeclarationView>, ParseError>(e),
        },
{
    let tokens = match tokenize(s) {
        Some(tokens) => tokens,
        None => {
            return Err(ParseError::NotAscii);
        },
    };
    if tokens.len() > usize::MAX - 8 {
        return Err(ParseError::TooLong);
    }
    match parse_tokens(&tokens) {
        Ok(decls) => Ok(decls),
        Err((item, token)) => Err(ParseError::Syntax { item, token }),
    }
}

} // verus!
