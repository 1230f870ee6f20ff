//! The description language written out, and the law that ties the parser
//! to it: what is written is read back as it was.
use vstd::prelude::*;
use crate::api::{DeclTypeView, DeclarationView, UDTDeclView};
use crate::decimal::{digit_text, integer_text, natural_text};
use crate::fuzz::{
    ParseError, digits_value, gen_of, integer_of, is_digit, is_name, native_of, op_of, parse,
    parse_decl_type, parse_fields, parse_item, parse_items, parse_params, parse_text, parse_type,
    parse_variants, pow10, token_limit,
};
use crate::lexer::{TokenView, is_space, is_word_char, lex, lex_from, punctuation, word_end};
use crate::typ::{Native, TypeView};
use crate::variable::ScalarOp;

verus! {

/// The keyword of a native kind.
pub open spec fn native_keyword(n: Native) -> Seq<char> {
    match n {
        Native::Integer => "int"@,
        Native::I32 => "i32"@,
        Native::Usize => "usize"@,
        Native::Character => "char"@,
        Native::Void => "void"@,
    }
}

/// The word of a scalar transformation.
pub open spec fn op_word(op: ScalarOp) -> Seq<char> {
    match op {
        ScalarOp::Null => "op:null"@,
        ScalarOp::Deref => "op:deref"@,
        ScalarOp::AddressOf => "op:addressof"@,
    }
}

/// A type that the language can spell: a native kind, a pointer to such a
/// type, or an aggregate that is named and has no members of its own.
pub open spec fn writable_type(t: TypeView) -> bool
    decreases t,
{
    match t {
        TypeView::Builtin(_) => true,
        TypeView::Pointer(inner) => writable_type(*inner),
        TypeView::Struct(n, fields) => is_name(n) && fields.len() == 0,
        TypeView::Enum(n, variants) => is_name(n) && variants.len() == 0,
        _ => false,
    }
}

/// The tokens that spell a type.
pub open spec fn type_tokens(t: TypeView) -> Seq<TokenView>
    decreases t,
{
    match t {
        TypeView::Builtin(n) => seq![TokenView::Word(native_keyword(n))],
        TypeView::Pointer(inner) => seq![TokenView::Word("pointer"@)] + type_tokens(*inner),
        TypeView::Struct(n, _) => seq![TokenView::Word("struct"@), TokenView::Word(n)],
        TypeView::Enum(n, _) => seq![TokenView::Word("enum"@), TokenView::Word(n)],
        _ => Seq::empty(),
    }
}

/// A declared type that the language can spell.  An aggregate that stands
/// by itself is a reference by name, never a basic type.
pub open spec fn writable_decl_type(d: DeclTypeView) -> bool {
    match d {
        DeclTypeView::Basic(t) => writable_type(t) && !(t is Struct) && !(t is Enum),
        DeclTypeView::StructRef(n) => is_name(n),
        DeclTypeView::EnumRef(n) => is_name(n),
        _ => false,
    }
}

/// The tokens that spell a declared type.
pub open spec fn decl_type_tokens(d: DeclTypeView) -> Seq<TokenView> {
    match d {
        DeclTypeView::Basic(t) => type_tokens(t),
        DeclTypeView::StructRef(n) => seq![TokenView::Word("struct"@), TokenView::Word(n)],
        DeclTypeView::EnumRef(n) => seq![TokenView::Word("enum"@), TokenView::Word(n)],
        _ => Seq::empty(),
    }
}

/// The tokens `part` stand in `toks` from position `pos` on.
pub open spec fn has_at(toks: Seq<TokenView>, pos: int, part: Seq<TokenView>) -> bool {
    &&& 0 <= pos
    &&& pos + part.len() <= toks.len()
    &&& forall|k: int| 0 <= k < part.len() ==> toks[pos + k] == #[trigger] part[k]
}

/// Where two runs of tokens stand one after the other, each stands at its
/// place.
pub proof fn lemma_has_at_split(
    toks: Seq<TokenView>,
    pos: int,
    first: Seq<TokenView>,
    second: Seq<TokenView>,
)
    requires
        has_at(toks, pos, first + second),
    ensures
        has_at(toks, pos, first),
        has_at(toks, pos + first.len(), second),
{
    let both = first + second;
    assert forall|k: int| 0 <= k < first.len() implies toks[pos + k] == #[trigger] first[k] by {
        assert(both[k] == first[k]);
    }
    assert forall|k: int| 0 <= k < second.len() implies toks[pos + first.len() + k]
        == #[trigger] second[k] by {
        assert(both[first.len() + k] == second[k]);
    }
}

/// The keywords of the language are told apart.
pub proof fn lemma_keywords()
    ensures
        forall|n: Native| native_of(#[trigger] native_keyword(n)) == Some(n),
        native_of("pointer"@) is None,
        native_of("struct"@) is None,
        native_of("enum"@) is None,
        "pointer"@ != "struct"@,
        "pointer"@ != "enum"@,
        "struct"@ != "enum"@,
        forall|n: Native| #[trigger] native_keyword(n) != "struct"@ && native_keyword(n) != "enum"@,
        "var:free"@ != "struct"@,
        "var:free"@ != "enum"@,
        "function:new"@ != "struct"@,
        "function:new"@ != "enum"@,
        "function:new"@ != "var:free"@,
        forall|op: ScalarOp| op_of(#[trigger] op_word(op)) == Some(op),
{
    reveal_strlit("int");
    reveal_strlit("i32");
    reveal_strlit("usize");
    reveal_strlit("char");
    reveal_strlit("void");
    reveal_strlit("pointer");
    reveal_strlit("struct");
    reveal_strlit("enum");
    reveal_strlit("var:free");
    reveal_strlit("function:new");
    reveal_strlit("op:null");
    reveal_strlit("op:none");
    reveal_strlit("op:deref");
    reveal_strlit("op:addressof");
    assert("int"@.len() == 3 && "i32"@.len() == 3 && "usize"@.len() == 5);
    assert("char"@.len() == 4 && "void"@.len() == 4 && "enum"@.len() == 4);
    assert("pointer"@.len() == 7 && "struct"@.len() == 6);
    assert("var:free"@.len() == 8 && "function:new"@.len() == 12);
    assert("op:null"@.len() == 7 && "op:none"@.len() == 7);
    assert("op:deref"@.len() == 8 && "op:addressof"@.len() == 12);
    assert("int"@[1] != "i32"@[1]);
    assert("char"@[0] != "void"@[0]);
    assert("enum"@[0] != "void"@[0]);
    assert("enum"@[0] != "char"@[0]);
    assert forall|n: Native| native_of(#[trigger] native_keyword(n)) == Some(n) by {
        match n {
            Native::Integer => {},
            Native::I32 => {},
            Native::Usize => {},
            Native::Character => {},
            Native::Void => {},
        }
    }
    assert forall|op: ScalarOp| op_of(#[trigger] op_word(op)) == Some(op) by {
        match op {
            ScalarOp::Null => {},
            ScalarOp::Deref => {},
            ScalarOp::AddressOf => {},
        }
    }
}

/// A type that is written out is read back as it was.
pub proof fn lemma_read_type(toks: Seq<TokenView>, pos: int, t: TypeView)
    requires
        writable_type(t),
        has_at(toks, pos, type_tokens(t)),
    ensures
        parse_type(toks, pos) == Some((t, pos + type_tokens(t).len())),
        type_tokens(t).len() >= 1,
        type_tokens(t)[0] is Word,
    decreases t,
{
    lemma_keywords();
    let part = type_tokens(t);
    assert(toks[pos + 0] == part[0]);
    match t {
        TypeView::Builtin(n) => {},
        TypeView::Pointer(inner) => {
            lemma_has_at_split(toks, pos, seq![TokenView::Word("pointer"@)], type_tokens(*inner));
            lemma_read_type(toks, pos + 1, *inner);
        },
        TypeView::Struct(n, fields) => {
            assert(toks[pos + 1] == part[1]);
            assert(fields =~= Seq::empty());
        },
        TypeView::Enum(n, variants) => {
            assert(toks[pos + 1] == part[1]);
            assert(variants =~= Seq::empty());
        },
        _ => {},
    }
}

/// A declared type that is written out is read back as it was.
pub proof fn lemma_read_decl_type(toks: Seq<TokenView>, pos: int, d: DeclTypeView)
    requires
        writable_decl_type(d),
        has_at(toks, pos, decl_type_tokens(d)),
    ensures
        parse_decl_type(toks, pos) == Some((d, pos + decl_type_tokens(d).len())),
        decl_type_tokens(d).len() >= 1,
        decl_type_tokens(d)[0] is Word,
{
    lemma_keywords();
    let part = decl_type_tokens(d);
    match d {
        DeclTypeView::Basic(t) => {
            lemma_read_type(toks, pos, t);
            assert(toks[pos + 0] == part[0]);
        },
        DeclTypeView::StructRef(n) => {
            assert(toks[pos + 0] == part[0]);
            assert(toks[pos + 1] == part[1]);
        },
        DeclTypeView::EnumRef(n) => {
            assert(toks[pos + 0] == part[0]);
            assert(toks[pos + 1] == part[1]);
        },
        _ => {},
    }
}

/// The numeral of a digit is that digit.
proof fn lemma_digit_text(d: nat)
    requires
        d < 10,
    ensures
        digit_text(d).len() == 1,
        digit_text(d)[0] as int == ('0' as int) + d,
{
    reveal_strlit("0");
    reveal_strlit("1");
    reveal_strlit("2");
    reveal_strlit("3");
    reveal_strlit("4");
    reveal_strlit("5");
    reveal_strlit("6");
    reveal_strlit("7");
    reveal_strlit("8");
    reveal_strlit("9");
}

/// The numeral of a number below ten to the `k` has at most `k` digits, and
/// denotes the number.
proof fn lemma_natural_text(n: nat, k: nat)
    requires
        1 <= k,
        n < pow10(k),
    ensures
        1 <= natural_text(n).len() <= k,
        forall|i: int| 0 <= i < natural_text(n).len() ==> is_digit(#[trigger] natural_text(n)[i]),
        digits_value(natural_text(n)) == n,
    decreases n,
{
    let w = natural_text(n);
    if n < 10 {
        lemma_digit_text(n);
        assert(w.drop_last() =~= Seq::empty());
        assert(digits_value(w.drop_last()) == 0);
    } else {
        assert(pow10(1) == 10) by {
            reveal_with_fuel(pow10, 2);
        }
        assert(k >= 2);
        assert(pow10(k) == 10 * pow10((k - 1) as nat));
        lemma_natural_text(n / 10, (k - 1) as nat);
        lemma_digit_text(n % 10);
        let front = natural_text(n / 10);
        let last = digit_text(n % 10);
        assert(w == front + last);
        assert(w.drop_last() =~= front);
        assert(w.last() == last[0]);
        assert forall|i: int| 0 <= i < w.len() implies is_digit(#[trigger] w[i]) by {
            if i < front.len() {
                assert(w[i] == front[i]);
            }
        }
    }
}

/// An integer that is written out in decimal is read back as it was.
pub proof fn lemma_read_integer(v: int)
    requires
        -pow10(18) < v < pow10(18),
    ensures
        integer_of(integer_text(v)) == Some(v),
{
    reveal_strlit("-");
    let w = integer_text(v);
    if v < 0 {
        let digits = natural_text((-v) as nat);
        lemma_natural_text((-v) as nat, 18);
        assert(w.subrange(1, w.len() as int) =~= digits);
    } else {
        lemma_natural_text(v as nat, 18);
        assert(is_digit(w[0]));
    }
}

/// A field that the language can spell.
pub open spec fn writable_field(f: UDTDeclView) -> bool {
    is_name(f.name) && writable_decl_type(f.ty)
}

/// The tokens that spell the fields of a struct and its closing brace.
pub open spec fn fields_tokens(fields: Seq<UDTDeclView>) -> Seq<TokenView>
    decreases fields.len(),
{
    if fields.len() == 0 {
        seq![TokenView::Close]
    } else {
        decl_type_tokens(fields[0].ty) + seq![
            TokenView::Word(fields[0].name),
            TokenView::Semicolon,
        ] + fields_tokens(fields.drop_first())
    }
}

/// The fields of a struct that are written out are read back as they were.
pub proof fn lemma_read_fields(toks: Seq<TokenView>, pos: int, fields: Seq<UDTDeclView>)
    requires
        forall|i: int| 0 <= i < fields.len() ==> writable_field(#[trigger] fields[i]),
        has_at(toks, pos, fields_tokens(fields)),
    ensures
        parse_fields(toks, pos) == Some((fields, pos + fields_tokens(fields).len())),
    decreases fields.len(),
{
    if fields.len() == 0 {
        assert(toks[pos + 0] == fields_tokens(fields)[0]);
        assert(fields =~= Seq::empty());
    } else {
        let first = fields[0];
        let rest = fields.drop_first();
        let head = decl_type_tokens(first.ty);
        let mid = seq![TokenView::Word(first.name), TokenView::Semicolon];
        let tail = fields_tokens(rest);
        assert(writable_field(first));
        lemma_has_at_split(toks, pos, head + mid, tail);
        lemma_has_at_split(toks, pos, head, mid);
        lemma_read_decl_type(toks, pos, first.ty);
        let after = pos + head.len();
        assert(toks[after + 0] == mid[0]);
        assert(toks[after + 1] == mid[1]);
        assert(toks[pos + 0] == head[0]);
        assert forall|i: int| 0 <= i < rest.len() implies writable_field(#[trigger] rest[i]) by {
            assert(rest[i] == fields[i + 1]);
        }
        lemma_read_fields(toks, after + 2, rest);
        assert(seq![first] + rest =~= fields);
    }
}

/// A variant that the language can spell: a name, and a value of at most
/// eighteen digits.
pub open spec fn writable_variant(v: (Seq<char>, int)) -> bool {
    is_name(v.0) && -pow10(18) < v.1 < pow10(18)
}

/// The tokens that spell the variants of an enumeration, of which there is
/// at least one, and its closing brace.
pub open spec fn variants_tokens(variants: Seq<(Seq<char>, int)>) -> Seq<TokenView>
    decreases variants.len(),
{
    if variants.len() == 0 {
        Seq::empty()
    } else {
        seq![
            TokenView::Word(variants[0].0),
            TokenView::Equals,
            TokenView::Word(integer_text(variants[0].1)),
            TokenView::Comma,
        ] + (if variants.len() == 1 {
            seq![TokenView::Close]
        } else {
            variants_tokens(variants.drop_first())
        })
    }
}

/// The variants of an enumeration that are written out are read back as
/// they were.
pub proof fn lemma_read_variants(toks: Seq<TokenView>, pos: int, variants: Seq<(Seq<char>, int)>)
    requires
        variants.len() >= 1,
        forall|i: int| 0 <= i < variants.len() ==> writable_variant(#[trigger] variants[i]),
        has_at(toks, pos, variants_tokens(variants)),
    ensures
        parse_variants(toks, pos) == Some((variants, pos + variants_tokens(variants).len())),
    decreases variants.len(),
{
    let first = variants[0];
    let rest = variants.drop_first();
    let head = seq![
        TokenView::Word(first.0),
        TokenView::Equals,
        TokenView::Word(integer_text(first.1)),
        TokenView::Comma,
    ];
    let tail = if variants.len() == 1 {
        seq![TokenView::Close]
    } else {
        variants_tokens(rest)
    };
    assert(writable_variant(first));
    lemma_has_at_split(toks, pos, head, tail);
    assert(toks[pos + 0] == head[0]);
    assert(toks[pos + 1] == head[1]);
    assert(toks[pos + 2] == head[2]);
    assert(toks[pos + 3] == head[3]);
    lemma_read_integer(first.1);
    assert(toks[pos + 4 + 0] == tail[0]);
    if variants.len() == 1 {
        assert(variants =~= seq![first]);
    } else {
        assert forall|i: int| 0 <= i < rest.len() implies writable_variant(#[trigger] rest[i]) by {
            assert(rest[i] == variants[i + 1]);
        }
        assert(writable_variant(rest[0]));
        lemma_read_variants(toks, pos + 4, rest);
        assert(seq![first] + rest =~= variants);
    }
}

/// The tokens that spell the parameter types of a function and the closing
/// brace.
pub open spec fn params_tokens(params: Seq<DeclTypeView>) -> Seq<TokenView>
    decreases params.len(),
{
    if params.len() == 0 {
        seq![TokenView::Close]
    } else {
        decl_type_tokens(params[0]) + seq![TokenView::Comma] + params_tokens(params.drop_first())
    }
}

/// The parameter types of a function that are written out are read back as
/// they were.
pub proof fn lemma_read_params(toks: Seq<TokenView>, pos: int, params: Seq<DeclTypeView>)
    requires
        forall|i: int| 0 <= i < params.len() ==> writable_decl_type(#[trigger] params[i]),
        has_at(toks, pos, params_tokens(params)),
    ensures
        parse_params(toks, pos) == Some((params, pos + params_tokens(params).len())),
    decreases params.len(),
{
    if params.len() == 0 {
        assert(toks[pos + 0] == params_tokens(params)[0]);
        assert(params =~= Seq::empty());
    } else {
        let first = params[0];
        let rest = params.drop_first();
        let head = decl_type_tokens(first);
        let mid = seq![TokenView::Comma];
        let tail = params_tokens(rest);
        assert(writable_decl_type(first));
        lemma_has_at_split(toks, pos, head + mid, tail);
        lemma_has_at_split(toks, pos, head, mid);
        lemma_read_decl_type(toks, pos, first);
        let after = pos + head.len();
        assert(toks[after + 0] == mid[0]);
        assert(toks[pos + 0] == head[0]);
        assert forall|i: int| 0 <= i < rest.len() implies writable_decl_type(
            #[trigger] rest[i],
        ) by {
            assert(rest[i] == params[i + 1]);
        }
        lemma_read_params(toks, after + 1, rest);
        assert(seq![first] + rest =~= params);
    }
}

/// A declaration that the language can spell.
pub open spec fn writable(d: DeclarationView) -> bool {
    match d {
        DeclarationView::UDT(u) => is_name(u.name) && match u.ty {
            DeclTypeView::Struct(fields) => forall|i: int|
                0 <= i < fields.len() ==> writable_field(#[trigger] fields[i]),
            DeclTypeView::Enum(variants) => variants.len() >= 1 && forall|i: int|
                0 <= i < variants.len() ==> writable_variant(#[trigger] variants[i]),
            _ => false,
        },
        DeclarationView::Free(f) => is_name(f.name) && writable_decl_type(f.ty),
        DeclarationView::Function(f) => is_name(f.name) && writable_decl_type(f.retval)
            && forall|i: int|
            0 <= i < f.arguments.len() ==> writable_decl_type(#[trigger] f.arguments[i]),
    }
}

/// The tokens that spell a declaration.
pub open spec fn item_tokens(d: DeclarationView) -> Seq<TokenView> {
    match d {
        DeclarationView::UDT(u) => match u.ty {
            DeclTypeView::Enum(variants) => seq![
                TokenView::Word("enum"@),
                TokenView::Word(u.name),
                TokenView::Open,
            ] + variants_tokens(variants),
            DeclTypeView::Struct(fields) => seq![
                TokenView::Word("struct"@),
                TokenView::Word(u.name),
                TokenView::Open,
            ] + fields_tokens(fields),
            _ => Seq::empty(),
        },
        DeclarationView::Free(f) => seq![
            TokenView::Word("var:free"@),
            TokenView::Word(f.name),
            TokenView::Word(op_word(f.op)),
            TokenView::Word("gen:"@ + f.genname),
        ] + decl_type_tokens(f.ty),
        DeclarationView::Function(f) => seq![
            TokenView::Word("function:new"@),
            TokenView::Word(f.name),
        ] + decl_type_tokens(f.retval) + seq![TokenView::Open] + params_tokens(f.arguments),
    }
}

/// The tokens that spell a description.
pub open spec fn description_tokens(decls: Seq<DeclarationView>) -> Seq<TokenView>
    decreases decls.len(),
{
    if decls.len() == 0 {
        Seq::empty()
    } else {
        item_tokens(decls[0]) + description_tokens(decls.drop_first())
    }
}

/// The name of a generator is read back from the word that names it.
proof fn lemma_read_gen(g: Seq<char>)
    ensures
        gen_of("gen:"@ + g) == Some(g),
{
    reveal_strlit("gen:");
    let w = "gen:"@ + g;
    assert("gen:"@.len() == 4);
    assert(w.subrange(0, 4) =~= "gen:"@);
    assert(w.subrange(4, w.len() as int) =~= g);
}

/// A declaration that is written out is read back as it was.
pub proof fn lemma_read_item(toks: Seq<TokenView>, pos: int, d: DeclarationView)
    requires
        writable(d),
        has_at(toks, pos, item_tokens(d)),
    ensures
        parse_item(toks, pos) == Some((d, pos + item_tokens(d).len())),
        item_tokens(d).len() >= 1,
{
    lemma_keywords();
    let part = item_tokens(d);
    match d {
        DeclarationView::UDT(u) => match u.ty {
            DeclTypeView::Enum(variants) => {
                let head = seq![
                    TokenView::Word("enum"@),
                    TokenView::Word(u.name),
                    TokenView::Open,
                ];
                lemma_has_at_split(toks, pos, head, variants_tokens(variants));
                assert(toks[pos + 0] == head[0]);
                assert(toks[pos + 1] == head[1]);
                assert(toks[pos + 2] == head[2]);
                lemma_read_variants(toks, pos + 3, variants);
            },
            DeclTypeView::Struct(fields) => {
                let head = seq![
                    TokenView::Word("struct"@),
                    TokenView::Word(u.name),
                    TokenView::Open,
                ];
                lemma_has_at_split(toks, pos, head, fields_tokens(fields));
                assert(toks[pos + 0] == head[0]);
                assert(toks[pos + 1] == head[1]);
                assert(toks[pos + 2] == head[2]);
                lemma_read_fields(toks, pos + 3, fields);
            },
            _ => {},
        },
        DeclarationView::Free(f) => {
            let head = seq![
                TokenView::Word("var:free"@),
                TokenView::Word(f.name),
                TokenView::Word(op_word(f.op)),
                TokenView::Word("gen:"@ + f.genname),
            ];
            lemma_has_at_split(toks, pos, head, decl_type_tokens(f.ty));
            assert(toks[pos + 0] == head[0]);
            assert(toks[pos + 1] == head[1]);
            assert(toks[pos + 2] == head[2]);
            assert(toks[pos + 3] == head[3]);
            lemma_read_gen(f.genname);
            lemma_read_decl_type(toks, pos + 4, f.ty);
        },
        DeclarationView::Function(f) => {
            let head = seq![TokenView::Word("function:new"@), TokenView::Word(f.name)];
            let ret = decl_type_tokens(f.retval);
            let open = seq![TokenView::Open];
            let params = params_tokens(f.arguments);
            lemma_has_at_split(toks, pos, head + ret + open, params);
            lemma_has_at_split(toks, pos, head + ret, open);
            lemma_has_at_split(toks, pos, head, ret);
            assert(toks[pos + 0] == head[0]);
            assert(toks[pos + 1] == head[1]);
            lemma_read_decl_type(toks, pos + 2, f.retval);
            let after = pos + 2 + ret.len();
            assert(toks[after + 0] == open[0]);
            lemma_read_params(toks, after + 1, f.arguments);
        },
    }
}

/// The declarations that stand written out from position `pos` to the end
/// of the tokens are read back as they were.
proof fn lemma_read_items(toks: Seq<TokenView>, pos: int, count: nat, decls: Seq<DeclarationView>)
    requires
        forall|i: int| 0 <= i < decls.len() ==> writable(#[trigger] decls[i]),
        has_at(toks, pos, description_tokens(decls)),
        pos + description_tokens(decls).len() == toks.len(),
    ensures
        parse_items(toks, pos, count) == Ok::<Seq<DeclarationView>, (nat, int)>(decls),
    decreases decls.len(),
{
    if decls.len() == 0 {
        assert(decls =~= Seq::empty());
    } else {
        let first = decls[0];
        let rest = decls.drop_first();
        assert(writable(first));
        lemma_has_at_split(toks, pos, item_tokens(first), description_tokens(rest));
        lemma_read_item(toks, pos, first);
        assert forall|i: int| 0 <= i < rest.len() implies writable(#[trigger] rest[i]) by {
            assert(rest[i] == decls[i + 1]);
        }
        lemma_read_items(toks, pos + item_tokens(first).len(), count + 1, rest);
        assert(seq![first] + rest =~= decls);
    }
}

/// What is written is read back as it was: the tokens that spell a
/// description parse to that description.
pub proof fn lemma_parse_inverts_writing(decls: Seq<DeclarationView>)
    requires
        forall|i: int| 0 <= i < decls.len() ==> writable(#[trigger] decls[i]),
    ensures
        parse(description_tokens(decls)) == Ok::<Seq<DeclarationView>, (nat, int)>(decls),
{
    lemma_read_items(description_tokens(decls), 0, 0, decls);
}

/// A character of ASCII.
pub open spec fn is_ascii(c: char) -> bool {
    '\0' <= c <= '\u{7f}'
}

/// A word of the language: at least one character, all of them ASCII and
/// none of them whitespace or punctuation.
pub open spec fn is_word(w: Seq<char>) -> bool {
    &&& w.len() > 0
    &&& forall|i: int| 0 <= i < w.len() ==> is_word_char(#[trigger] w[i]) && is_ascii(w[i])
}

/// Every word among the tokens is a word of the language.
pub open spec fn all_words(tokens: Seq<TokenView>) -> bool {
    forall|k: int| 0 <= k < tokens.len() ==> ((#[trigger] tokens[k]) matches TokenView::Word(w)
        ==> is_word(w))
}

/// The text of a token.
pub open spec fn token_text(t: TokenView) -> Seq<char> {
    match t {
        TokenView::Word(w) => w,
        TokenView::Open => seq!['{'],
        TokenView::Close => seq!['}'],
        TokenView::Semicolon => seq![';'],
        TokenView::Comma => seq![','],
        TokenView::Equals => seq!['='],
    }
}

/// The text that spells a sequence of tokens: each token's text with a
/// blank after it.
pub open spec fn spell(tokens: Seq<TokenView>) -> Seq<char>
    decreases tokens.len(),
{
    if tokens.len() == 0 {
        Seq::empty()
    } else {
        token_text(tokens[0]) + seq![' '] + spell(tokens.drop_first())
    }
}

/// A run of word characters that ends at `end` is found to end there.
proof fn lemma_word_end_at(s: Seq<char>, i: int, end: int)
    requires
        0 <= i <= end <= s.len(),
        forall|k: int| i <= k < end ==> is_word_char(#[trigger] s[k]),
        end == s.len() || !is_word_char(s[end]),
    ensures
        word_end(s, i) == end,
    decreases end - i,
{
    if i < end {
        assert(is_word_char(s[i]));
        lemma_word_end_at(s, i + 1, end);
    }
}

/// Tokens that are spelt out after any text are read back from there as
/// they were.
proof fn lemma_lex_spell(before: Seq<char>, tokens: Seq<TokenView>)
    requires
        all_words(tokens),
    ensures
        lex_from(before + spell(tokens), before.len() as int) == tokens,
    decreases tokens.len(),
{
    let s = before + spell(tokens);
    let pos = before.len() as int;
    if tokens.len() == 0 {
        assert(tokens =~= Seq::empty());
    } else {
        let first = tokens[0];
        let rest = tokens.drop_first();
        let text = token_text(first);
        let longer = before + text + seq![' '];
        assert(s =~= longer + spell(rest));
        assert forall|k: int| 0 <= k < rest.len() implies ((#[trigger] rest[k]) matches TokenView::Word(
            w,
        ) ==> is_word(w)) by {
            assert(rest[k] == tokens[k + 1]);
        }
        lemma_lex_spell(longer, rest);
        let end = pos + text.len();
        assert(s[end] == ' ');
        assert forall|k: int| 0 <= k < text.len() implies s[pos + k] == text[k] by {}
        assert(lex_from(s, end) == lex_from(s, end + 1));
        match first {
            TokenView::Word(w) => {
                assert(is_word(w));
                assert(s[pos] == w[0]);
                assert forall|k: int| pos + 1 <= k < end implies is_word_char(#[trigger] s[k]) by {
                    assert(s[k] == w[k - pos]);
                }
                lemma_word_end_at(s, pos + 1, end);
                assert(s.subrange(pos, end) =~= w);
            },
            _ => {
                assert(s[pos] == text[0]);
            },
        }
        assert(seq![first] + rest =~= tokens);
    }
}

/// Tokens that are spelt out are read back as they were.
pub proof fn lemma_lex_inverts_spelling(tokens: Seq<TokenView>)
    requires
        all_words(tokens),
    ensures
        lex(spell(tokens)) == tokens,
        vstd::utf8::is_ascii_chars(spell(tokens)),
{
    lemma_lex_spell(Seq::empty(), tokens);
    assert(Seq::<char>::empty() + spell(tokens) =~= spell(tokens));
    lemma_spell_ascii(tokens);
}

/// The text of a token is ASCII.
proof fn lemma_token_text_ascii(t: TokenView, i: int)
    requires
        t matches TokenView::Word(w) ==> is_word(w),
        0 <= i < token_text(t).len(),
    ensures
        '\0' <= token_text(t)[i] <= '\u{7f}',
{
    match t {
        TokenView::Word(w) => {
            assert(is_word_char(w[i]) && is_ascii(w[i]));
        },
        TokenView::Open => {
            assert(token_text(t)[0] == '{');
        },
        TokenView::Close => {
            assert(token_text(t)[0] == '}');
        },
        TokenView::Semicolon => {
            assert(token_text(t)[0] == ';');
        },
        TokenView::Comma => {
            assert(token_text(t)[0] == ',');
        },
        TokenView::Equals => {
            assert(token_text(t)[0] == '=');
        },
    }
}

/// The spelling of words of the language is ASCII.
proof fn lemma_spell_ascii(tokens: Seq<TokenView>)
    requires
        all_words(tokens),
    ensures
        vstd::utf8::is_ascii_chars(spell(tokens)),
    decreases tokens.len(),
{
    if tokens.len() > 0 {
        let first = tokens[0];
        let rest = tokens.drop_first();
        assert forall|k: int| 0 <= k < rest.len() implies ((#[trigger] rest[k]) matches TokenView::Word(
            w,
        ) ==> is_word(w)) by {
            assert(rest[k] == tokens[k + 1]);
        }
        lemma_spell_ascii(rest);
        let text = token_text(first);
        let s = spell(tokens);
        assert forall|i: int| 0 <= i < s.len() implies '\0' <= #[trigger] s[i] <= '\u{7f}' by {
            if i < text.len() {
                assert(s[i] == text[i]);
                lemma_token_text_ascii(first, i);
            } else if i == text.len() {
                assert(s[i] == ' ');
            } else {
                let tail = spell(rest);
                let j = i - text.len() - 1;
                assert(s[i] == tail[j]);
                assert('\0' <= tail[j] <= '\u{7f}');
            }
        }
    }
}

/// A name is a word of the language.
proof fn lemma_name_is_word(w: Seq<char>)
    requires
        is_name(w),
    ensures
        is_word(w),
{
    assert forall|i: int| 0 <= i < w.len() implies is_word_char(#[trigger] w[i]) && is_ascii(w[i]) by {
        assert(crate::fuzz::is_name_char(w[i]));
    }
}

/// The keywords are words of the language.
proof fn lemma_keywords_are_words()
    ensures
        forall|n: Native| is_word(#[trigger] native_keyword(n)),
        forall|op: ScalarOp| is_word(#[trigger] op_word(op)),
        is_word("pointer"@),
        is_word("struct"@),
        is_word("enum"@),
        is_word("var:free"@),
        is_word("function:new"@),
        is_word("gen:"@),
{
    reveal_strlit("int");
    reveal_strlit("i32");
    reveal_strlit("usize");
    reveal_strlit("char");
    reveal_strlit("void");
    reveal_strlit("pointer");
    reveal_strlit("struct");
    reveal_strlit("enum");
    reveal_strlit("var:free");
    reveal_strlit("function:new");
    reveal_strlit("op:null");
    reveal_strlit("op:deref");
    reveal_strlit("op:addressof");
    reveal_strlit("gen:");
    assert(is_word("int"@));
    assert(is_word("i32"@));
    assert(is_word("usize"@));
    assert(is_word("char"@));
    assert(is_word("void"@));
    assert(is_word("op:null"@));
    assert(is_word("op:deref"@));
    assert(is_word("op:addressof"@));
    assert forall|n: Native| is_word(#[trigger] native_keyword(n)) by {
        match n {
            Native::Integer => {},
            Native::I32 => {},
            Native::Usize => {},
            Native::Character => {},
            Native::Void => {},
        }
    }
    assert forall|op: ScalarOp| is_word(#[trigger] op_word(op)) by {
        match op {
            ScalarOp::Null => {},
            ScalarOp::Deref => {},
            ScalarOp::AddressOf => {},
        }
    }
}

/// Two runs of words of the language make one.
proof fn lemma_all_words_join(first: Seq<TokenView>, second: Seq<TokenView>)
    requires
        all_words(first),
        all_words(second),
    ensures
        all_words(first + second),
{
    let both = first + second;
    assert forall|k: int| 0 <= k < both.len() implies ((#[trigger] both[k]) matches TokenView::Word(
        w,
    ) ==> is_word(w)) by {
        if k < first.len() {
            assert(both[k] == first[k]);
        } else {
            assert(both[k] == second[k - first.len()]);
        }
    }
}

/// The tokens that spell a type are words of the language.
proof fn lemma_type_words(t: TypeView)
    requires
        writable_type(t),
    ensures
        all_words(type_tokens(t)),
    decreases t,
{
    lemma_keywords_are_words();
    match t {
        TypeView::Pointer(inner) => {
            lemma_type_words(*inner);
            lemma_all_words_join(seq![TokenView::Word("pointer"@)], type_tokens(*inner));
        },
        TypeView::Struct(n, _) => {
            lemma_name_is_word(n);
        },
        TypeView::Enum(n, _) => {
            lemma_name_is_word(n);
        },
        _ => {},
    }
}

/// The tokens that spell a declared type are words of the language.
proof fn lemma_decl_type_words(d: DeclTypeView)
    requires
        writable_decl_type(d),
    ensures
        all_words(decl_type_tokens(d)),
{
    lemma_keywords_are_words();
    match d {
        DeclTypeView::Basic(t) => {
            lemma_type_words(t);
        },
        DeclTypeView::StructRef(n) => {
            lemma_name_is_word(n);
        },
        DeclTypeView::EnumRef(n) => {
            lemma_name_is_word(n);
        },
        _ => {},
    }
}

/// The tokens that spell the fields of a struct are words of the language.
proof fn lemma_fields_words(fields: Seq<UDTDeclView>)
    requires
        forall|i: int| 0 <= i < fields.len() ==> writable_field(#[trigger] fields[i]),
    ensures
        all_words(fields_tokens(fields)),
    decreases fields.len(),
{
    if fields.len() > 0 {
        let first = fields[0];
        let rest = fields.drop_first();
        assert(writable_field(first));
        assert forall|i: int| 0 <= i < rest.len() implies writable_field(#[trigger] rest[i]) by {
            assert(rest[i] == fields[i + 1]);
        }
        lemma_fields_words(rest);
        lemma_decl_type_words(first.ty);
        lemma_name_is_word(first.name);
        let mid = seq![TokenView::Word(first.name), TokenView::Semicolon];
        lemma_all_words_join(decl_type_tokens(first.ty), mid);
        lemma_all_words_join(decl_type_tokens(first.ty) + mid, fields_tokens(rest));
    }
}

/// The numeral of an integer of at most eighteen digits is a word of the
/// language.
proof fn lemma_integer_is_word(v: int)
    requires
        -pow10(18) < v < pow10(18),
    ensures
        is_word(integer_text(v)),
{
    reveal_strlit("-");
    let w = integer_text(v);
    if v < 0 {
        let digits = natural_text((-v) as nat);
        lemma_natural_text((-v) as nat, 18);
        assert forall|i: int| 0 <= i < w.len() implies
            is_word_char(#[trigger] w[i]) && is_ascii(w[i]) by {
            if i > 0 {
                assert(w[i] == digits[i - 1]);
                assert(is_digit(digits[i - 1]));
            }
        }
    } else {
        lemma_natural_text(v as nat, 18);
        assert forall|i: int| 0 <= i < w.len() implies
            is_word_char(#[trigger] w[i]) && is_ascii(w[i]) by {
            assert(is_digit(w[i]));
        }
    }
}

/// The tokens that spell the variants of an enumeration are words of the
/// language.
proof fn lemma_variants_words(variants: Seq<(Seq<char>, int)>)
    requires
        forall|i: int| 0 <= i < variants.len() ==> writable_variant(#[trigger] variants[i]),
    ensures
        all_words(variants_tokens(variants)),
    decreases variants.len(),
{
    if variants.len() > 0 {
        let first = variants[0];
        let rest = variants.drop_first();
        assert(writable_variant(first));
        assert forall|i: int| 0 <= i < rest.len() implies writable_variant(#[trigger] rest[i]) by {
            assert(rest[i] == variants[i + 1]);
        }
        lemma_variants_words(rest);
        lemma_name_is_word(first.0);
        lemma_integer_is_word(first.1);
        let head = seq![
            TokenView::Word(first.0),
            TokenView::Equals,
            TokenView::Word(integer_text(first.1)),
            TokenView::Comma,
        ];
        let tail = if variants.len() == 1 {
            seq![TokenView::Close]
        } else {
            variants_tokens(rest)
        };
        lemma_all_words_join(head, tail);
    }
}

/// The tokens that spell the parameter types of a function are words of
/// the language.
proof fn lemma_params_words(params: Seq<DeclTypeView>)
    requires
        forall|i: int| 0 <= i < params.len() ==> writable_decl_type(#[trigger] params[i]),
    ensures
        all_words(params_tokens(params)),
    decreases params.len(),
{
    if params.len() > 0 {
        let first = params[0];
        let rest = params.drop_first();
        assert(writable_decl_type(first));
        assert forall|i: int| 0 <= i < rest.len() implies writable_decl_type(
            #[trigger] rest[i],
        ) by {
            assert(rest[i] == params[i + 1]);
        }
        lemma_params_words(rest);
        lemma_decl_type_words(first);
        let mid = seq![TokenView::Comma];
        lemma_all_words_join(decl_type_tokens(first), mid);
        lemma_all_words_join(decl_type_tokens(first) + mid, params_tokens(rest));
    }
}

/// The name of the generator of a free variable can be spelt: its
/// characters are ASCII and none is whitespace or punctuation.
pub open spec fn spellable(d: DeclarationView) -> bool {
    d matches DeclarationView::Free(f) ==> forall|i: int|
        0 <= i < f.genname.len() ==> is_word_char(#[trigger] f.genname[i]) && is_ascii(
            f.genname[i],
        )
}

/// The tokens that spell a declaration are words of the language.
proof fn lemma_item_words(d: DeclarationView)
    requires
        writable(d),
        spellable(d),
    ensures
        all_words(item_tokens(d)),
{
    lemma_keywords_are_words();
    match d {
        DeclarationView::UDT(u) => {
            lemma_name_is_word(u.name);
            match u.ty {
                DeclTypeView::Enum(variants) => {
                    lemma_variants_words(variants);
                    lemma_all_words_join(
                        seq![TokenView::Word("enum"@), TokenView::Word(u.name), TokenView::Open],
                        variants_tokens(variants),
                    );
                },
                DeclTypeView::Struct(fields) => {
                    lemma_fields_words(fields);
                    lemma_all_words_join(
                        seq![TokenView::Word("struct"@), TokenView::Word(u.name), TokenView::Open],
                        fields_tokens(fields),
                    );
                },
                _ => {},
            }
        },
        DeclarationView::Free(f) => {
            lemma_name_is_word(f.name);
            lemma_decl_type_words(f.ty);
            let g = "gen:"@ + f.genname;
            assert(is_word(g)) by {
                assert(is_word("gen:"@));
                assert forall|i: int| 0 <= i < g.len() implies is_word_char(#[trigger] g[i])
                    && is_ascii(g[i]) by {
                    if i < "gen:"@.len() {
                        assert(g[i] == "gen:"@[i]);
                    } else {
                        assert(g[i] == f.genname[i - "gen:"@.len()]);
                    }
                }
            }
            lemma_all_words_join(
                seq![
                    TokenView::Word("var:free"@),
                    TokenView::Word(f.name),
                    TokenView::Word(op_word(f.op)),
                    TokenView::Word(g),
                ],
                decl_type_tokens(f.ty),
            );
        },
        DeclarationView::Function(f) => {
            lemma_name_is_word(f.name);
            lemma_decl_type_words(f.retval);
            lemma_params_words(f.arguments);
            let head = seq![TokenView::Word("function:new"@), TokenView::Word(f.name)];
            let ret = decl_type_tokens(f.retval);
            let open = seq![TokenView::Open];
            lemma_all_words_join(head, ret);
            lemma_all_words_join(head + ret, open);
            lemma_all_words_join(head + ret + open, params_tokens(f.arguments));
        },
    }
}

/// The tokens that spell a description are words of the language.
proof fn lemma_description_words(decls: Seq<DeclarationView>)
    requires
        forall|i: int| 0 <= i < decls.len() ==> writable(#[trigger] decls[i]) && spellable(decls[i]),
    ensures
        all_words(description_tokens(decls)),
    decreases decls.len(),
{
    if decls.len() > 0 {
        let rest = decls.drop_first();
        assert(writable(decls[0]) && spellable(decls[0]));
        assert forall|i: int| 0 <= i < rest.len() implies writable(#[trigger] rest[i])
            && spellable(rest[i]) by {
            assert(rest[i] == decls[i + 1]);
        }
        lemma_item_words(decls[0]);
        lemma_description_words(rest);
        lemma_all_words_join(item_tokens(decls[0]), description_tokens(rest));
    }
}

/// The text that spells a description.
pub open spec fn description_text(decls: Seq<DeclarationView>) -> Seq<char> {
    spell(description_tokens(decls))
}

/// Reading inverts writing: the text that spells a description is read
/// back as that description.
pub proof fn lemma_reading_inverts_writing(decls: Seq<DeclarationView>)
    requires
        forall|i: int| 0 <= i < decls.len() ==> writable(#[trigger] decls[i]) && spellable(decls[i]),
        description_tokens(decls).len() <= token_limit(),
    ensures
        parse_text(description_text(decls)) == Ok::<Seq<DeclarationView>, ParseError>(decls),
{
    lemma_description_words(decls);
    lemma_lex_inverts_spelling(description_tokens(decls));
    lemma_parse_inverts_writing(decls);
}

} // verus!
