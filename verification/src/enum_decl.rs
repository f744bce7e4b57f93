use vstd::prelude::*;

use crate::text::push_char;

verus! {

/// A token of an enum declaration, as the declaration parser sees it.
#[derive(Debug)]
pub enum Token {
    /// An identifier that is not a keyword.
    Ident(String),
    /// A literal, as written.
    Literal(String),
    /// `::`
    PathSep,
    /// `,`
    Comma,
    /// `<`
    Lt,
    /// `>`
    Gt,
    /// Any other token.
    Other,
}

/// The mathematical content of a [`Token`].
pub enum TokenView {
    Ident(Seq<char>),
    Literal(Seq<char>),
    PathSep,
    Comma,
    Lt,
    Gt,
    Other,
}

impl View for Token {
    type V = TokenView;

    open spec fn view(&self) -> TokenView {
        match self {
            Token::Ident(s) => TokenView::Ident(s@),
            Token::Literal(s) => TokenView::Literal(s@),
            Token::PathSep => TokenView::PathSep,
            Token::Comma => TokenView::Comma,
            Token::Lt => TokenView::Lt,
            Token::Gt => TokenView::Gt,
            Token::Other => TokenView::Other,
        }
    }
}

/// The views of a sequence of tokens.
pub open spec fn tokens_view(toks: Seq<Token>) -> Seq<TokenView> {
    toks.map_values(|t: Token| t@)
}

/// The views of a sequence of strings.
pub open spec fn strings_view(v: Seq<String>) -> Seq<Seq<char>> {
    v.map_values(|s: String| s@)
}

/// One variant of a declaration: a type, possibly behind a module path, and
/// its const generic arguments.
#[derive(Debug)]
pub struct VariantParser {
    /// The module path before the type, one segment per item.
    pub path: Vec<String>,
    /// The type.
    pub id: String,
    /// The const generic arguments, as written.
    pub const_generics: Vec<String>,
}

/// The mathematical content of a [`VariantParser`].
pub struct VariantView {
    pub path: Seq<Seq<char>>,
    pub id: Seq<char>,
    pub const_generics: Seq<Seq<char>>,
}

impl View for VariantParser {
    type V = VariantView;

    open spec fn view(&self) -> VariantView {
        VariantView {
            path: strings_view(self.path@),
            id: self.id@,
            const_generics: strings_view(self.const_generics@),
        }
    }
}

/// An enum declaration: the enum's name and its variants.
#[derive(Debug)]
pub struct EnumParser {
    /// Name of the enum.
    pub id: String,
    /// Its variants.
    pub entries: Vec<VariantParser>,
}

/// The mathematical content of an [`EnumParser`].
pub struct EnumView {
    pub id: Seq<char>,
    pub entries: Seq<VariantView>,
}

impl View for EnumParser {
    type V = EnumView;

    open spec fn view(&self) -> EnumView {
        EnumView { id: self.id@, entries: self.entries@.map_values(|v: VariantParser| v@) }
    }
}

/// The tokens are not a declaration; `position` is where the parser stopped.
#[derive(Debug)]
pub struct ParseError {
    pub position: usize,
}

// ---------------------------------------------------------------------------
// The language: how a declaration is written as tokens.
// ---------------------------------------------------------------------------

/// A module path: each segment followed by `::`.
pub open spec fn render_path(path: Seq<Seq<char>>) -> Seq<TokenView>
    decreases path.len(),
{
    if path.len() == 0 {
        seq![]
    } else {
        seq![TokenView::Ident(path[0]), TokenView::PathSep] + render_path(path.drop_first())
    }
}

/// Literals separated by commas.
pub open spec fn render_literals(lits: Seq<Seq<char>>) -> Seq<TokenView>
    decreases lits.len(),
{
    if lits.len() == 0 {
        seq![]
    } else if lits.len() == 1 {
        seq![TokenView::Literal(lits[0])]
    } else {
        seq![TokenView::Literal(lits[0]), TokenView::Comma] + render_literals(lits.drop_first())
    }
}

/// Const generic arguments: nothing, or the literals between `<` and `>`.
pub open spec fn render_generics(lits: Seq<Seq<char>>) -> Seq<TokenView> {
    if lits.len() == 0 {
        seq![]
    } else {
        seq![TokenView::Lt] + render_literals(lits) + seq![TokenView::Gt]
    }
}

/// A variant: its path, its type and its const generic arguments.
pub open spec fn render_variant(v: VariantView) -> Seq<TokenView> {
    render_path(v.path) + seq![TokenView::Ident(v.id)] + render_generics(v.const_generics)
}

/// Variants separated by commas, with a comma after the last one if
/// `trailing` (and there is one).
pub open spec fn render_entries(entries: Seq<VariantView>, trailing: bool) -> Seq<TokenView>
    decreases entries.len(),
{
    if entries.len() == 0 {
        seq![]
    } else if entries.len() == 1 {
        render_variant(entries[0]) + if trailing {
            seq![TokenView::Comma]
        } else {
            seq![]
        }
    } else {
        render_variant(entries[0]) + seq![TokenView::Comma] + render_entries(
            entries.drop_first(),
            trailing,
        )
    }
}

/// A declaration: the enum's name, a comma, then its variants.
pub open spec fn render_enum(e: EnumView, trailing: bool) -> Seq<TokenView> {
    seq![TokenView::Ident(e.id), TokenView::Comma] + render_entries(e.entries, trailing)
}

/// The tokens are the writing of some declaration.
pub open spec fn is_declaration(toks: Seq<TokenView>) -> bool {
    exists|e: EnumView, trailing: bool| render_enum(e, trailing) == toks
}

// ---------------------------------------------------------------------------
// The parser, as functions on token sequences.
// ---------------------------------------------------------------------------

/// Puts `acc` in front of the path that was read.
pub open spec fn prepend_path(
    acc: Seq<Seq<char>>,
    r: Option<(Seq<Seq<char>>, Seq<char>, Seq<TokenView>)>,
) -> Option<(Seq<Seq<char>>, Seq<char>, Seq<TokenView>)> {
    match r {
        Some((p, id, rest)) => Some((acc + p, id, rest)),
        None => None,
    }
}

/// Reads `Ident (:: Ident)*`: the path, the last identifier and what follows.
pub open spec fn parse_path(t: Seq<TokenView>) -> Option<(Seq<Seq<char>>, Seq<char>, Seq<TokenView>)>
    decreases t.len(),
{
    if t.len() > 0 && t[0] is Ident {
        let id = t[0]->Ident_0;
        if t.len() > 1 && t[1] is PathSep {
            prepend_path(seq![id], parse_path(t.skip(2)))
        } else {
            Some((seq![], id, t.skip(1)))
        }
    } else {
        None
    }
}

/// Puts `acc` in front of the literals that were read.
pub open spec fn prepend_literals(acc: Seq<Seq<char>>, r: Option<(Seq<Seq<char>>, Seq<TokenView>)>) -> Option<
    (Seq<Seq<char>>, Seq<TokenView>),
> {
    match r {
        Some((ls, rest)) => Some((acc + ls, rest)),
        None => None,
    }
}

/// Reads `Literal (, Literal)*`: the literals and what follows.
pub open spec fn parse_literals(t: Seq<TokenView>) -> Option<(Seq<Seq<char>>, Seq<TokenView>)>
    decreases t.len(),
{
    if t.len() > 0 && t[0] is Literal {
        let lit = t[0]->Literal_0;
        if t.len() > 1 && t[1] is Comma {
            prepend_literals(seq![lit], parse_literals(t.skip(2)))
        } else {
            Some((seq![lit], t.skip(1)))
        }
    } else {
        None
    }
}

/// Reads a variant and what follows.
pub open spec fn parse_variant(t: Seq<TokenView>) -> Option<(VariantView, Seq<TokenView>)> {
    match parse_path(t) {
        None => None,
        Some((path, id, rest)) => if rest.len() > 0 && rest[0] is Lt {
            match parse_literals(rest.skip(1)) {
                None => None,
                Some((lits, rest2)) => if rest2.len() > 0 && rest2[0] is Gt {
                    Some((VariantView { path, id, const_generics: lits }, rest2.skip(1)))
                } else {
                    None
                },
            }
        } else {
            Some((VariantView { path, id, const_generics: seq![] }, rest))
        },
    }
}

/// Reading a path consumes at least one token.
pub proof fn lemma_parse_path_shrinks(t: Seq<TokenView>)
    ensures
        parse_path(t) matches Some((p, id, rest)) ==> rest.len() < t.len(),
    decreases t.len(),
{
    if t.len() > 1 && t[0] is Ident && t[1] is PathSep {
        lemma_parse_path_shrinks(t.skip(2));
    }
}

/// Reading literals consumes at least one token.
pub proof fn lemma_parse_literals_shrinks(t: Seq<TokenView>)
    ensures
        parse_literals(t) matches Some((ls, rest)) ==> rest.len() < t.len(),
    decreases t.len(),
{
    if t.len() > 1 && t[0] is Literal && t[1] is Comma {
        lemma_parse_literals_shrinks(t.skip(2));
    }
}

/// Reading a variant consumes at least one token.
pub proof fn lemma_parse_variant_shrinks(t: Seq<TokenView>)
    ensures
        parse_variant(t) matches Some((v, rest)) ==> rest.len() < t.len(),
{
    lemma_parse_path_shrinks(t);
    if let Some((path, id, rest)) = parse_path(t) {
        if rest.len() > 0 && rest[0] is Lt {
            lemma_parse_literals_shrinks(rest.skip(1));
        }
    }
}

/// Puts `v` in front of the variants that were read.
pub open spec fn prepend_entry(v: VariantView, r: Option<Seq<VariantView>>) -> Option<
    Seq<VariantView>,
> {
    match r {
        Some(vs) => Some(seq![v] + vs),
        None => None,
    }
}

/// Reads variants separated by commas, with an optional comma after the last,
/// up to the end of the tokens.
pub open spec fn parse_entries(t: Seq<TokenView>) -> Option<Seq<VariantView>>
    decreases t.len(),
{
    if t.len() == 0 {
        Some(seq![])
    } else {
        match parse_variant(t) {
            None => None,
            Some((v, rest)) => if rest.len() == 0 {
                Some(seq![v])
            } else if rest[0] is Comma {
                proof {
                    lemma_parse_variant_shrinks(t);
                }
                prepend_entry(v, parse_entries(rest.skip(1)))
            } else {
                None
            },
        }
    }
}

/// Reads a declaration that spans all the tokens.
pub open spec fn parse_enum(t: Seq<TokenView>) -> Option<EnumView> {
    if t.len() >= 2 && t[0] is Ident && t[1] is Comma {
        match parse_entries(t.skip(2)) {
            Some(entries) => Some(EnumView { id: t[0]->Ident_0, entries }),
            None => None,
        }
    } else {
        None
    }
}


// ---------------------------------------------------------------------------
// The parser reads exactly the language.
// ---------------------------------------------------------------------------

/// A path followed by an identifier and by something that does not continue
/// the path is read back.
pub proof fn lemma_parse_path_complete(p: Seq<Seq<char>>, id: Seq<char>, rest: Seq<TokenView>)
    requires
        !(rest.len() > 0 && rest[0] is PathSep),
    ensures
        parse_path(render_path(p) + seq![TokenView::Ident(id)] + rest) == Some((p, id, rest)),
    decreases p.len(),
{
    let t = render_path(p) + seq![TokenView::Ident(id)] + rest;
    if p.len() == 0 {
        assert(t =~= seq![TokenView::Ident(id)] + rest);
        assert(t.skip(1) =~= rest);
        assert(p =~= seq![]);
    } else {
        let tail = p.drop_first();
        lemma_parse_path_complete(tail, id, rest);
        let t2 = render_path(tail) + seq![TokenView::Ident(id)] + rest;
        assert(t =~= seq![TokenView::Ident(p[0]), TokenView::PathSep] + t2);
        assert(t.skip(2) =~= t2);
        assert(seq![p[0]] + tail =~= p);
    }
}

/// What the path reader reads is a path followed by an identifier, and what
/// follows does not continue the path.
pub proof fn lemma_parse_path_sound(t: Seq<TokenView>)
    ensures
        parse_path(t) matches Some((p, id, rest)) ==> {
            &&& t == render_path(p) + seq![TokenView::Ident(id)] + rest
            &&& !(rest.len() > 0 && rest[0] is PathSep)
        },
    decreases t.len(),
{
    if t.len() > 0 && t[0] is Ident {
        let id = t[0]->Ident_0;
        if t.len() > 1 && t[1] is PathSep {
            lemma_parse_path_sound(t.skip(2));
            if let Some((p2, id2, rest2)) = parse_path(t.skip(2)) {
                let p = seq![id] + p2;
                assert(p.drop_first() =~= p2);
                assert(p[0] == id);
                assert(render_path(p) == seq![TokenView::Ident(id), TokenView::PathSep] + render_path(
                    p2,
                ));
                assert(t =~= seq![t[0], t[1]] + t.skip(2));
                assert(t =~= render_path(p) + seq![TokenView::Ident(id2)] + rest2);
            }
        } else {
            assert(render_path(seq![]) =~= seq![]);
            assert(t =~= render_path(seq![]) + seq![TokenView::Ident(id)] + t.skip(1));
        }
    }
}

/// Literals followed by something other than a comma are read back.
pub proof fn lemma_parse_literals_complete(lits: Seq<Seq<char>>, rest: Seq<TokenView>)
    requires
        lits.len() > 0,
        !(rest.len() > 0 && rest[0] is Comma),
    ensures
        parse_literals(render_literals(lits) + rest) == Some((lits, rest)),
    decreases lits.len(),
{
    let t = render_literals(lits) + rest;
    if lits.len() == 1 {
        assert(t =~= seq![TokenView::Literal(lits[0])] + rest);
        assert(t.skip(1) =~= rest);
        assert(seq![lits[0]] =~= lits);
    } else {
        let tail = lits.drop_first();
        lemma_parse_literals_complete(tail, rest);
        let t2 = render_literals(tail) + rest;
        assert(t =~= seq![TokenView::Literal(lits[0]), TokenView::Comma] + t2);
        assert(t.skip(2) =~= t2);
        assert(seq![lits[0]] + tail =~= lits);
    }
}

/// What the literal reader reads is some literals, and no comma follows.
pub proof fn lemma_parse_literals_sound(t: Seq<TokenView>)
    ensures
        parse_literals(t) matches Some((lits, rest)) ==> {
            &&& lits.len() > 0
            &&& t == render_literals(lits) + rest
            &&& !(rest.len() > 0 && rest[0] is Comma)
        },
    decreases t.len(),
{
    if t.len() > 0 && t[0] is Literal {
        let lit = t[0]->Literal_0;
        if t.len() > 1 && t[1] is Comma {
            lemma_parse_literals_sound(t.skip(2));
            if let Some((l2, rest2)) = parse_literals(t.skip(2)) {
                let lits = seq![lit] + l2;
                assert(lits.drop_first() =~= l2);
                assert(lits[0] == lit);
                assert(render_literals(lits) == seq![TokenView::Literal(lit), TokenView::Comma]
                    + render_literals(l2));
                assert(t =~= seq![t[0], t[1]] + t.skip(2));
                assert(t =~= render_literals(lits) + rest2);
            }
        } else {
            assert(t =~= render_literals(seq![lit]) + t.skip(1));
        }
    }
}

/// A variant followed by nothing or by a comma is read back.
pub proof fn lemma_parse_variant_complete(v: VariantView, rest: Seq<TokenView>)
    requires
        rest.len() == 0 || rest[0] is Comma,
    ensures
        parse_variant(render_variant(v) + rest) == Some((v, rest)),
{
    let t = render_variant(v) + rest;
    let g = render_generics(v.const_generics) + rest;
    assert(t =~= render_path(v.path) + seq![TokenView::Ident(v.id)] + g);
    if v.const_generics.len() == 0 {
        assert(g =~= rest);
        lemma_parse_path_complete(v.path, v.id, g);
        assert(v.const_generics =~= seq![]);
    } else {
        assert(g[0] is Lt);
        lemma_parse_path_complete(v.path, v.id, g);
        let after = seq![TokenView::Gt] + rest;
        assert(g.skip(1) =~= render_literals(v.const_generics) + after);
        lemma_parse_literals_complete(v.const_generics, after);
        assert(after.skip(1) =~= rest);
    }
}

/// What the variant reader reads is a variant followed by what it returns.
pub proof fn lemma_parse_variant_sound(t: Seq<TokenView>)
    ensures
        parse_variant(t) matches Some((v, rest)) ==> t == render_variant(v) + rest,
{
    lemma_parse_path_sound(t);
    if let Some((path, id, rest)) = parse_path(t) {
        if rest.len() > 0 && rest[0] is Lt {
            lemma_parse_literals_sound(rest.skip(1));
            if let Some((lits, rest2)) = parse_literals(rest.skip(1)) {
                if rest2.len() > 0 && rest2[0] is Gt {
                    let v = VariantView { path, id, const_generics: lits };
                    assert(rest =~= seq![TokenView::Lt] + rest.skip(1));
                    assert(rest2 =~= seq![TokenView::Gt] + rest2.skip(1));
                    assert(t =~= render_variant(v) + rest2.skip(1));
                }
            }
        } else {
            let v = VariantView { path, id, const_generics: seq![] };
            assert(render_generics(v.const_generics) =~= seq![]);
            assert(t =~= render_variant(v) + rest);
        }
    }
}

/// Variants written out are read back.
pub proof fn lemma_parse_entries_complete(entries: Seq<VariantView>, trailing: bool)
    ensures
        parse_entries(render_entries(entries, trailing)) == Some(entries),
    decreases entries.len(),
{
    let t = render_entries(entries, trailing);
    if entries.len() == 0 {
        assert(entries =~= seq![]);
    } else if entries.len() == 1 {
        let tail: Seq<TokenView> = if trailing {
            seq![TokenView::Comma]
        } else {
            seq![]
        };
        assert(t == render_variant(entries[0]) + tail);
        lemma_parse_variant_complete(entries[0], tail);
        assert(parse_variant(t) == Some((entries[0], tail)));
        assert(render_variant(entries[0]).len() > 0) by {
            assert(render_variant(entries[0]) =~= render_path(entries[0].path) + seq![
                TokenView::Ident(entries[0].id),
            ] + render_generics(entries[0].const_generics));
        }
        assert(t.len() > 0);
        assert(seq![entries[0]] =~= entries);
        if trailing {
            assert(tail.skip(1) =~= seq![]);
            assert(parse_entries(tail.skip(1)) == Some(Seq::<VariantView>::empty()));
            assert(seq![entries[0]] + Seq::<VariantView>::empty() =~= entries);
            assert(parse_entries(t) == prepend_entry(entries[0], parse_entries(tail.skip(1))));
        } else {
            assert(parse_entries(t) == Some(seq![entries[0]]));
        }
    } else {
        let rest_entries = entries.drop_first();
        let r = render_entries(rest_entries, trailing);
        let tail = seq![TokenView::Comma] + r;
        lemma_parse_variant_complete(entries[0], tail);
        assert(t =~= render_variant(entries[0]) + tail);
        assert(render_variant(entries[0]).len() > 0) by {
            assert(render_variant(entries[0]) =~= render_path(entries[0].path) + seq![
                TokenView::Ident(entries[0].id),
            ] + render_generics(entries[0].const_generics));
        }
        assert(tail.skip(1) =~= r);
        lemma_parse_entries_complete(rest_entries, trailing);
        assert(parse_entries(tail.skip(1)) == Some(rest_entries));
        assert(seq![entries[0]] + rest_entries =~= entries);
        assert(parse_entries(t) == prepend_entry(entries[0], parse_entries(tail.skip(1))));
    }
}

/// `t` writes out `entries`, with or without a comma after the last.
pub open spec fn writes_entries(entries: Seq<VariantView>, t: Seq<TokenView>) -> bool {
    exists|trailing: bool| render_entries(entries, trailing) == t
}

/// What the variant list reader reads is a list of variants written out.
pub proof fn lemma_parse_entries_sound(t: Seq<TokenView>)
    ensures
        parse_entries(t) matches Some(entries) ==> writes_entries(entries, t),
    decreases t.len(),
{
    if t.len() == 0 {
        let entries = parse_entries(t).unwrap();
        assert(entries =~= seq![]);
        assert(render_entries(entries, false) =~= t);
    } else {
        lemma_parse_variant_sound(t);
        lemma_parse_variant_shrinks(t);
        if let Some((v, rest)) = parse_variant(t) {
            if rest.len() == 0 {
                assert(seq![v][0] == v);
                assert(render_entries(seq![v], false) == render_variant(v) + seq![]);
                assert(render_entries(seq![v], false) =~= t);
                assert(parse_entries(t) == Some(seq![v]));
            } else if rest[0] is Comma {
                lemma_parse_entries_sound(rest.skip(1));
                if let Some(vs) = parse_entries(rest.skip(1)) {
                    let entries = seq![v] + vs;
                    assert(entries.drop_first() =~= vs);
                    assert(entries[0] == v);
                    assert(rest =~= seq![TokenView::Comma] + rest.skip(1));
                    assert(writes_entries(vs, rest.skip(1)));
                    let tr = choose|tr: bool| render_entries(vs, tr) == rest.skip(1);
                    assert(render_entries(vs, tr) == rest.skip(1));
                    if vs.len() == 0 {
                        assert(rest.skip(1) =~= seq![]);
                        assert(render_entries(entries, true) == render_variant(v) + seq![
                            TokenView::Comma,
                        ]);
                        assert(render_entries(entries, true) =~= t);
                    } else {
                        assert(render_entries(entries, tr) == render_variant(v) + seq![
                            TokenView::Comma,
                        ] + render_entries(vs, tr));
                        assert(render_entries(entries, tr) =~= t);
                    }
                }
            }
        }
    }
}

/// Reading the writing of a declaration gives the declaration back.
pub proof fn lemma_parse_enum_complete(e: EnumView, trailing: bool)
    ensures
        parse_enum(render_enum(e, trailing)) == Some(e),
{
    let t = render_enum(e, trailing);
    assert(t.skip(2) =~= render_entries(e.entries, trailing));
    lemma_parse_entries_complete(e.entries, trailing);
}

/// What the declaration reader reads is the writing of a declaration.
pub proof fn lemma_parse_enum_sound(t: Seq<TokenView>)
    ensures
        parse_enum(t) matches Some(e) ==> exists|trailing: bool| render_enum(e, trailing) == t,
{
    if t.len() >= 2 && t[0] is Ident && t[1] is Comma {
        lemma_parse_entries_sound(t.skip(2));
        if let Some(e) = parse_enum(t) {
            assert(writes_entries(e.entries, t.skip(2)));
            let tr = choose|tr: bool| render_entries(e.entries, tr) == t.skip(2);
            assert(render_enum(e, tr) =~= t);
        }
    }
}

/// Two declarations that are written the same are the same declaration.
pub proof fn lemma_render_enum_injective(e1: EnumView, t1: bool, e2: EnumView, t2: bool)
    requires
        render_enum(e1, t1) == render_enum(e2, t2),
    ensures
        e1 == e2,
{
    lemma_parse_enum_complete(e1, t1);
    lemma_parse_enum_complete(e2, t2);
}


// ---------------------------------------------------------------------------
// Where the parser stops on tokens that are not a declaration: the number of
// tokens left from the first one that does not fit (none left when the tokens
// end too early).
// ---------------------------------------------------------------------------

/// Tokens left where reading a path stops.
pub open spec fn stop_path(t: Seq<TokenView>) -> nat
    decreases t.len(),
{
    if t.len() > 1 && t[0] is Ident && t[1] is PathSep {
        stop_path(t.skip(2))
    } else if t.len() > 0 && t[0] is Ident {
        0
    } else {
        t.len()
    }
}

/// Tokens left where reading literals stops.
pub open spec fn stop_literals(t: Seq<TokenView>) -> nat
    decreases t.len(),
{
    if t.len() > 1 && t[0] is Literal && t[1] is Comma {
        stop_literals(t.skip(2))
    } else if t.len() > 0 && t[0] is Literal {
        0
    } else {
        t.len()
    }
}

/// Tokens left where reading a variant stops.
pub open spec fn stop_variant(t: Seq<TokenView>) -> nat {
    match parse_path(t) {
        None => stop_path(t),
        Some((path, id, rest)) => if rest.len() > 0 && rest[0] is Lt {
            match parse_literals(rest.skip(1)) {
                None => stop_literals(rest.skip(1)),
                Some((lits, rest2)) => rest2.len(),
            }
        } else {
            0
        },
    }
}

/// Tokens left where reading variants stops.
pub open spec fn stop_entries(t: Seq<TokenView>) -> nat
    decreases t.len(),
{
    if t.len() == 0 {
        0
    } else {
        match parse_variant(t) {
            None => stop_variant(t),
            Some((v, rest)) => if rest.len() > 0 && rest[0] is Comma {
                proof {
                    lemma_parse_variant_shrinks(t);
                }
                stop_entries(rest.skip(1))
            } else {
                rest.len()
            },
        }
    }
}

/// Position of the token at which reading a declaration stops: the first
/// token that does not fit, or the end of the tokens when they end too early.
pub open spec fn parse_error_position(t: Seq<TokenView>) -> int {
    if t.len() == 0 || !(t[0] is Ident) {
        0
    } else if t.len() < 2 || !(t[1] is Comma) {
        1
    } else {
        t.len() - stop_entries(t.skip(2))
    }
}

// ---------------------------------------------------------------------------
// The executable parser.
// ---------------------------------------------------------------------------

proof fn lemma_prepend_path_assoc(
    a: Seq<Seq<char>>,
    b: Seq<Seq<char>>,
    r: Option<(Seq<Seq<char>>, Seq<char>, Seq<TokenView>)>,
)
    ensures
        prepend_path(a, prepend_path(b, r)) == prepend_path(a + b, r),
        prepend_path(seq![], r) == r,
{
    if let Some((p, id, rest)) = r {
        assert(a + (b + p) =~= (a + b) + p);
        assert(Seq::<Seq<char>>::empty() + p =~= p);
    }
}

proof fn lemma_prepend_literals_assoc(
    a: Seq<Seq<char>>,
    b: Seq<Seq<char>>,
    r: Option<(Seq<Seq<char>>, Seq<TokenView>)>,
)
    ensures
        prepend_literals(a, prepend_literals(b, r)) == prepend_literals(a + b, r),
{
    if let Some((ls, rest)) = r {
        assert(a + (b + ls) =~= (a + b) + ls);
    }
}

/// Puts `acc` in front of the variants that were read.
pub open spec fn prepend_entries(acc: Seq<VariantView>, r: Option<Seq<VariantView>>) -> Option<
    Seq<VariantView>,
> {
    match r {
        Some(vs) => Some(acc + vs),
        None => None,
    }
}

proof fn lemma_prepend_entries_assoc(a: Seq<VariantView>, v: VariantView, r: Option<Seq<VariantView>>)
    ensures
        prepend_entries(a, prepend_entry(v, r)) == prepend_entries(a.push(v), r),
        prepend_entries(seq![], r) == r,
{
    if let Some(vs) = r {
        assert(a + (seq![v] + vs) =~= a.push(v) + vs);
        assert(Seq::<VariantView>::empty() + vs =~= vs);
    }
}

proof fn lemma_skip_skip(t: Seq<TokenView>, i: int, j: int)
    requires
        0 <= i,
        0 <= j,
        i + j <= t.len(),
    ensures
        t.skip(i).skip(j) == t.skip(i + j),
{
    assert(t.skip(i).skip(j) =~= t.skip(i + j));
}

/// The views of a sequence of variants.
pub open spec fn variants_view(v: Seq<VariantParser>) -> Seq<VariantView> {
    v.map_values(|x: VariantParser| x@)
}

/// Reads `Ident (:: Ident)*` from position `pos`.
fn parse_path_at(toks: &[Token], pos: usize) -> (r: Result<(Vec<String>, String, usize), ParseError>)
    requires
        pos <= toks@.len(),
    ensures
        match r {
            Ok((p, id, end)) => {
                &&& end <= toks@.len()
                &&& parse_path(tokens_view(toks@).skip(pos as int)) == Some(
                    (strings_view(p@), id@, tokens_view(toks@).skip(end as int)),
                )
            },
            Err(e) => {
                &&& parse_path(tokens_view(toks@).skip(pos as int)) is None
                &&& e.position == toks@.len() - stop_path(tokens_view(toks@).skip(pos as int))
            },
        },
{
    let ghost tv = tokens_view(toks@);
    let ghost s0 = tv.skip(pos as int);
    let mut path: Vec<String> = Vec::new();
    let mut cur = pos;
    proof {
        assert(strings_view(path@) =~= seq![]);
        lemma_prepend_path_assoc(seq![], seq![], parse_path(s0));
    }
    loop
        invariant
            pos <= cur <= toks@.len(),
            tv == tokens_view(toks@),
            s0 == tv.skip(pos as int),
            parse_path(s0) == prepend_path(strings_view(path@), parse_path(tv.skip(cur as int))),
            stop_path(s0) == stop_path(tv.skip(cur as int)),
        decreases toks@.len() - cur,
    {
        let ghost here = tv.skip(cur as int);
        if cur >= toks.len() {
            return Err(ParseError { position: cur });
        }
        assert(here[0] == toks@[cur as int]@);
        match &toks[cur] {
            Token::Ident(s) => {
                let sep = cur + 1 < toks.len() && matches!(toks[cur + 1], Token::PathSep);
                if sep {
                    proof {
                        assert(here[1] == toks@[cur + 1]@);
                        lemma_skip_skip(tv, cur as int, 2);
                        lemma_prepend_path_assoc(
                            strings_view(path@),
                            seq![s@],
                            parse_path(tv.skip(cur + 2)),
                        );
                    }
                    let ghost old_path = path@;
                    path.push(s.clone());
                    assert(strings_view(path@) =~= strings_view(old_path) + seq![s@]);
                    cur = cur + 2;
                } else {
                    proof {
                        if cur + 1 < toks.len() {
                            assert(here[1] == toks@[cur + 1]@);
                        }
                        lemma_skip_skip(tv, cur as int, 1);
                        assert(strings_view(path@) + seq![] =~= strings_view(path@));
                    }
                    return Ok((path, s.clone(), cur + 1));
                }
            },
            _ => {
                return Err(ParseError { position: cur });
            },
        }
    }
}

/// Reads `Literal (, Literal)*` from position `pos`.
fn parse_literals_at(toks: &[Token], pos: usize) -> (r: Result<(Vec<String>, usize), ParseError>)
    requires
        pos <= toks@.len(),
    ensures
        match r {
            Ok((ls, end)) => {
                &&& end <= toks@.len()
                &&& parse_literals(tokens_view(toks@).skip(pos as int)) == Some(
                    (strings_view(ls@), tokens_view(toks@).skip(end as int)),
                )
            },
            Err(e) => {
                &&& parse_literals(tokens_view(toks@).skip(pos as int)) is None
                &&& e.position == toks@.len() - stop_literals(tokens_view(toks@).skip(pos as int))
            },
        },
{
    let ghost tv = tokens_view(toks@);
    let ghost s0 = tv.skip(pos as int);
    let mut lits: Vec<String> = Vec::new();
    let mut cur = pos;
    proof {
        assert(strings_view(lits@) =~= seq![]);
        if let Some((ls, rest)) = parse_literals(s0) {
            assert(Seq::<Seq<char>>::empty() + ls =~= ls);
        }
    }
    loop
        invariant
            pos <= cur <= toks@.len(),
            tv == tokens_view(toks@),
            s0 == tv.skip(pos as int),
            parse_literals(s0) == prepend_literals(
                strings_view(lits@),
                parse_literals(tv.skip(cur as int)),
            ),
            stop_literals(s0) == stop_literals(tv.skip(cur as int)),
        decreases toks@.len() - cur,
    {
        let ghost here = tv.skip(cur as int);
        if cur >= toks.len() {
            return Err(ParseError { position: cur });
        }
        assert(here[0] == toks@[cur as int]@);
        match &toks[cur] {
            Token::Literal(s) => {
                let sep = cur + 1 < toks.len() && matches!(toks[cur + 1], Token::Comma);
                if sep {
                    proof {
                        assert(here[1] == toks@[cur + 1]@);
                        lemma_skip_skip(tv, cur as int, 2);
                        lemma_prepend_literals_assoc(
                            strings_view(lits@),
                            seq![s@],
                            parse_literals(tv.skip(cur + 2)),
                        );
                    }
                    let ghost old_lits = lits@;
                    lits.push(s.clone());
                    assert(strings_view(lits@) =~= strings_view(old_lits) + seq![s@]);
                    cur = cur + 2;
                } else {
                    proof {
                        if cur + 1 < toks.len() {
                            assert(here[1] == toks@[cur + 1]@);
                        }
                        lemma_skip_skip(tv, cur as int, 1);
                    }
                    let ghost old_lits = lits@;
                    lits.push(s.clone());
                    assert(strings_view(lits@) =~= strings_view(old_lits) + seq![s@]);
                    return Ok((lits, cur + 1));
                }
            },
            _ => {
                return Err(ParseError { position: cur });
            },
        }
    }
}

impl VariantParser {
    /// Reads a variant starting at position `pos`: a type, possibly behind a
    /// module path, then optionally its const generic arguments between `<`
    /// and `>`. Returns the variant and the position after it.
    pub fn parse(toks: &[Token], pos: usize) -> (r: Result<(VariantParser, usize), ParseError>)
        requires
            pos <= toks@.len(),
        ensures
            match r {
                Ok((v, end)) => {
                    &&& end <= toks@.len()
                    &&& parse_variant(tokens_view(toks@).skip(pos as int)) == Some(
                        (v@, tokens_view(toks@).skip(end as int)),
                    )
                },
                Err(e) => {
                    &&& parse_variant(tokens_view(toks@).skip(pos as int)) is None
                    &&& e.position == toks@.len() - stop_variant(
                        tokens_view(toks@).skip(pos as int),
                    )
                },
            },
    {
        let ghost tv = tokens_view(toks@);
        let (path, id, after) = parse_path_at(toks, pos)?;
        let ghost rest = tv.skip(after as int);
        if after < toks.len() && matches!(toks[after], Token::Lt) {
            assert(rest[0] == toks@[after as int]@);
            proof {
                lemma_skip_skip(tv, after as int, 1);
            }
            let (const_generics, end) = parse_literals_at(toks, after + 1)?;
            let ghost rest2 = tv.skip(end as int);
            if end < toks.len() && matches!(toks[end], Token::Gt) {
                assert(rest2[0] == toks@[end as int]@);
                proof {
                    lemma_skip_skip(tv, end as int, 1);
                }
                Ok((VariantParser { path, id, const_generics }, end + 1))
            } else {
                proof {
                    if end < toks.len() {
                        assert(rest2[0] == toks@[end as int]@);
                    }
                }
                Err(ParseError { position: end })
            }
        } else {
            proof {
                if after < toks.len() {
                    assert(rest[0] == toks@[after as int]@);
                }
            }
            let const_generics: Vec<String> = Vec::new();
            let v = VariantParser { path, id, const_generics };
            assert(v@.const_generics =~= seq![]);
            Ok((v, after))
        }
    }

    /// The variant's name: the type followed by `_` and each const generic
    /// argument. With const generic arguments, a raw identifier's `r#` is
    /// left out of the name.
    pub fn to_ident(&self) -> (r: String)
        ensures
            r@ == variant_ident(self@),
    {
        let n = self.const_generics.len();
        if n == 0 {
            return self.id.clone();
        }
        let id = self.id.as_str();
        let len = id.unicode_len();
        let raw = len >= 2 && id.get_char(0) == 'r' && id.get_char(1) == '#';
        let start: usize = if raw {
            2
        } else {
            0
        };
        let ghost base = strip_raw(self.id@);
        assert(base =~= self.id@.skip(start as int));
        let mut name = String::new();
        let mut k: usize = start;
        while k < len
            invariant
                start <= k <= len,
                len == self.id@.len(),
                id@ == self.id@,
                name@ =~= self.id@.subrange(start as int, k as int),
            decreases len - k,
        {
            push_char(&mut name, id.get_char(k));
            k = k + 1;
        }
        assert(name@ =~= base);
        let mut i: usize = 0;
        assert(base + generic_suffix(strings_view(self.const_generics@).subrange(0, 0)) =~= base);
        while i < n
            invariant
                i <= n,
                n == self.const_generics@.len(),
                name@ == base + generic_suffix(
                    strings_view(self.const_generics@).subrange(0, i as int),
                ),
            decreases n - i,
        {
            push_char(&mut name, '_');
            name.append(self.const_generics[i].as_str());
            proof {
                let g = strings_view(self.const_generics@);
                assert(g.subrange(0, i + 1).drop_last() =~= g.subrange(0, i as int));
            }
            i = i + 1;
        }
        assert(strings_view(self.const_generics@).subrange(0, n as int) =~= strings_view(
            self.const_generics@,
        ));
        name
    }
}

/// An identifier without its raw `r#` prefix, if it has one.
pub open spec fn strip_raw(s: Seq<char>) -> Seq<char> {
    if s.len() >= 2 && s[0] == 'r' && s[1] == '#' {
        s.skip(2)
    } else {
        s
    }
}

/// The suffix that const generic arguments add to a variant's name.
pub open spec fn generic_suffix(gs: Seq<Seq<char>>) -> Seq<char>
    decreases gs.len(),
{
    if gs.len() == 0 {
        seq![]
    } else {
        generic_suffix(gs.drop_last()) + seq!['_'] + gs.last()
    }
}

/// The name of a variant: its type, then `_` and each const generic
/// argument; with const generic arguments a raw type name loses its `r#`.
pub open spec fn variant_ident(v: VariantView) -> Seq<char> {
    if v.const_generics.len() == 0 {
        v.id
    } else {
        strip_raw(v.id) + generic_suffix(v.const_generics)
    }
}

/// Reads variants separated by commas, with an optional comma after the last,
/// from position `pos` to the end.
fn parse_entries_at(toks: &[Token], pos: usize) -> (r: Result<Vec<VariantParser>, ParseError>)
    requires
        pos <= toks@.len(),
    ensures
        match r {
            Ok(es) => parse_entries(tokens_view(toks@).skip(pos as int)) == Some(variants_view(es@)),
            Err(e) => {
                &&& parse_entries(tokens_view(toks@).skip(pos as int)) is None
                &&& e.position == toks@.len() - stop_entries(tokens_view(toks@).skip(pos as int))
            },
        },
{
    let ghost tv = tokens_view(toks@);
    let ghost s0 = tv.skip(pos as int);
    let mut entries: Vec<VariantParser> = Vec::new();
    let mut cur = pos;
    proof {
        assert(variants_view(entries@) =~= seq![]);
        lemma_prepend_entries_assoc(seq![], arbitrary(), parse_entries(s0));
    }
    loop
        invariant
            pos <= cur <= toks@.len(),
            tv == tokens_view(toks@),
            s0 == tv.skip(pos as int),
            parse_entries(s0) == prepend_entries(
                variants_view(entries@),
                parse_entries(tv.skip(cur as int)),
            ),
            stop_entries(s0) == stop_entries(tv.skip(cur as int)),
        decreases toks@.len() - cur,
    {
        let ghost here = tv.skip(cur as int);
        if cur >= toks.len() {
            assert(here.len() == 0);
            assert(variants_view(entries@) + seq![] =~= variants_view(entries@));
            return Ok(entries);
        }
        let (v, end) = VariantParser::parse(toks, cur)?;
        let ghost vv = v@;
        let ghost old_entries = variants_view(entries@);
        proof {
            lemma_parse_variant_shrinks(here);
            lemma_prepend_entries_assoc(old_entries, vv, parse_entries(tv.skip(end + 1)));
        }
        entries.push(v);
        assert(variants_view(entries@) =~= old_entries.push(vv));
        let ghost rest = tv.skip(end as int);
        if end >= toks.len() {
            assert(rest.len() == 0);
            assert(old_entries + seq![vv] =~= variants_view(entries@));
            return Ok(entries);
        }
        assert(rest[0] == toks@[end as int]@);
        if matches!(toks[end], Token::Comma) {
            proof {
                lemma_skip_skip(tv, end as int, 1);
            }
            cur = end + 1;
        } else {
            return Err(ParseError { position: end });
        }
    }
}

/// `t` writes out the declaration `e`, with or without a comma after the last
/// variant.
pub open spec fn writes_enum(e: EnumView, t: Seq<TokenView>) -> bool {
    exists|trailing: bool| render_enum(e, trailing) == t
}

impl EnumParser {
    /// Reads a declaration that spans all the tokens: the enum's name, a
    /// comma, then variants separated by commas, with an optional comma after
    /// the last. Succeeds exactly on the writings of declarations, and gives
    /// back the declaration written.
    pub fn parse(toks: &[Token]) -> (r: Result<EnumParser, ParseError>)
        ensures
            r matches Ok(e) ==> writes_enum(e@, tokens_view(toks@)),
            forall|e: EnumView| #[trigger]
                writes_enum(e, tokens_view(toks@)) ==> (r matches Ok(p) && p@ == e),
            r is Err <==> !is_declaration(tokens_view(toks@)),
            r matches Err(e) ==> e.position == parse_error_position(tokens_view(toks@)),
    {
        let ghost tv = tokens_view(toks@);
        let result = Self::parse_tokens(toks);
        proof {
            lemma_parse_enum_sound(tv);
            assert forall|e: EnumView| #[trigger] writes_enum(e, tv) implies (result matches Ok(
                p,
            ) && p@ == e) by {
                let tr = choose|tr: bool| render_enum(e, tr) == tv;
                lemma_parse_enum_complete(e, tr);
            }
            if result is Err {
                if is_declaration(tv) {
                    let (e, tr) = choose|e: EnumView, tr: bool| render_enum(e, tr) == tv;
                    assert(writes_enum(e, tv));
                }
            } else {
                let e = result->Ok_0@;
                assert(writes_enum(e, tv));
                assert(render_enum(e, choose|tr: bool| render_enum(e, tr) == tv) == tv);
            }
        }
        result
    }

    fn parse_tokens(toks: &[Token]) -> (r: Result<EnumParser, ParseError>)
        ensures
            match r {
                Ok(e) => parse_enum(tokens_view(toks@)) == Some(e@),
                Err(e) => {
                    &&& parse_enum(tokens_view(toks@)) is None
                    &&& e.position == parse_error_position(tokens_view(toks@))
                },
            },
    {
        let ghost tv = tokens_view(toks@);
        if toks.len() == 0 {
            return Err(ParseError { position: 0 });
        }
        assert(tv[0] == toks@[0]@);
        let id = match &toks[0] {
            Token::Ident(s) => s.clone(),
            _ => {
                return Err(ParseError { position: 0 });
            },
        };
        if toks.len() < 2 {
            return Err(ParseError { position: 1 });
        }
        assert(tv[1] == toks@[1]@);
        if !matches!(toks[1], Token::Comma) {
            return Err(ParseError { position: 1 });
        }
        let entries = parse_entries_at(toks, 2)?;
        let e = EnumParser { id, entries };
        assert(e@.entries == variants_view(entries@));
        Ok(e)
    }
}
} // verus!
