use vstd::prelude::*;

use crate::enum_decl::{render_enum, tokens_view, writes_enum, EnumView, Token, TokenView};

verus! {

/// A token tree of a macro input, as plain values. The trees of a group
/// without delimiters stand between `EnterInvisible` and `LeaveInvisible`.
#[derive(Debug)]
pub enum RawToken {
    /// An identifier or keyword, as written.
    Ident(String),
    /// A punctuation character; `joint` when the next token is punctuation
    /// written right after it.
    Punct { ch: char, joint: bool },
    /// A literal, as written.
    Literal(String),
    /// A group with delimiters.
    Group,
    /// Start of a group without delimiters.
    EnterInvisible,
    /// End of a group without delimiters.
    LeaveInvisible,
}

/// The mathematical content of a [`RawToken`].
pub enum RawTokenView {
    Ident(Seq<char>),
    Punct { ch: char, joint: bool },
    Literal(Seq<char>),
    Group,
    EnterInvisible,
    LeaveInvisible,
}

impl View for RawToken {
    type V = RawTokenView;

    open spec fn view(&self) -> RawTokenView {
        match self {
            RawToken::Ident(s) => RawTokenView::Ident(s@),
            RawToken::Punct { ch, joint } => RawTokenView::Punct { ch: *ch, joint: *joint },
            RawToken::Literal(s) => RawTokenView::Literal(s@),
            RawToken::Group => RawTokenView::Group,
            RawToken::EnterInvisible => RawTokenView::EnterInvisible,
            RawToken::LeaveInvisible => RawTokenView::LeaveInvisible,
        }
    }
}

/// The views of a sequence of token trees.
pub open spec fn raw_view(raw: Seq<RawToken>) -> Seq<RawTokenView> {
    raw.map_values(|t: RawToken| t@)
}

/// Whether `syn` reads `text` as an identifier (one identifier token that is
/// not a keyword); the answer depends on the text alone.
pub uninterp spec fn syn_accepts_ident(text: Seq<char>) -> bool;

/// Calls `syn::parse_str::<syn::Ident>` on `text` and reports whether it
/// succeeded. The contract claims only that the answer is a function of the
/// text; which words `syn` refuses (its keywords and `_`) is left to `syn`.
#[verifier::external_body]
fn accepts_as_ident(text: &str) -> (r: bool)
    ensures
        r == syn_accepts_ident(text@),
{
    syn::parse_str::<syn::Ident>(text).is_ok()
}

/// The declaration token of a single token tree.
pub open spec fn classify(t: RawTokenView) -> TokenView {
    match t {
        RawTokenView::Ident(s) => if syn_accepts_ident(s) {
            TokenView::Ident(s)
        } else {
            TokenView::Other
        },
        RawTokenView::Punct { ch, joint } => if ch == ',' {
            TokenView::Comma
        } else if ch == '<' {
            TokenView::Lt
        } else if ch == '>' {
            TokenView::Gt
        } else {
            TokenView::Other
        },
        RawTokenView::Literal(s) => TokenView::Literal(s),
        _ => TokenView::Other,
    }
}

/// The tree marks the start or end of a group without delimiters.
pub open spec fn is_marker(t: RawTokenView) -> bool {
    t is EnterInvisible || t is LeaveInvisible
}

/// The token trees with the marks of groups without delimiters left out:
/// such groups are transparent.
pub open spec fn visible(raw: Seq<RawTokenView>) -> Seq<RawTokenView>
    decreases raw.len(),
{
    if raw.len() == 0 {
        seq![]
    } else if is_marker(raw.last()) {
        visible(raw.drop_last())
    } else {
        visible(raw.drop_last()).push(raw.last())
    }
}

/// Positions of the token trees that are not marks of groups without
/// delimiters, in order.
pub open spec fn visible_positions_of(raw: Seq<RawTokenView>) -> Seq<int>
    decreases raw.len(),
{
    if raw.len() == 0 {
        seq![]
    } else if is_marker(raw.last()) {
        visible_positions_of(raw.drop_last())
    } else {
        visible_positions_of(raw.drop_last()).push(raw.len() - 1)
    }
}

/// Every offset moved up by `d`.
pub open spec fn shifted(s: Seq<int>, d: int) -> Seq<int> {
    s.map_values(|x: int| x + d)
}

/// For each declaration token of a sequence of visible token trees, the
/// offset of the tree it starts at.
pub open spec fn lex_starts(raw: Seq<RawTokenView>) -> Seq<int>
    decreases raw.len(),
{
    if raw.len() == 0 {
        seq![]
    } else if starts_path_sep(raw) {
        seq![0] + shifted(lex_starts(raw.skip(2)), 2)
    } else {
        seq![0] + shifted(lex_starts(raw.skip(1)), 1)
    }
}

/// The two token trees start a `::`: a `:` joined to the `:` after it.
pub open spec fn starts_path_sep(raw: Seq<RawTokenView>) -> bool {
    &&& raw.len() > 1
    &&& raw[0] matches RawTokenView::Punct { ch, joint } && ch == ':' && joint
    &&& raw[1] matches RawTokenView::Punct { ch, .. } && ch == ':'
}

/// The declaration tokens of a sequence of visible token trees: `::` becomes
/// one token, every other tree one token of its own.
pub open spec fn spec_lex(raw: Seq<RawTokenView>) -> Seq<TokenView>
    decreases raw.len(),
{
    if raw.len() == 0 {
        seq![]
    } else if starts_path_sep(raw) {
        seq![TokenView::PathSep] + spec_lex(raw.skip(2))
    } else {
        seq![classify(raw[0])] + spec_lex(raw.skip(1))
    }
}

proof fn lemma_lex_step(raw: Seq<RawTokenView>, i: int, n: int)
    requires
        0 <= i,
        i + n <= raw.len(),
        n == 1 || n == 2,
    ensures
        raw.skip(i).skip(n) == raw.skip(i + n),
{
    assert(raw.skip(i).skip(n) =~= raw.skip(i + n));
}

/// Positions of the token trees that are not marks of groups without
/// delimiters.
fn visible_positions(raw: &[RawToken]) -> (r: Vec<usize>)
    ensures
        forall|k: int| 0 <= k < r@.len() ==> r@[k] < raw@.len(),
        r@.map_values(|p: usize| raw_view(raw@)[p as int]) == visible(raw_view(raw@)),
        r@.map_values(|p: usize| p as int) == visible_positions_of(raw_view(raw@)),
{
    let ghost rv = raw_view(raw@);
    let mut positions: Vec<usize> = Vec::new();
    let mut i: usize = 0;
    assert(rv.subrange(0, 0) =~= seq![]);
    assert(positions@.map_values(|p: usize| rv[p as int]) =~= seq![]);
    assert(positions@.map_values(|p: usize| p as int) =~= seq![]);
    while i < raw.len()
        invariant
            i <= raw@.len(),
            rv == raw_view(raw@),
            forall|k: int| 0 <= k < positions@.len() ==> positions@[k] < i,
            positions@.map_values(|p: usize| rv[p as int]) == visible(rv.subrange(0, i as int)),
            positions@.map_values(|p: usize| p as int) == visible_positions_of(
                rv.subrange(0, i as int),
            ),
        decreases raw@.len() - i,
    {
        let ghost prefix = rv.subrange(0, i + 1);
        assert(prefix.drop_last() =~= rv.subrange(0, i as int));
        assert(prefix.last() == raw@[i as int]@);
        let marker = match &raw[i] {
            RawToken::EnterInvisible => true,
            RawToken::LeaveInvisible => true,
            _ => false,
        };
        if !marker {
            let ghost old = positions@;
            positions.push(i);
            assert(positions@.map_values(|p: usize| rv[p as int]) =~= old.map_values(
                |p: usize| rv[p as int],
            ).push(rv[i as int]));
            assert(positions@.map_values(|p: usize| p as int) =~= old.map_values(
                |p: usize| p as int,
            ).push(i as int));
        }
        i = i + 1;
    }
    assert(rv.subrange(0, i as int) =~= rv);
    positions
}

proof fn lemma_shifted_step(s: Seq<int>, a: int, b: int)
    ensures
        shifted(shifted(s, a), b) == shifted(s, a + b),
        shifted(seq![0] + s, b) == seq![b] + shifted(s, b),
{
    assert(shifted(shifted(s, a), b) =~= shifted(s, a + b));
    assert(shifted(seq![0] + s, b) =~= seq![b] + shifted(s, b));
}

/// The declaration tokens of a sequence of token trees, with the position of
/// the tree each token starts at. Groups without delimiters are transparent.
pub fn lex(raw: &[RawToken]) -> (r: (Vec<Token>, Vec<usize>))
    ensures
        tokens_view(r.0@) == spec_lex(visible(raw_view(raw@))),
        r.1@.len() == r.0@.len(),
        forall|i: int| 0 <= i < r.1@.len() ==> r.1@[i] < raw@.len(),
        forall|i: int|
            0 <= i < r.1@.len() ==> r.1@[i] == visible_positions_of(raw_view(raw@))[lex_starts(
                visible(raw_view(raw@)),
            )[i]],
{
    let ghost rv = raw_view(raw@);
    let positions = visible_positions(raw);
    let ghost vis = visible(rv);
    let n = positions.len();
    assert(vis.len() == n);
    let mut tokens: Vec<Token> = Vec::new();
    let mut origins: Vec<usize> = Vec::new();
    let mut i: usize = 0;
    assert(vis.skip(0) =~= vis);
    assert(tokens_view(tokens@) =~= seq![]);
    assert(spec_lex(vis) == tokens_view(tokens@) + spec_lex(vis.skip(0)));
    let ghost vp = visible_positions_of(rv);
    let ghost mut starts: Seq<int> = seq![];
    assert(shifted(lex_starts(vis.skip(0)), 0) =~= lex_starts(vis));
    assert(lex_starts(vis) == starts + shifted(lex_starts(vis.skip(0)), 0));
    while i < n
        invariant
            i <= n,
            n == positions@.len(),
            n == vis.len(),
            rv == raw_view(raw@),
            vis == visible(rv),
            positions@.map_values(|p: usize| rv[p as int]) == vis,
            forall|k: int| 0 <= k < n ==> positions@[k] < raw@.len(),
            spec_lex(vis) == tokens_view(tokens@) + spec_lex(vis.skip(i as int)),
            origins@.len() == tokens@.len(),
            forall|k: int| 0 <= k < origins@.len() ==> origins@[k] < raw@.len(),
            vp == visible_positions_of(rv),
            positions@.map_values(|p: usize| p as int) == vp,
            starts.len() == origins@.len(),
            lex_starts(vis) == starts + shifted(lex_starts(vis.skip(i as int)), i as int),
            forall|k: int| 0 <= k < origins@.len() ==> origins@[k] == vp[starts[k]],
            forall|k: int| 0 <= k < starts.len() ==> starts[k] < i,
        decreases n - i,
    {
        let ghost here = vis.skip(i as int);
        let p0 = positions[i];
        assert(here[0] == raw@[p0 as int]@);
        let path_sep = i + 1 < n && match (&raw[p0], &raw[positions[i + 1]]) {
            (RawToken::Punct { ch: c0, joint: j0 }, RawToken::Punct { ch: c1, .. }) => *c0 == ':'
                && *j0 && *c1 == ':',
            _ => false,
        };
        let ghost old_tokens = tokens_view(tokens@);
        if path_sep {
            assert(here[1] == raw@[positions@[i + 1] as int]@);
            assert(starts_path_sep(here));
            proof {
                lemma_lex_step(vis, i as int, 2);
            }
            tokens.push(Token::PathSep);
            origins.push(p0);
            proof {
                lemma_shifted_step(lex_starts(vis.skip(i + 2)), 2, i as int);
                lemma_shifted_step(shifted(lex_starts(vis.skip(i + 2)), 2), 0, i as int);
                assert(lex_starts(here) == seq![0] + shifted(lex_starts(here.skip(2)), 2));
                assert(lex_starts(vis) =~= starts.push(i as int) + shifted(
                    lex_starts(vis.skip(i + 2)),
                    i + 2,
                ));
                assert(positions@.map_values(|p: usize| p as int)[i as int] == p0);
                starts = starts.push(i as int);
            }
            assert(tokens_view(tokens@) =~= old_tokens + seq![TokenView::PathSep]);
            assert(spec_lex(vis) == tokens_view(tokens@) + spec_lex(vis.skip(i + 2))) by {
                assert(old_tokens + (seq![TokenView::PathSep] + spec_lex(vis.skip(i + 2))) =~= (
                old_tokens + seq![TokenView::PathSep]) + spec_lex(vis.skip(i + 2)));
            }
            i = i + 2;
        } else {
            proof {
                if i + 1 < n {
                    assert(here[1] == raw@[positions@[i + 1] as int]@);
                }
                assert(!starts_path_sep(here));
                lemma_lex_step(vis, i as int, 1);
            }
            let t = match &raw[p0] {
                RawToken::Ident(s) => if accepts_as_ident(s.as_str()) {
                    Token::Ident(s.clone())
                } else {
                    Token::Other
                },
                RawToken::Punct { ch, .. } => if *ch == ',' {
                    Token::Comma
                } else if *ch == '<' {
                    Token::Lt
                } else if *ch == '>' {
                    Token::Gt
                } else {
                    Token::Other
                },
                RawToken::Literal(s) => Token::Literal(s.clone()),
                _ => Token::Other,
            };
            assert(t@ == classify(here[0]));
            tokens.push(t);
            origins.push(p0);
            proof {
                lemma_shifted_step(lex_starts(vis.skip(i + 1)), 1, i as int);
                lemma_shifted_step(shifted(lex_starts(vis.skip(i + 1)), 1), 0, i as int);
                assert(lex_starts(here) == seq![0] + shifted(lex_starts(here.skip(1)), 1));
                assert(lex_starts(vis) =~= starts.push(i as int) + shifted(
                    lex_starts(vis.skip(i + 1)),
                    i + 1,
                ));
                assert(positions@.map_values(|p: usize| p as int)[i as int] == p0);
                starts = starts.push(i as int);
            }
            assert(tokens_view(tokens@) =~= old_tokens + seq![classify(here[0])]);
            assert(spec_lex(vis) == tokens_view(tokens@) + spec_lex(vis.skip(i + 1))) by {
                assert(old_tokens + (seq![classify(here[0])] + spec_lex(vis.skip(i + 1))) =~= (
                old_tokens + seq![classify(here[0])]) + spec_lex(vis.skip(i + 1)));
            }
            i = i + 1;
        }
    }
    assert(vis.skip(i as int) =~= seq![]);
    assert(spec_lex(vis.skip(i as int)) =~= seq![]);
    assert(lex_starts(vis) =~= starts);
    assert(tokens_view(tokens@) + seq![] =~= tokens_view(tokens@));
    (tokens, origins)
}


/// One way of writing a declaration token as token trees, picked by `j`:
/// identifiers and literals on their own or inside a group without
/// delimiters; `,`, `<` and `>` as one punctuation tree, joint or not; `::` as
/// a `:` joined to a second `:`, joint or not; any other token as a group or
/// as a lone `:`.
pub open spec fn token_trees(t: TokenView, j: bool) -> Seq<RawTokenView> {
    match t {
        TokenView::Ident(s) => if j {
            seq![RawTokenView::EnterInvisible, RawTokenView::Ident(s), RawTokenView::LeaveInvisible]
        } else {
            seq![RawTokenView::Ident(s)]
        },
        TokenView::Literal(s) => if j {
            seq![
                RawTokenView::EnterInvisible,
                RawTokenView::Literal(s),
                RawTokenView::LeaveInvisible,
            ]
        } else {
            seq![RawTokenView::Literal(s)]
        },
        TokenView::Comma => seq![RawTokenView::Punct { ch: ',', joint: j }],
        TokenView::Lt => seq![RawTokenView::Punct { ch: '<', joint: j }],
        TokenView::Gt => seq![RawTokenView::Punct { ch: '>', joint: j }],
        TokenView::PathSep => seq![
            RawTokenView::Punct { ch: ':', joint: true },
            RawTokenView::Punct { ch: ':', joint: j },
        ],
        TokenView::Other => if j {
            seq![RawTokenView::Group]
        } else {
            seq![RawTokenView::Punct { ch: ':', joint: false }]
        },
    }
}

/// The token trees of a sequence of declaration tokens, token `k` written the
/// way `ways(k)` picks.
pub open spec fn trees_of(t: Seq<TokenView>, ways: spec_fn(int) -> bool) -> Seq<RawTokenView>
    decreases t.len(),
{
    if t.len() == 0 {
        seq![]
    } else {
        token_trees(t[0], ways(0)) + trees_of(t.skip(1), |k: int| ways(k + 1))
    }
}

proof fn lemma_visible_append(a: Seq<RawTokenView>, b: Seq<RawTokenView>)
    ensures
        visible(a + b) == visible(a) + visible(b),
    decreases b.len(),
{
    if b.len() == 0 {
        assert(a + b =~= a);
        assert(visible(a) + visible(b) =~= visible(a));
    } else {
        lemma_visible_append(a, b.drop_last());
        assert((a + b).drop_last() =~= a + b.drop_last());
        assert((a + b).last() == b.last());
        if !is_marker(b.last()) {
            assert(visible(a) + visible(b.drop_last()).push(b.last()) =~= (visible(a) + visible(
                b.drop_last(),
            )).push(b.last()));
        }
    }
}

proof fn lemma_lex_one_token(t0: TokenView, j: bool, rest: Seq<RawTokenView>)
    requires
        t0 is Ident ==> syn_accepts_ident(t0->Ident_0),
    ensures
        spec_lex(visible(token_trees(t0, j)) + rest) == seq![t0] + spec_lex(rest),
{
    let head = token_trees(t0, j);
    let vh = visible(head);
    let v = vh + rest;
    reveal_with_fuel(visible, 4);
    if t0 is PathSep {
        assert(head.drop_last().drop_last() =~= seq![]);
        assert(head.drop_last() =~= seq![head[0]]);
        assert(vh =~= head);
        assert(starts_path_sep(v));
        assert(v.skip(2) =~= rest);
    } else {
        if head.len() == 3 {
            assert(head.drop_last().drop_last() =~= seq![head[0]]);
            assert(head.drop_last().drop_last().drop_last() =~= seq![]);
            assert(vh =~= seq![head[1]]);
        } else {
            assert(head.len() == 1);
            assert(head.drop_last() =~= seq![]);
            assert(vh =~= head);
        }
        assert(vh.len() == 1);
        assert(!starts_path_sep(v));
        assert(classify(v[0]) == t0);
        assert(v.skip(1) =~= rest);
    }
}

/// Lexing gives back the declaration tokens from their token trees, however
/// each token is written: whether its punctuation is joint to what follows,
/// whether it stands in a group without delimiters. The identifiers must be
/// ones that `syn` reads as identifiers.
pub proof fn lemma_lex_reads_back_tokens(t: Seq<TokenView>, ways: spec_fn(int) -> bool)
    requires
        forall|k: int| 0 <= k < t.len() && #[trigger] t[k] is Ident ==> syn_accepts_ident(t[k]->Ident_0),
    ensures
        spec_lex(visible(trees_of(t, ways))) == t,
    decreases t.len(),
{
    if t.len() > 0 {
        let rest_ways = |k: int| ways(k + 1);
        let rest = t.skip(1);
        assert forall|k: int| 0 <= k < rest.len() && #[trigger] rest[k] is Ident implies syn_accepts_ident(
            rest[k]->Ident_0,
        ) by {
            assert(rest[k] == t[k + 1]);
        }
        lemma_lex_reads_back_tokens(rest, rest_ways);
        let head = token_trees(t[0], ways(0));
        let tail = trees_of(rest, rest_ways);
        lemma_visible_append(head, tail);
        lemma_lex_one_token(t[0], ways(0), visible(tail));
        assert(seq![t[0]] + rest =~= t);
    }
}

/// The token trees of a written declaration, however its tokens are spaced or
/// grouped, lex to the tokens of that declaration, which the parser reads as
/// that declaration.
pub proof fn lemma_lex_written_declaration(e: EnumView, trailing: bool, ways: spec_fn(int) -> bool)
    requires
        forall|k: int|
            0 <= k < render_enum(e, trailing).len() && #[trigger] render_enum(e, trailing)[k] is Ident
                ==> syn_accepts_ident(render_enum(e, trailing)[k]->Ident_0),
    ensures
        spec_lex(visible(trees_of(render_enum(e, trailing), ways))) == render_enum(e, trailing),
        writes_enum(e, spec_lex(visible(trees_of(render_enum(e, trailing), ways)))),
{
    lemma_lex_reads_back_tokens(render_enum(e, trailing), ways);
}

} // verus!
