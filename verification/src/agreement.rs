//! The two ways from text to term agree: on the text of a term without
//! annotations, lexing and building the tree gives what parsing gives.

use vstd::prelude::*;
use crate::grammar::{is_name, is_name_char, parse_term_at, skip_trivia};
use crate::lexer::{is_delimiter, lex, lex_prefix, lex_step, LexState, TokenView};
use crate::roundtrip::{lemma_parse_rendered_at, lemma_text_char, lemma_text_split, text_at};
use crate::term::TermView;
use crate::treeify::{at_end, at_right_paren, treeify_at, treeify_spec, TreeifyFailure};

verus! {

impl TermView {
    /// Whether the term has no annotation anywhere.
    pub open spec fn plain(self) -> bool
        decreases self,
    {
        match self {
            TermView::Variable { _type, .. } => _type is None,
            TermView::Application { function, argument } => function.plain() && argument.plain(),
            TermView::Abstraction { variable, body } => variable.plain() && body.plain(),
        }
    }

    /// The name that the text of the term ends with; empty if it ends with
    /// `)`.
    pub open spec fn last_name(self) -> Seq<char>
        decreases self,
    {
        match self {
            TermView::Variable { name, .. } => name,
            TermView::Application { .. } => Seq::empty(),
            TermView::Abstraction { body, .. } => body.last_name(),
        }
    }

    /// The tokens that are emitted while the text of the term, standing at
    /// position `at`, is read: all of its tokens but the last name, which
    /// is still pending then.
    pub open spec fn tokens_read(self, at: int) -> Seq<TokenView>
        decreases self, 0nat,
    {
        match self {
            TermView::Variable { .. } => Seq::empty(),
            TermView::Application { function, argument } => {
                let space = at + 1 + function.render().len();
                let close = space + 1 + argument.render().len();
                seq![TokenView::LeftParen(at + 1)] + function.tokens(at + 1, space + 1)
                    + argument.tokens(space + 1, close + 1) + seq![TokenView::RightParen(close + 1)]
            },
            TermView::Abstraction { variable, body } => {
                let dot = at + 1 + variable.render().len();
                seq![
                    TokenView::Lambda(at + 1),
                    TokenView::Term(dot + 1, variable.variable_name()),
                    TokenView::Dot(dot + 1),
                ] + body.tokens_read(dot + 1)
            },
        }
    }

    /// The token of the last name, emitted when the delimiter after the text
    /// is read at `cursor`; nothing if the text ends with `)`.
    pub open spec fn token_pending(self, cursor: int) -> Seq<TokenView> {
        if self.last_name().len() > 0 {
            seq![TokenView::Term(cursor, self.last_name())]
        } else {
            Seq::empty()
        }
    }

    /// The tokens of the term whose text stands at position `at` and is
    /// followed by a delimiter that is read at `cursor`.
    pub open spec fn tokens(self, at: int, cursor: int) -> Seq<TokenView>
        decreases self, 1nat,
    {
        self.tokens_read(at) + self.token_pending(cursor)
    }
}

/// Reading characters that are no delimiters emits nothing: they join the
/// pending identifier.
proof fn lemma_lex_run(s: Seq<char>, at: int, run: Seq<char>, count: int)
    requires
        text_at(s, at, run),
        forall|k: int| 0 <= k < run.len() ==> !is_delimiter(#[trigger] run[k]),
        0 <= count <= run.len(),
    ensures
        lex_prefix(s, (at + count) as nat) == (LexState {
            tokens: lex_prefix(s, at as nat).tokens,
            pending: lex_prefix(s, at as nat).pending + run.subrange(0, count),
        }),
    decreases count,
{
    let start = lex_prefix(s, at as nat);
    if count == 0 {
        assert(start.pending + run.subrange(0, 0) =~= start.pending);
    } else {
        lemma_lex_run(s, at, run, count - 1);
        lemma_text_char(s, at, run, count - 1);
        let before = lex_prefix(s, (at + count - 1) as nat);
        assert(lex_prefix(s, (at + count) as nat) == lex_step(
            before,
            s[at + count - 1],
            at + count,
        ));
        assert(run.subrange(0, count - 1).push(run[count - 1]) =~= run.subrange(0, count));
        assert((start.pending + run.subrange(0, count - 1)).push(run[count - 1]) =~= start.pending
            + run.subrange(0, count));
    }
}

/// A name character is no delimiter.
proof fn lemma_name_has_no_delimiter(name: Seq<char>)
    requires
        is_name(name),
    ensures
        forall|k: int| 0 <= k < name.len() ==> !is_delimiter(#[trigger] name[k]),
{
    assert forall|k: int| 0 <= k < name.len() implies !is_delimiter(#[trigger] name[k]) by {
        assert(is_name_char(name[k]));
    }
}

/// The state after one more character.
proof fn lemma_lex_next(s: Seq<char>, at: int)
    requires
        0 <= at < s.len(),
    ensures
        lex_prefix(s, (at + 1) as nat) == lex_step(lex_prefix(s, at as nat), s[at], at + 1),
{
}

/// Reading the text of a printable term without annotations, from a state
/// with nothing pending, emits the tokens of the term but for its last
/// name, which is pending afterwards.
#[verifier::spinoff_prover]
#[verifier::rlimit(40)]
proof fn lemma_lex_rendered(s: Seq<char>, at: int, term: TermView)
    requires
        term.printable(),
        term.plain(),
        text_at(s, at, term.render()),
        lex_prefix(s, at as nat).pending.len() == 0,
    ensures
        lex_prefix(s, (at + term.render().len()) as nat) == (LexState {
            tokens: lex_prefix(s, at as nat).tokens + term.tokens_read(at),
            pending: term.last_name(),
        }),
    decreases term,
{
    let start = lex_prefix(s, at as nat);
    let text = term.render();
    match term {
        TermView::Variable { name, .. } => {
            lemma_name_has_no_delimiter(name);
            lemma_lex_run(s, at, name, name.len() as int);
            assert(name.subrange(0, name.len() as int) =~= name);
            assert(start.pending + name =~= name);
            assert(start.tokens + term.tokens_read(at) =~= start.tokens);
        },
        TermView::Application { function, argument } => {
            let f = function.render();
            let a = argument.render();
            let open = seq!['('];
            let blank = seq![' '];
            let close = seq![')'];
            assert(text == open + f + blank + a + close);
            lemma_text_split(s, at, open + f + blank + a, close);
            lemma_text_split(s, at, open + f + blank, a);
            lemma_text_split(s, at, open + f, blank);
            lemma_text_split(s, at, open, f);
            let at_f = at + 1;
            let at_blank = at_f + f.len();
            let at_a = at_blank + 1;
            let at_close = at_a + a.len();
            lemma_text_char(s, at, open, 0);
            lemma_text_char(s, at_blank, blank, 0);
            lemma_text_char(s, at_close, close, 0);
            // "("
            lemma_lex_next(s, at);
            let s1 = lex_prefix(s, at_f as nat);
            assert(s1.tokens =~= start.tokens + seq![TokenView::LeftParen(at + 1)]);
            assert(s1.pending.len() == 0);
            // the function and the space
            lemma_lex_rendered(s, at_f, *function);
            lemma_lex_next(s, at_blank);
            let s2 = lex_prefix(s, at_a as nat);
            assert(s2.tokens =~= s1.tokens + function.tokens(at_f, at_a));
            assert(s2.pending.len() == 0);
            // the argument and ")"
            lemma_lex_rendered(s, at_a, *argument);
            lemma_lex_next(s, at_close);
            let s3 = lex_prefix(s, (at_close + 1) as nat);
            assert(s3.tokens =~= s2.tokens + argument.tokens(at_a, at_close + 1) + seq![
                TokenView::RightParen(at_close + 1),
            ]);
            assert(s3.pending =~= term.last_name());
            assert(s3.tokens =~= start.tokens + term.tokens_read(at));
        },
        TermView::Abstraction { variable, body } => {
            let v = variable.render();
            let b = body.render();
            let lambda = seq!['λ'];
            let dot = seq!['.'];
            assert(text == lambda + v + dot + b);
            lemma_text_split(s, at, lambda + v + dot, b);
            lemma_text_split(s, at, lambda + v, dot);
            lemma_text_split(s, at, lambda, v);
            let at_v = at + 1;
            let at_dot = at_v + v.len();
            let at_b = at_dot + 1;
            lemma_text_char(s, at, lambda, 0);
            lemma_text_char(s, at_dot, dot, 0);
            // "λ"
            lemma_lex_next(s, at);
            let s1 = lex_prefix(s, at_v as nat);
            assert(s1.tokens =~= start.tokens + seq![TokenView::Lambda(at + 1)]);
            assert(s1.pending.len() == 0);
            // the variable and "."
            assert(variable.printable());
            assert(is_name(variable.variable_name()));
            lemma_lex_rendered(s, at_v, *variable);
            assert(variable.tokens_read(at_v) =~= Seq::<TokenView>::empty());
            assert(variable.last_name() == variable.variable_name());
            lemma_lex_next(s, at_dot);
            let s2 = lex_prefix(s, at_b as nat);
            assert(s2.tokens =~= s1.tokens + seq![
                TokenView::Term(at_dot + 1, variable.variable_name()),
                TokenView::Dot(at_dot + 1),
            ]);
            assert(s2.pending.len() == 0);
            // the body
            lemma_lex_rendered(s, at_b, *body);
            let s3 = lex_prefix(s, (at_b + b.len()) as nat);
            assert(s3.tokens =~= start.tokens + term.tokens_read(at));
        },
    }
}

/// The tokens of a printable term are not empty, and the first of them
/// starts a term.
proof fn lemma_tokens_start(term: TermView, at: int, cursor: int)
    requires
        term.printable(),
    ensures
        term.tokens(at, cursor).len() > 0,
        !(term.tokens(at, cursor)[0] is RightParen),
        !(term.tokens(at, cursor)[0] is Dot),
{
    match term {
        TermView::Variable { name, .. } => {},
        TermView::Application { function, argument } => {
            assert(term.tokens(at, cursor)[0] == TokenView::LeftParen(at + 1));
        },
        TermView::Abstraction { variable, body } => {
            assert(term.tokens(at, cursor)[0] == TokenView::Lambda(at + 1));
        },
    }
}

/// Whether `part` stands in `tokens` from index `k` on.
pub open spec fn tokens_at(tokens: Seq<TokenView>, k: int, part: Seq<TokenView>) -> bool {
    0 <= k && k + part.len() <= tokens.len() && tokens.subrange(k, k + part.len()) == part
}

/// Where a sequence of tokens made of two parts stands, both parts stand.
proof fn lemma_tokens_split(
    tokens: Seq<TokenView>,
    k: int,
    a: Seq<TokenView>,
    b: Seq<TokenView>,
)
    requires
        tokens_at(tokens, k, a + b),
    ensures
        tokens_at(tokens, k, a),
        tokens_at(tokens, k + a.len(), b),
{
    let whole = tokens.subrange(k, k + (a + b).len());
    assert(tokens.subrange(k, k + a.len()) =~= a) by {
        assert forall|j: int| 0 <= j < a.len() implies tokens.subrange(k, k + a.len())[j]
            == a[j] by {
            assert(whole[j] == (a + b)[j]);
        }
    }
    assert(tokens.subrange(k + a.len(), k + a.len() + b.len()) =~= b) by {
        assert forall|j: int| 0 <= j < b.len() implies tokens.subrange(
            k + a.len(),
            k + a.len() + b.len(),
        )[j] == b[j] by {
            assert(whole[a.len() + j] == (a + b)[a.len() + j]);
        }
    }
}

/// The token at offset `j` of a part that stands at `k`.
proof fn lemma_tokens_item(tokens: Seq<TokenView>, k: int, part: Seq<TokenView>, j: int)
    requires
        tokens_at(tokens, k, part),
        0 <= j < part.len(),
    ensures
        tokens[k + j] == part[j],
{
    assert(tokens.subrange(k, k + part.len())[j] == part[j]);
}

/// Where the tokens of a printable term without annotations stand, the
/// tree that is built is the term, and all of its tokens are read.
#[verifier::spinoff_prover]
#[verifier::rlimit(40)]
proof fn lemma_treeify_tokens(
    tokens: Seq<TokenView>,
    k: int,
    term: TermView,
    at: int,
    cursor: int,
)
    requires
        term.printable(),
        term.plain(),
        tokens_at(tokens, k, term.tokens(at, cursor)),
    ensures
        treeify_at(tokens, k) == Ok::<(TermView, int), TreeifyFailure>(
            (term, k + term.tokens(at, cursor).len()),
        ),
    decreases term,
{
    let part = term.tokens(at, cursor);
    lemma_tokens_start(term, at, cursor);
    lemma_tokens_item(tokens, k, part, 0);
    match term {
        TermView::Variable { name, .. } => {
            assert(part =~= seq![TokenView::Term(cursor, name)]);
        },
        TermView::Application { function, argument } => {
            let space = at + 1 + function.render().len();
            let close = space + 1 + argument.render().len();
            let open = seq![TokenView::LeftParen(at + 1)];
            let f = function.tokens(at + 1, space + 1);
            let a = argument.tokens(space + 1, close + 1);
            let shut = seq![TokenView::RightParen(close + 1)];
            assert(part =~= open + f + a + shut);
            lemma_tokens_split(tokens, k, open + f + a, shut);
            lemma_tokens_split(tokens, k, open + f, a);
            lemma_tokens_split(tokens, k, open, f);
            let at_f = k + 1;
            let at_a = at_f + f.len();
            let at_shut = at_a + a.len();
            lemma_tokens_start(*function, at + 1, space + 1);
            lemma_tokens_start(*argument, space + 1, close + 1);
            lemma_tokens_item(tokens, at_f, f, 0);
            lemma_tokens_item(tokens, at_a, a, 0);
            lemma_tokens_item(tokens, at_shut, shut, 0);
            lemma_treeify_tokens(tokens, at_f, *function, at + 1, space + 1);
            lemma_treeify_tokens(tokens, at_a, *argument, space + 1, close + 1);
            assert(at_right_paren(tokens, at_shut));
        },
        TermView::Abstraction { variable, body } => {
            let dot = at + 1 + variable.render().len();
            let head = seq![
                TokenView::Lambda(at + 1),
                TokenView::Term(dot + 1, variable.variable_name()),
                TokenView::Dot(dot + 1),
            ];
            let b = body.tokens(dot + 1, cursor);
            assert(part =~= head + b);
            lemma_tokens_split(tokens, k, head, b);
            lemma_tokens_item(tokens, k, head, 0);
            lemma_tokens_item(tokens, k, head, 1);
            lemma_tokens_item(tokens, k, head, 2);
            lemma_tokens_start(*body, dot + 1, cursor);
            lemma_tokens_item(tokens, k + 3, b, 0);
            lemma_treeify_tokens(tokens, k + 3, *body, dot + 1, cursor);
            assert(variable.plain() && *variable is Variable);
        },
    }
}

/// The tokens of the text of a term, with a space after it so that a name
/// at its end is emitted too.
pub proof fn lemma_lex_render(term: TermView)
    requires
        term.printable(),
        term.plain(),
    ensures
        lex(term.render() + seq![' ']) == term.tokens(0, term.render().len() as int + 1),
{
    let text = term.render();
    let s = text + seq![' '];
    assert(s.subrange(0, text.len() as int) =~= text);
    lemma_lex_rendered(s, 0, term);
    lemma_lex_next(s, text.len() as int);
    assert(lex(s) =~= term.tokens(0, text.len() as int + 1));
}

/// Both ways from text to term agree on the text of a term without
/// annotations: the tree built from its tokens is the term, which is also
/// what the parser makes of the text.
pub proof fn lemma_treeify_lex_render(term: TermView)
    requires
        term.printable(),
        term.plain(),
    ensures
        treeify_spec(lex(term.render() + seq![' '])) == Ok::<TermView, TreeifyFailure>(term),
{
    lemma_lex_render(term);
    let tokens = term.tokens(0, term.render().len() as int + 1);
    assert(tokens.subrange(0, tokens.len() as int) =~= tokens);
    lemma_treeify_tokens(tokens, 0, term, 0, term.render().len() as int + 1);
}

/// Both ways from text to term give the same term: on the text of a
/// printable term without annotations, followed by a space, the parser
/// reads the term that is built from the tokens.
pub proof fn lemma_paths_agree(term: TermView)
    requires
        term.printable(),
        term.plain(),
    ensures
        parse_term_at(term.render() + seq![' '], 0) matches Ok((parsed, _)) && treeify_spec(
            lex(term.render() + seq![' ']),
        ) == Ok::<TermView, TreeifyFailure>(parsed) && parsed == term,
{
    let text = term.render();
    let s = text + seq![' '];
    assert(s.subrange(0, text.len() as int) =~= text);
    let end = text.len() as int;
    assert(skip_trivia(s, end) == end + 1) by {
        assert(skip_trivia(s, end + 1) == end + 1);
    }
    lemma_parse_rendered_at(s, 0, term);
    lemma_treeify_lex_render(term);
}

} // verus!
