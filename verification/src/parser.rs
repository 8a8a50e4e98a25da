use crate::ast::{
    exprs_view, lemma_exprs_view, lemma_exprs_view_push, CallExpr, CallExprV, DefineExpr,
    DefineExprV, Expr, ExprV,
    IdentifierExpr, IdentifierExprV, IntegerLiteral, IntegerLiteralV, Location, Node, Program,
    ProgramV, StringLiteral, StringLiteralV,
};
use crate::lexer::{
    col_after, lemma_lex_step, lex_step, row_after, Lexer, LexStepV, LexicalError, LexicalErrorV,
    Token, TokenTag, TokenTagV, TokenV,
};
use std::rc::Rc;
use vstd::prelude::*;
use vstd::string::StringExecFns;

verus! {

broadcast use vstd::seq::axiom_seq_index_decreases;

// ---------------------------------------------------------------------------
// Parser errors.
// ---------------------------------------------------------------------------

pub enum ParserErrorV {
    SyntaticError { location: Location, message: Seq<char> },
    LexicalError(LexicalErrorV),
}

/// A structurally invalid token sequence, or a lexical error met while the
/// parser asked for the next token.
#[derive(Debug, PartialEq)]
pub enum ParserError {
    SyntaticError { location: Location, message: String },
    LexicalError(LexicalError),
}

impl View for ParserError {
    type V = ParserErrorV;

    open spec fn view(&self) -> ParserErrorV {
        match self {
            ParserError::SyntaticError { location, message } => ParserErrorV::SyntaticError {
                location: *location,
                message: message@,
            },
            ParserError::LexicalError(e) => ParserErrorV::LexicalError(e@),
        }
    }
}

// ---------------------------------------------------------------------------
// The token stream, seen from the parser: the current lookahead token plus
// the lexer's cursor (as the count of consumed characters).
// ---------------------------------------------------------------------------

/// The location a node takes over from the token it starts at.
pub open spec fn loc_of_token(t: TokenV) -> Location {
    Location { offset: t.offset as i32, col: t.col as i32, row: t.row as i32 }
}

/// What asking the lexer for one more token yields from cursor `pos`: the
/// token and the cursor after it, or the lexical error.  Past the end of the
/// input the end-of-input token repeats at the position of the last
/// character.
pub open spec fn spec_advance(s: Seq<char>, pos: int) -> Result<(TokenV, int), LexicalErrorV> {
    if pos <= s.len() {
        match lex_step(s, pos - 1) {
            LexStepV::Tok { t, next } => Ok((t, next)),
            LexStepV::Fail { e } => Err(e),
        }
    } else {
        Ok(
            (
                TokenV {
                    tag: TokenTagV::EOF,
                    offset: s.len() - 1,
                    row: row_after(s),
                    col: col_after(s),
                },
                s.len() + 1int,
            ),
        )
    }
}

pub proof fn lemma_spec_advance(s: Seq<char>, pos: int)
    requires
        1 <= pos <= s.len() + 1,
    ensures
        match spec_advance(s, pos) {
            Ok((t, p)) => (pos + 1 <= p <= s.len() + 1) || (p == pos && pos == s.len() + 1
                && t.tag is EOF),
            Err(e) => true,
        },
{
    if pos <= s.len() {
        lemma_lex_step(s, pos - 1);
    }
}

/// The lexer turns the source between two parser states into exactly this
/// token sequence: each element gives the token's tag, and, where the syntax
/// tree records it, the location the token carries.
pub open spec fn lexes_to(
    s: Seq<char>,
    cur: TokenV,
    pos: int,
    toks: Seq<(TokenTagV, Option<Location>)>,
    cur2: TokenV,
    pos2: int,
) -> bool
    decreases toks.len(),
{
    if toks.len() == 0 {
        cur2 == cur && pos2 == pos
    } else {
        &&& toks[0].0 == cur.tag
        &&& match toks[0].1 {
            Option::Some(l) => l == loc_of_token(cur),
            Option::None => true,
        }
        &&& match spec_advance(s, pos) {
            Ok((t, p)) => lexes_to(s, t, p, toks.drop_first(), cur2, pos2),
            Err(e) => false,
        }
    }
}

pub proof fn lemma_lexes_to_concat(
    s: Seq<char>,
    cur0: TokenV,
    pos0: int,
    a: Seq<(TokenTagV, Option<Location>)>,
    cur1: TokenV,
    pos1: int,
    b: Seq<(TokenTagV, Option<Location>)>,
    cur2: TokenV,
    pos2: int,
)
    requires
        lexes_to(s, cur0, pos0, a, cur1, pos1),
        lexes_to(s, cur1, pos1, b, cur2, pos2),
    ensures
        lexes_to(s, cur0, pos0, a + b, cur2, pos2),
    decreases a.len(),
{
    if a.len() == 0 {
        assert(a + b =~= b);
    } else {
        match spec_advance(s, pos0) {
            Ok((t, p)) => {
                lemma_lexes_to_concat(s, t, p, a.drop_first(), cur1, pos1, b, cur2, pos2);
                assert((a + b).drop_first() =~= a.drop_first() + b);
            },
            Err(e) => {},
        }
    }
}

pub proof fn lemma_lexes_to_one(
    s: Seq<char>,
    cur: TokenV,
    pos: int,
    cur2: TokenV,
    pos2: int,
    tag: TokenTagV,
    ol: Option<Location>,
)
    requires
        spec_advance(s, pos) == Ok::<(TokenV, int), LexicalErrorV>((cur2, pos2)),
        cur.tag == tag,
        match ol {
            Option::Some(l) => l == loc_of_token(cur),
            Option::None => true,
        },
    ensures
        lexes_to(s, cur, pos, seq![(tag, ol)], cur2, pos2),
{
    assert(seq![(tag, ol)].drop_first() =~= Seq::<(TokenTagV, Option<Location>)>::empty());
    assert(lexes_to(s, cur2, pos2, Seq::empty(), cur2, pos2));
}

// ---------------------------------------------------------------------------
// The tokens a syntax tree stands for.  A parse is sound: the tokens it
// consumed are exactly the tokens of the tree it built.
// ---------------------------------------------------------------------------

pub open spec fn ast_tokens(e: ExprV) -> Seq<(TokenTagV, Option<Location>)>
    decreases e, 0int,
{
    match e {
        ExprV::Identifier(id) => seq![(TokenTagV::Identifier(id.name), Option::Some(id.location))],
        ExprV::Integer(i) => seq![
            (TokenTagV::IntegerLiteral(i.value), Option::Some(i.location)),
        ],
        ExprV::String(st) => seq![(TokenTagV::StringLiteral(st.value), Option::Some(st.location))],
        ExprV::Define(d) => seq![
            (TokenTagV::LParen, Option::Some(d.location)),
            (TokenTagV::Identifier("define"@), Option::None),
            (TokenTagV::Identifier(d.identifier.name), Option::Some(d.identifier.location)),
        ] + ast_tokens(*d.value) + seq![(TokenTagV::RParen, Option::None)],
        ExprV::Call(c) => seq![(TokenTagV::LParen, Option::Some(c.location))] + ast_tokens(
            *c.function,
        ) + ast_tokens_list(c.parameters, 0) + seq![(TokenTagV::RParen, Option::None)],
    }
}

/// The tokens of the expressions `es[i..]`, in order.
pub open spec fn ast_tokens_list(es: Seq<ExprV>, i: int) -> Seq<(TokenTagV, Option<Location>)>
    decreases es, es.len() - i,
    via ast_tokens_list_decreases
{
    if i < 0 || i >= es.len() {
        Seq::empty()
    } else {
        ast_tokens(es[i]) + ast_tokens_list(es, i + 1)
    }
}

#[via_fn]
proof fn ast_tokens_list_decreases(es: Seq<ExprV>, i: int) {
    if 0 <= i < es.len() {
        assert(decreases_to!(es => es[i]));
    }
}

proof fn lemma_ast_tokens_list_push(es: Seq<ExprV>, e: ExprV, i: int)
    requires
        0 <= i <= es.len(),
    ensures
        ast_tokens_list(es.push(e), i) == ast_tokens_list(es, i) + ast_tokens(e),
    decreases es.len() - i,
{
    let full = es.push(e);
    if i == es.len() {
        assert(full[i] == e);
        assert(ast_tokens_list(full, i + 1) =~= Seq::<(TokenTagV, Option<Location>)>::empty());
        assert(ast_tokens_list(full, i) =~= ast_tokens(e));
        assert(ast_tokens_list(es, i) =~= Seq::<(TokenTagV, Option<Location>)>::empty());
        assert(ast_tokens_list(es, i) + ast_tokens(e) =~= ast_tokens(e));
    } else {
        lemma_ast_tokens_list_push(es, e, i + 1);
        assert(full[i] == es[i]);
        assert(ast_tokens(es[i]) + (ast_tokens_list(es, i + 1) + ast_tokens(e)) =~= (ast_tokens(
            es[i],
        ) + ast_tokens_list(es, i + 1)) + ast_tokens(e));
    }
}


// ---------------------------------------------------------------------------
// The grammar itself, as a deterministic spec-level recursive descent over
// `spec_advance`: token for token the decisions the parser makes, including
// which tree or which first error comes back.  The guards comparing `rem_at`
// only serve the termination argument; the parser's contracts discharge them
// on every reachable state, since consuming a token shrinks `rem_at`.
// ---------------------------------------------------------------------------

/// How much of the stream lies ahead of a lookahead state; consuming a token
/// strictly shrinks it.
pub open spec fn rem_at(s: Seq<char>, cur: TokenV, pos: int) -> int {
    2 * (s.len() + 1 - pos) + if cur.tag is EOF {
        0int
    } else {
        1int
    }
}

pub open spec fn spec_parse_identifier(s: Seq<char>, cur: TokenV, pos: int) -> Result<
    (IdentifierExprV, TokenV, int),
    ParserErrorV,
> {
    match cur.tag {
        TokenTagV::Identifier(name) => match spec_advance(s, pos) {
            Ok((t, p)) => Ok((IdentifierExprV { location: loc_of_token(cur), name }, t, p)),
            Err(e) => Err(ParserErrorV::LexicalError(e)),
        },
        _ => Err(
            ParserErrorV::SyntaticError {
                location: loc_of_token(cur),
                message: "unexpected token when parsing identifier. "@,
            },
        ),
    }
}

pub open spec fn spec_parse_expr(s: Seq<char>, cur: TokenV, pos: int) -> Result<
    (ExprV, TokenV, int),
    ParserErrorV,
>
    decreases rem_at(s, cur, pos), 1int,
        when 1 <= pos <= s.len() + 1
{
    match cur.tag {
        TokenTagV::LParen => spec_parse_call_like(s, cur, pos),
        TokenTagV::Identifier(name) => match spec_advance(s, pos) {
            Ok((t, p)) => Ok(
                (ExprV::Identifier(IdentifierExprV { location: loc_of_token(cur), name }), t, p),
            ),
            Err(e) => Err(ParserErrorV::LexicalError(e)),
        },
        TokenTagV::IntegerLiteral(value) => match spec_advance(s, pos) {
            Ok((t, p)) => Ok(
                (ExprV::Integer(IntegerLiteralV { location: loc_of_token(cur), value }), t, p),
            ),
            Err(e) => Err(ParserErrorV::LexicalError(e)),
        },
        TokenTagV::StringLiteral(value) => match spec_advance(s, pos) {
            Ok((t, p)) => Ok(
                (ExprV::String(StringLiteralV { location: loc_of_token(cur), value }), t, p),
            ),
            Err(e) => Err(ParserErrorV::LexicalError(e)),
        },
        _ => Err(
            ParserErrorV::SyntaticError {
                location: loc_of_token(cur),
                message: "unexpected token when parsing expression. "@,
            },
        ),
    }
}

pub open spec fn spec_parse_call_like(s: Seq<char>, cur: TokenV, pos: int) -> Result<
    (ExprV, TokenV, int),
    ParserErrorV,
>
    decreases rem_at(s, cur, pos), 0int,
        when 1 <= pos <= s.len() + 1
        via spec_parse_call_like_decreases
{
    match spec_advance(s, pos) {
        Err(e) => Err(ParserErrorV::LexicalError(e)),
        Ok((fa, p1)) => match fa.tag {
            TokenTagV::Identifier(name) => if name == "define"@ {
                match spec_advance(s, p1) {
                    Err(e) => Err(ParserErrorV::LexicalError(e)),
                    Ok((t2, p2)) => match spec_parse_identifier(s, t2, p2) {
                        Err(e) => Err(e),
                        Ok((idv, t3, p3)) => match spec_parse_expr(s, t3, p3) {
                            Err(e) => Err(e),
                            Ok((val, t4, p4)) => match t4.tag {
                                TokenTagV::RParen => match spec_advance(s, p4) {
                                    Err(e) => Err(ParserErrorV::LexicalError(e)),
                                    Ok((t5, p5)) => Ok(
                                        (
                                            ExprV::Define(
                                                DefineExprV {
                                                    location: loc_of_token(cur),
                                                    identifier: idv,
                                                    value: Box::new(val),
                                                },
                                            ),
                                            t5,
                                            p5,
                                        ),
                                    ),
                                },
                                _ => Err(
                                    ParserErrorV::SyntaticError {
                                        location: loc_of_token(fa),
                                        message: "expecting ')' at the end of define expression "@,
                                    },
                                ),
                            },
                        },
                    },
                }
            } else {
                spec_parse_call_body(s, cur, fa, p1)
            },
            TokenTagV::LParen => spec_parse_call_body(s, cur, fa, p1),
            _ => Err(
                ParserErrorV::SyntaticError {
                    location: loc_of_token(fa),
                    message: "unexpected token when parsing call-like expression. "@,
                },
            ),
        },
    }
}

#[via_fn]
proof fn spec_parse_call_like_decreases(s: Seq<char>, cur: TokenV, pos: int) {
    lemma_spec_advance(s, pos);
    match spec_advance(s, pos) {
        Ok((fa, p1)) => {
            if 1 <= p1 <= s.len() + 1 {
                lemma_spec_advance(s, p1);
                match spec_advance(s, p1) {
                    Ok((t2, p2)) => {
                        if 1 <= p2 <= s.len() + 1 {
                            lemma_spec_advance(s, p2);
                        }
                    },
                    Err(e) => {},
                }
            }
        },
        Err(e) => {},
    }
}

/// The body of a call form after its `(` (at `lp`) and the callee's first
/// token `cur` were read: the callee, then parameters up to `)`.
pub open spec fn spec_parse_call_body(s: Seq<char>, lp: TokenV, cur: TokenV, pos: int) -> Result<
    (ExprV, TokenV, int),
    ParserErrorV,
>
    decreases rem_at(s, cur, pos), 2int,
        when 1 <= pos <= s.len() + 1
{
    match spec_parse_expr(s, cur, pos) {
        Err(e) => Err(e),
        Ok((func, t2, p2)) => if 1 <= p2 <= s.len() + 1 && rem_at(s, t2, p2) < rem_at(
            s,
            cur,
            pos,
        ) {
            match spec_parse_params(s, t2, p2) {
                Err(e) => Err(e),
                Ok((ps, t3, p3)) => Ok(
                    (
                        ExprV::Call(
                            CallExprV {
                                location: loc_of_token(lp),
                                function: Box::new(func),
                                parameters: ps,
                            },
                        ),
                        t3,
                        p3,
                    ),
                ),
            }
        } else {
            arbitrary()
        },
    }
}

/// Parameter expressions until `)`, which is consumed.
pub open spec fn spec_parse_params(s: Seq<char>, cur: TokenV, pos: int) -> Result<
    (Seq<ExprV>, TokenV, int),
    ParserErrorV,
>
    decreases rem_at(s, cur, pos), 3int,
        when 1 <= pos <= s.len() + 1
{
    match cur.tag {
        TokenTagV::RParen => match spec_advance(s, pos) {
            Ok((t, p)) => Ok((Seq::empty(), t, p)),
            Err(e) => Err(ParserErrorV::LexicalError(e)),
        },
        _ => match spec_parse_expr(s, cur, pos) {
            Err(e) => Err(e),
            Ok((e1, t2, p2)) => if 1 <= p2 <= s.len() + 1 && rem_at(s, t2, p2) < rem_at(
                s,
                cur,
                pos,
            ) {
                match spec_parse_params(s, t2, p2) {
                    Err(e) => Err(e),
                    Ok((es, t3, p3)) => Ok((seq![e1] + es, t3, p3)),
                }
            } else {
                arbitrary()
            },
        },
    }
}

/// Top-level expressions until the end of input; the final lookahead is the
/// end-of-input token.
pub open spec fn spec_parse(s: Seq<char>, cur: TokenV, pos: int) -> Result<
    (Seq<ExprV>, TokenV, int),
    ParserErrorV,
>
    decreases rem_at(s, cur, pos), 4int,
        when 1 <= pos <= s.len() + 1
{
    if cur.tag is EOF {
        Ok((Seq::empty(), cur, pos))
    } else {
        match spec_parse_expr(s, cur, pos) {
            Err(e) => Err(e),
            Ok((e1, t2, p2)) => if 1 <= p2 <= s.len() + 1 && rem_at(s, t2, p2) < rem_at(
                s,
                cur,
                pos,
            ) {
                match spec_parse(s, t2, p2) {
                    Err(e) => Err(e),
                    Ok((es, t3, p3)) => Ok((seq![e1] + es, t3, p3)),
                }
            } else {
                arbitrary()
            },
        }
    }
}

/// What parsing a whole source yields from a primed parser state: one
/// expression per top-level form, the program's location being the first
/// expression's (or the end-of-input token's when there is none) -- or the
/// first lexical or syntactic fault, left to right.
pub open spec fn spec_parse_program(s: Seq<char>, cur: TokenV, pos: int) -> Result<
    ProgramV,
    ParserErrorV,
> {
    match spec_parse(s, cur, pos) {
        Ok((es, t, p)) => Ok(
            ProgramV {
                location: if es.len() == 0 {
                    loc_of_token(t)
                } else {
                    es[0].loc()
                },
                exprs: es,
            },
        ),
        Err(e) => Err(e),
    }
}

/// `spec_parse_params` / `spec_parse` with `acc` already parsed.
pub open spec fn parsed_prepend(
    acc: Seq<ExprV>,
    r: Result<(Seq<ExprV>, TokenV, int), ParserErrorV>,
) -> Result<(Seq<ExprV>, TokenV, int), ParserErrorV> {
    match r {
        Ok((es, t, p)) => Ok((acc + es, t, p)),
        Err(e) => Err(e),
    }
}

proof fn lemma_parsed_prepend_cons(
    acc: Seq<ExprV>,
    e: ExprV,
    r: Result<(Seq<ExprV>, TokenV, int), ParserErrorV>,
)
    ensures
        parsed_prepend(acc, parsed_prepend(seq![e], r)) == parsed_prepend(acc.push(e), r),
{
    match r {
        Ok((es, t, p)) => {
            assert(acc + (seq![e] + es) =~= acc.push(e) + es);
        },
        _ => {},
    }
}

/// Exec token tags and their models name the same variant.
proof fn lemma_token_tag_cases(t: TokenTag)
    ensures
        (t is LParen <==> t@ is LParen),
        (t is RParen <==> t@ is RParen),
        (t is Identifier <==> t@ is Identifier),
        (t is IntegerLiteral <==> t@ is IntegerLiteral),
        (t is StringLiteral <==> t@ is StringLiteral),
        (t is EOF <==> t@ is EOF),
{
    match t {
        TokenTag::LParen => {},
        TokenTag::RParen => {},
        TokenTag::Identifier(x) => {},
        TokenTag::IntegerLiteral(x) => {},
        TokenTag::StringLiteral(x) => {},
        TokenTag::EOF => {},
    }
}

// ---------------------------------------------------------------------------
// The parser.
// ---------------------------------------------------------------------------

/// The parser's state: the source, the lexer's cursor, and the lookahead
/// token.
pub struct ParserV {
    pub code: Seq<char>,
    pub pos: int,
    pub cur: Option<TokenV>,
}

impl ParserV {
    /// The lookahead token.
    pub open spec fn cur_tok(self) -> TokenV
        recommends
            self.cur is Some,
    {
        match self.cur {
            Option::Some(t) => t,
            Option::None => TokenV { tag: TokenTagV::EOF, offset: 0, row: 0, col: 0 },
        }
    }

    /// How much of the stream is still ahead: strictly falls whenever the
    /// parser consumes a token.
    pub open spec fn rem(self) -> int {
        rem_at(self.code, self.cur_tok(), self.pos)
    }
}

/// Single-token-lookahead recursive descent over the lexer's token stream.
pub struct Parser {
    lexer: Lexer,
    cur_token: Option<Token>,
}

impl View for Parser {
    type V = ParserV;

    closed spec fn view(&self) -> ParserV {
        ParserV {
            code: self.lexer@.code,
            pos: self.lexer@.pos,
            cur: match self.cur_token {
                Option::Some(t) => Option::Some(t@),
                Option::None => Option::None,
            },
        }
    }
}

impl Parser {
    /// The parser is primed: the lexer runs and a lookahead token is at hand.
    pub open spec fn wf(&self) -> bool {
        &&& self.lexer_wf()
        &&& self@.cur is Some
        &&& 1 <= self@.pos <= self@.code.len() + 1
    }

    /// The lexer's own invariant (kept closed; `wf` is what callers use).
    pub closed spec fn lexer_wf(&self) -> bool {
        self.lexer@.wf()
    }

    /// A fresh parser over `code`, not yet primed.
    pub fn new(code: &str) -> (p: Parser)
        requires
            code@.len() + 2 <= i32::MAX,
        ensures
            p@.code == code@,
            p@.pos == 0,
            p@.cur is None,
            p.lexer_wf(),
    {
        Parser { lexer: Lexer::new(code), cur_token: Option::None }
    }

    /// Obtains the first token from the lexer.  On success the parser is
    /// primed with it; a lexical error is handed through unchanged.
    pub fn init(&mut self) -> (r: Result<(), LexicalError>)
        requires
            old(self).lexer_wf(),
            old(self)@.pos == 0,
            old(self)@.cur is None,
        ensures
            final(self)@.code == old(self)@.code,
            ({
                let s = old(self)@.code;
                if s.len() == 0 {
                    &&& r matches Ok(u)
                    &&& final(self).wf()
                    &&& final(self)@.cur == Option::Some(
                        TokenV { tag: TokenTagV::EOF, offset: -1, row: 1, col: 0 },
                    )
                    &&& final(self)@.pos == 1
                } else {
                    match lex_step(s, 0) {
                        LexStepV::Tok { t, next } => {
                            &&& r matches Ok(u)
                            &&& final(self).wf()
                            &&& final(self)@.cur == Option::Some(t)
                            &&& final(self)@.pos == next
                        },
                        LexStepV::Fail { e } => (r matches Err(le) && le@ == e)
                            && final(self)@.cur is None,
                    }
                }
            }),
    {
        proof {
            if old(self)@.code.len() > 0 {
                lemma_lex_step(old(self)@.code, 0);
            }
        }
        match self.lexer.init() {
            Ok(token) => {
                self.cur_token = Option::Some(token);
                Ok(())
            },
            Err(err) => Err(err),
        }
    }

    /// Asks the lexer for the next token, keeps it as the new lookahead and
    /// returns it; a lexical error is wrapped and the lookahead kept.
    pub fn next_token(&mut self) -> (r: Result<Token, ParserError>)
        requires
            old(self).wf(),
        ensures
            final(self)@.code == old(self)@.code,
            match spec_advance(old(self)@.code, old(self)@.pos) {
                Ok((t, p)) => {
                    &&& r matches Ok(tok) && tok@ == t
                    &&& final(self).wf()
                    &&& final(self)@.cur == Option::Some(t)
                    &&& final(self)@.pos == p
                },
                Err(e) => {
                    &&& r matches Err(pe) && pe@ == ParserErrorV::LexicalError(e)
                    &&& final(self).wf()
                    &&& final(self)@.cur == old(self)@.cur
                },
            },
    {
        let ghost s = self@.code;
        let ghost p0 = self@.pos;
        match self.lexer.next() {
            Ok(t) => {
                proof {
                    if p0 > s.len() {
                        assert(old(self).lexer@.consumed() == s);
                    }
                }
                let t2 = t.clone();
                self.cur_token = Option::Some(t);
                Ok(t2)
            },
            Err(e) => Err(ParserError::LexicalError(e)),
        }
    }

    /// The current lookahead token (cloned).
    pub fn cur_token(&self) -> (t: Token)
        requires
            self.wf(),
        ensures
            t@ == self@.cur_tok(),
    {
        match &self.cur_token {
            Option::Some(t) => t.clone(),
            Option::None => vstd::pervasive::unreached(),
        }
    }

    /// Consumes tokens until the end of the input, one top-level expression
    /// at a time.  A parse is sound: the consumed tokens are exactly the
    /// tokens of the tree handed back, and the program's location is its
    /// first expression's, or the end-of-input token's if there is none.
    #[verifier::loop_isolation(false)]
    pub fn parse(&mut self) -> (r: Result<Program, ParserError>)
        requires
            old(self).wf(),
        ensures
            final(self).wf(),
            final(self)@.code == old(self)@.code,
            ({
                let s = old(self)@.code;
                let c0 = old(self)@.cur_tok();
                let p0 = old(self)@.pos;
                &&& (r matches Ok(prog) ==> {
                    &&& lexes_to(
                        s,
                        c0,
                        p0,
                        ast_tokens_list(prog@.exprs, 0),
                        final(self)@.cur_tok(),
                        final(self)@.pos,
                    )
                    &&& final(self)@.cur_tok().tag is EOF
                    &&& prog@.location == if prog@.exprs.len() == 0 {
                        loc_of_token(final(self)@.cur_tok())
                    } else {
                        prog@.exprs[0].loc()
                    }
                })
                &&& (c0.tag is EOF ==> (r matches Ok(prog) && prog@.exprs
                    == Seq::<ExprV>::empty()) && final(self)@ == old(self)@)
                &&& match spec_parse_program(s, c0, p0) {
                    Ok(pv) => r matches Ok(prog) && prog@ == pv,
                    Err(pe) => r matches Err(x) && x@ == pe,
                }
                &&& match spec_parse(s, c0, p0) {
                    Ok((es, t, p)) => {
                        &&& final(self)@.cur == Option::Some(t)
                        &&& final(self)@.pos == p
                        &&& t.tag is EOF
                    },
                    Err(pe) => true,
                }
            }),
    {
        let ghost s = self@.code;
        let ghost c0 = self@.cur_tok();
        let ghost p0 = self@.pos;
        let mut exprs: Vec<Rc<Expr>> = Vec::new();
        proof {
            lemma_exprs_view(exprs@);
            assert(ast_tokens_list(exprs_view(exprs@), 0) =~= Seq::<(
                TokenTagV,
                Option<Location>,
            )>::empty());
            assert(exprs_view(exprs@) =~= Seq::<ExprV>::empty());
            match spec_parse(s, c0, p0) {
                Ok((es, t, p)) => {
                    assert(Seq::<ExprV>::empty() + es =~= es);
                },
                Err(e) => {},
            }
        }
        loop
            invariant
                self.wf(),
                self@.code == s,
                lexes_to(
                    s,
                    c0,
                    p0,
                    ast_tokens_list(exprs_view(exprs@), 0),
                    self@.cur_tok(),
                    self@.pos,
                ),
                exprs@.len() == 0 ==> self@ == old(self)@,
                c0.tag is EOF ==> exprs@.len() == 0 && self@ == old(self)@,
                spec_parse(s, c0, p0) == parsed_prepend(
                    exprs_view(exprs@),
                    spec_parse(s, self@.cur_tok(), self@.pos),
                ),
            decreases self@.rem(),
        {
            let token = self.cur_token();
            match &token.tag {
                TokenTag::EOF => {
                    let location = if exprs.len() == 0 {
                        Location { col: token.col, row: token.row, offset: token.offset }
                    } else {
                        let first: &Expr = &exprs[0];
                        *first.location()
                    };
                    proof {
                        lemma_exprs_view(exprs@);
                        if exprs@.len() == 0 {
                            assert(exprs_view(exprs@) =~= Seq::<ExprV>::empty());
                        }
                        assert(spec_parse(s, self@.cur_tok(), self@.pos) == Ok::<
                            (Seq<ExprV>, TokenV, int),
                            ParserErrorV,
                        >((Seq::empty(), self@.cur_tok(), self@.pos)));
                        assert(exprs_view(exprs@) + Seq::<ExprV>::empty() =~= exprs_view(exprs@));
                    }
                    return Ok(Program { location, exprs });
                },
                _ => {
                    proof {
                        if c0.tag is EOF {
                            assert(token@ == c0);
                            match token.tag {
                                TokenTag::LParen => assert(token@.tag is LParen),
                                TokenTag::RParen => assert(token@.tag is RParen),
                                TokenTag::Identifier(_) => assert(token@.tag is Identifier),
                                TokenTag::IntegerLiteral(_) => assert(token@.tag is IntegerLiteral),
                                TokenTag::StringLiteral(_) => assert(token@.tag is StringLiteral),
                                TokenTag::EOF => assert(false),
                            }
                            assert(false);
                        }
                    }
                    let ghost old_exprs = exprs@;
                    let ghost cb = self@.cur_tok();
                    let ghost pb = self@.pos;
                    let expr = match self.parse_expr() {
                        Ok(e) => e,
                        Err(e) => {
                            return Err(e);
                        },
                    };
                    proof {
                        lemma_exprs_view_push(old_exprs, expr);
                        lemma_ast_tokens_list_push(exprs_view(old_exprs), expr@, 0);
                        lemma_lexes_to_concat(
                            s,
                            c0,
                            p0,
                            ast_tokens_list(exprs_view(old_exprs), 0),
                            cb,
                            pb,
                            ast_tokens(expr@),
                            self@.cur_tok(),
                            self@.pos,
                        );
                        lemma_parsed_prepend_cons(
                            exprs_view(old_exprs),
                            expr@,
                            spec_parse(s, self@.cur_tok(), self@.pos),
                        );
                    }
                    exprs.push(expr);
                },
            }
        }
    }

    /// Parses one expression, dispatching on the lookahead token: `(` starts
    /// a call-like form, an identifier or a literal stands alone, and any
    /// other token is refused.
    pub fn parse_expr(&mut self) -> (r: Result<Rc<Expr>, ParserError>)
        requires
            old(self).wf(),
        ensures
            final(self).wf(),
            final(self)@.code == old(self)@.code,
            ({
                let s = old(self)@.code;
                let c = old(self)@.cur_tok();
                let p0 = old(self)@.pos;
                &&& (r matches Ok(e) ==> {
                    &&& lexes_to(
                        s,
                        c,
                        p0,
                        ast_tokens(e@),
                        final(self)@.cur_tok(),
                        final(self)@.pos,
                    )
                    &&& e@.loc() == loc_of_token(c)
                    &&& final(self)@.rem() < old(self)@.rem()
                })
                &&& match spec_parse_expr(s, c, p0) {
                    Ok((ev, t, p)) => {
                        &&& r matches Ok(e) && e@ == ev
                        &&& final(self)@.cur == Option::Some(t)
                        &&& final(self)@.pos == p
                    },
                    Err(pe) => r matches Err(x) && x@ == pe,
                }
            }),
        decreases old(self)@.rem(), 1int,
    {
        let ghost s = self@.code;
        let ghost c0 = self@.cur_tok();
        let first_token = self.cur_token();
        match &first_token.tag {
            TokenTag::LParen => self.parse_call_like(),
            TokenTag::Identifier(_) => {
                match self.parse_identifier() {
                    Ok(id) => {
                        let e = Rc::new(Expr::Identifier(IdentifierExpr::clone(&id)));
                        proof {
                            lemma_lexes_to_one(
                                s,
                                c0,
                                old(self)@.pos,
                                self@.cur_tok(),
                                self@.pos,
                                c0.tag,
                                Option::Some(loc_of_token(c0)),
                            );
                        }
                        Ok(e)
                    },
                    Err(e) => Err(e),
                }
            },
            TokenTag::IntegerLiteral(_) => {
                match self.parse_integer() {
                    Ok(n) => {
                        let e = Rc::new(Expr::Integer(*n));
                        proof {
                            lemma_lexes_to_one(
                                s,
                                c0,
                                old(self)@.pos,
                                self@.cur_tok(),
                                self@.pos,
                                c0.tag,
                                Option::Some(loc_of_token(c0)),
                            );
                        }
                        Ok(e)
                    },
                    Err(e) => Err(e),
                }
            },
            TokenTag::StringLiteral(_) => {
                match self.parse_string() {
                    Ok(n) => {
                        let e = Rc::new(Expr::String(StringLiteral::clone(&n)));
                        proof {
                            lemma_lexes_to_one(
                                s,
                                c0,
                                old(self)@.pos,
                                self@.cur_tok(),
                                self@.pos,
                                c0.tag,
                                Option::Some(loc_of_token(c0)),
                            );
                        }
                        Ok(e)
                    },
                    Err(e) => Err(e),
                }
            },
            _ => Err(
                ParserError::SyntaticError {
                    location: Location {
                        col: first_token.col,
                        row: first_token.row,
                        offset: first_token.offset,
                    },
                    message: String::from_str("unexpected token when parsing expression. "),
                },
            ),
        }
    }

    /// Parses a parenthesized form, the `(` being the lookahead: `(define
    /// name value)` makes a definition; an identifier or a nested `(` starts
    /// a call; anything else is refused.
    #[verifier::rlimit(100)]
    #[verifier::spinoff_prover]
    fn parse_call_like(&mut self) -> (r: Result<Rc<Expr>, ParserError>)
        requires
            old(self).wf(),
            old(self)@.cur_tok().tag is LParen,
        ensures
            final(self).wf(),
            final(self)@.code == old(self)@.code,
            ({
                let s = old(self)@.code;
                let c = old(self)@.cur_tok();
                let p0 = old(self)@.pos;
                &&& (r matches Ok(e) ==> {
                    &&& lexes_to(
                        s,
                        c,
                        p0,
                        ast_tokens(e@),
                        final(self)@.cur_tok(),
                        final(self)@.pos,
                    )
                    &&& e@.loc() == loc_of_token(c)
                    &&& (e@ is Define || e@ is Call)
                    &&& final(self)@.rem() < old(self)@.rem()
                })
                &&& match spec_parse_call_like(s, c, p0) {
                    Ok((ev, t, p)) => {
                        &&& r matches Ok(e) && e@ == ev
                        &&& final(self)@.cur == Option::Some(t)
                        &&& final(self)@.pos == p
                    },
                    Err(pe) => r matches Err(x) && x@ == pe,
                }
            }),
        decreases old(self)@.rem(), 0int,
    {
        let ghost s = self@.code;
        let ghost c0 = self@.cur_tok();
        let ghost p0 = self@.pos;

        let lparen = self.cur_token();
        proof {
            lemma_spec_advance(s, p0);
        }
        let first_arg = match self.next_token() {
            Ok(t) => t,
            Err(e) => {
                return Err(e);
            },
        };
        let ghost c1 = self@.cur_tok();
        let ghost p1 = self@.pos;
        proof {
            lemma_lexes_to_one(s, c0, p0, c1, p1, c0.tag, Option::Some(loc_of_token(c0)));
        }
        match &first_arg.tag {
            TokenTag::Identifier(identifier) => {
                if *identifier == String::from_str("define") {
                    // (define name value)
                    proof {
                        lemma_spec_advance(s, self@.pos);
                    }
                    match self.next_token() {
                        Ok(t) => {},
                        Err(e) => {
                            return Err(e);
                        },
                    }
                    let ghost c2 = self@.cur_tok();
                    let ghost p2 = self@.pos;
                    proof {
                        lemma_lexes_to_one(s, c1, p1, c2, p2, c1.tag, Option::None);
                    }
                    let identifier_expr = match self.parse_identifier() {
                        Ok(x) => x,
                        Err(e) => {
                            return Err(e);
                        },
                    };
                    let ghost c3 = self@.cur_tok();
                    let ghost p3 = self@.pos;
                    proof {
                        lemma_lexes_to_one(
                            s,
                            c2,
                            p2,
                            c3,
                            p3,
                            c2.tag,
                            Option::Some(loc_of_token(c2)),
                        );
                    }
                    let value_expr = match self.parse_expr() {
                        Ok(x) => x,
                        Err(e) => {
                            return Err(e);
                        },
                    };
                    let ghost c4 = self@.cur_tok();
                    let ghost p4 = self@.pos;
                    let rparen = self.cur_token();
                    match &rparen.tag {
                        TokenTag::RParen => {
                            proof {
                                lemma_spec_advance(s, self@.pos);
                            }
                            match self.next_token() {
                                Ok(t) => {},
                                Err(e) => {
                                    return Err(e);
                                },
                            }
                            proof {
                                lemma_lexes_to_one(
                                    s,
                                    c4,
                                    p4,
                                    self@.cur_tok(),
                                    self@.pos,
                                    c4.tag,
                                    Option::None,
                                );
                            }
                            let define_expr = Rc::new(
                                Expr::Define(
                                    DefineExpr {
                                        location: Location {
                                            col: lparen.col,
                                            offset: lparen.offset,
                                            row: lparen.row,
                                        },
                                        identifier: identifier_expr,
                                        value: value_expr,
                                    },
                                ),
                            );
                            proof {
                                assert(lexes_to(
                                    s,
                                    c0,
                                    p0,
                                    ast_tokens(define_expr@),
                                    self@.cur_tok(),
                                    self@.pos,
                                )) by {
                                    let dv = define_expr@->Define_0;
                                    let t1 = seq![
                                        (TokenTagV::LParen, Option::Some(loc_of_token(c0))),
                                    ];
                                    let t2 = seq![
                                        (
                                            TokenTagV::Identifier("define"@),
                                            Option::<Location>::None,
                                        ),
                                    ];
                                    let t3 = seq![
                                        (
                                            TokenTagV::Identifier(dv.identifier.name),
                                            Option::Some(dv.identifier.location),
                                        ),
                                    ];
                                    let tv = ast_tokens(*dv.value);
                                    let t4 = seq![(TokenTagV::RParen, Option::<Location>::None)];
                                    lemma_lexes_to_concat(s, c0, p0, t1, c1, p1, t2, c2, p2);
                                    lemma_lexes_to_concat(s, c0, p0, t1 + t2, c2, p2, t3, c3, p3);
                                    lemma_lexes_to_concat(
                                        s,
                                        c0,
                                        p0,
                                        t1 + t2 + t3,
                                        c3,
                                        p3,
                                        tv,
                                        c4,
                                        p4,
                                    );
                                    lemma_lexes_to_concat(
                                        s,
                                        c0,
                                        p0,
                                        t1 + t2 + t3 + tv,
                                        c4,
                                        p4,
                                        t4,
                                        self@.cur_tok(),
                                        self@.pos,
                                    );
                                    assert(ast_tokens(define_expr@) =~= t1 + t2 + t3 + tv + t4);
                                }
                            }
                            Ok(define_expr)
                        },
                        _ => Err(
                            ParserError::SyntaticError {
                                location: Location {
                                    col: first_arg.col,
                                    row: first_arg.row,
                                    offset: first_arg.offset,
                                },
                                message: String::from_str(
                                    "expecting ')' at the end of define expression ",
                                ),
                            },
                        ),
                    }
                } else {
                    // a call whose callee is an identifier
                    match self.parse_call_body(lparen) {
                        Ok(e) => {
                            proof {
                                let cv = e@->Call_0;
                                let rest = ast_tokens(*cv.function) + ast_tokens_list(
                                    cv.parameters,
                                    0,
                                ) + seq![(TokenTagV::RParen, Option::<Location>::None)];
                                lemma_lexes_to_concat(
                                    s,
                                    c0,
                                    p0,
                                    seq![(TokenTagV::LParen, Option::Some(loc_of_token(c0)))],
                                    c1,
                                    p1,
                                    rest,
                                    self@.cur_tok(),
                                    self@.pos,
                                );
                                assert(ast_tokens(e@) =~= seq![
                                    (TokenTagV::LParen, Option::Some(loc_of_token(c0))),
                                ] + rest);
                            }
                            Ok(e)
                        },
                        Err(e) => Err(e),
                    }
                }
            },
            TokenTag::LParen => {
                match self.parse_call_body(lparen) {
                    Ok(e) => {
                        proof {
                            let cv = e@->Call_0;
                            let rest = ast_tokens(*cv.function) + ast_tokens_list(
                                cv.parameters,
                                0,
                            ) + seq![(TokenTagV::RParen, Option::<Location>::None)];
                            lemma_lexes_to_concat(
                                s,
                                c0,
                                p0,
                                seq![(TokenTagV::LParen, Option::Some(loc_of_token(c0)))],
                                c1,
                                p1,
                                rest,
                                self@.cur_tok(),
                                self@.pos,
                            );
                            assert(ast_tokens(e@) =~= seq![
                                (TokenTagV::LParen, Option::Some(loc_of_token(c0))),
                            ] + rest);
                        }
                        Ok(e)
                    },
                    Err(e) => Err(e),
                }
            },
            _ => Err(
                ParserError::SyntaticError {
                    location: Location {
                        col: first_arg.col,
                        row: first_arg.row,
                        offset: first_arg.offset,
                    },
                    message: String::from_str("unexpected token when parsing call-like expression. "),
                },
            ),
        }
    }

    /// Parses the body of a call form: the callee expression, then parameter
    /// expressions until `)`.  The `(` token, already consumed, lends the
    /// node its location.
    #[verifier::loop_isolation(false)]
    fn parse_call_body(&mut self, lparen: Token) -> (r: Result<Rc<Expr>, ParserError>)
        requires
            old(self).wf(),
            old(self)@.cur_tok().tag is Identifier || old(self)@.cur_tok().tag is LParen,
        ensures
            final(self).wf(),
            final(self)@.code == old(self)@.code,
            match spec_parse_call_body(
                old(self)@.code,
                lparen@,
                old(self)@.cur_tok(),
                old(self)@.pos,
            ) {
                Ok((ev, t, p)) => {
                    &&& r matches Ok(e) && e@ == ev
                    &&& final(self)@.cur == Option::Some(t)
                    &&& final(self)@.pos == p
                },
                Err(pe) => r matches Err(x) && x@ == pe,
            },
            (r matches Ok(e) ==> {
                &&& match e@ {
                    ExprV::Call(cv) => {
                        &&& lexes_to(
                            old(self)@.code,
                            old(self)@.cur_tok(),
                            old(self)@.pos,
                            ast_tokens(*cv.function) + ast_tokens_list(cv.parameters, 0) + seq![
                                (TokenTagV::RParen, Option::<Location>::None),
                            ],
                            final(self)@.cur_tok(),
                            final(self)@.pos,
                        )
                        &&& cv.location == loc_of_token(lparen@)
                    },
                    _ => false,
                }
                &&& final(self)@.rem() < old(self)@.rem()
            }),
        decreases old(self)@.rem(), 2int,
    {
        let ghost s = self@.code;
        let ghost m0 = self@.rem();
        let ghost c0b = self@.cur_tok();
        let ghost p0b = self@.pos;
        let function = match self.parse_expr() {
            Ok(f) => f,
            Err(e) => {
                return Err(e);
            },
        };
        let ghost c1 = self@.cur_tok();
        let ghost p1 = self@.pos;
        let ghost fv = function@;
        let mut parameters: Vec<Rc<Expr>> = Vec::new();
        proof {
            lemma_exprs_view(parameters@);
            assert(ast_tokens_list(exprs_view(parameters@), 0) =~= Seq::<(
                TokenTagV,
                Option<Location>,
            )>::empty());
            assert(exprs_view(parameters@) =~= Seq::<ExprV>::empty());
            match spec_parse_params(s, c1, p1) {
                Ok((es, t, p)) => {
                    assert(Seq::<ExprV>::empty() + es =~= es);
                },
                Err(e) => {},
            }
        }
        loop
            invariant
                self.wf(),
                self@.code == s,
                self@.rem() < m0,
                lexes_to(
                    s,
                    c1,
                    p1,
                    ast_tokens_list(exprs_view(parameters@), 0),
                    self@.cur_tok(),
                    self@.pos,
                ),
                spec_parse_params(s, c1, p1) == parsed_prepend(
                    exprs_view(parameters@),
                    spec_parse_params(s, self@.cur_tok(), self@.pos),
                ),
            decreases self@.rem(),
        {
            let token = self.cur_token();
            match &token.tag {
                TokenTag::RParen => {
                    let ghost c2 = self@.cur_tok();
                    let ghost p2 = self@.pos;
                    proof {
                        lemma_spec_advance(s, self@.pos);
                    }
                    match self.next_token() {
                        Ok(t) => {},
                        Err(e) => {
                            return Err(e);
                        },
                    }
                    proof {
                        lemma_lexes_to_one(
                            s,
                            c2,
                            p2,
                            self@.cur_tok(),
                            self@.pos,
                            c2.tag,
                            Option::None,
                        );
                        lemma_lexes_to_concat(
                            s,
                            c1,
                            p1,
                            ast_tokens_list(exprs_view(parameters@), 0),
                            c2,
                            p2,
                            seq![(TokenTagV::RParen, Option::<Location>::None)],
                            self@.cur_tok(),
                            self@.pos,
                        );
                        assert(exprs_view(parameters@) + Seq::<ExprV>::empty() =~= exprs_view(
                            parameters@,
                        ));
                    }
                    let ghost params_snapshot = parameters@;
                    proof {
                        let plist = ast_tokens_list(exprs_view(params_snapshot), 0);
                        let rp = seq![(TokenTagV::RParen, Option::<Location>::None)];
                        lemma_lexes_to_concat(
                            s,
                            c0b,
                            p0b,
                            ast_tokens(fv),
                            c1,
                            p1,
                            plist + rp,
                            self@.cur_tok(),
                            self@.pos,
                        );
                        assert(ast_tokens(fv) + (plist + rp) =~= ast_tokens(fv) + plist + rp);
                    }
                    let call_expr = Rc::new(
                        Expr::Call(
                            CallExpr {
                                location: Location {
                                    col: lparen.col,
                                    row: lparen.row,
                                    offset: lparen.offset,
                                },
                                function,
                                parameters,
                            },
                        ),
                    );
                    return Ok(call_expr);
                },
                _ => {
                    let ghost old_params = parameters@;
                    let ghost cb = self@.cur_tok();
                    let ghost pb = self@.pos;
                    proof {
                        lemma_token_tag_cases(token.tag);
                    }
                    let p = match self.parse_expr() {
                        Ok(p) => p,
                        Err(e) => {
                            return Err(e);
                        },
                    };
                    proof {
                        lemma_exprs_view_push(old_params, p);
                        lemma_ast_tokens_list_push(exprs_view(old_params), p@, 0);
                        lemma_lexes_to_concat(
                            s,
                            c1,
                            p1,
                            ast_tokens_list(exprs_view(old_params), 0),
                            cb,
                            pb,
                            ast_tokens(p@),
                            self@.cur_tok(),
                            self@.pos,
                        );
                        lemma_parsed_prepend_cons(
                            exprs_view(old_params),
                            p@,
                            spec_parse_params(s, self@.cur_tok(), self@.pos),
                        );
                    }
                    parameters.push(p);
                },
            }
        }
    }

    /// Parses one identifier: the lookahead must be an identifier token; the
    /// node takes the token's text and location, and the lookahead moves on.
    pub fn parse_identifier(&mut self) -> (r: Result<Rc<IdentifierExpr>, ParserError>)
        requires
            old(self).wf(),
        ensures
            final(self)@.code == old(self)@.code,
            ({
                let s = old(self)@.code;
                let c = old(self)@.cur_tok();
                match c.tag {
                    TokenTagV::Identifier(name) => match spec_advance(s, old(self)@.pos) {
                        Ok((t, p)) => {
                            &&& r matches Ok(id) && id@ == (IdentifierExprV {
                                location: loc_of_token(c),
                                name,
                            })
                            &&& final(self).wf()
                            &&& final(self)@.cur == Option::Some(t)
                            &&& final(self)@.pos == p
                            &&& final(self)@.rem() < old(self)@.rem()
                        },
                        Err(e) => r matches Err(pe) && pe@ == ParserErrorV::LexicalError(e)
                            && final(self).wf(),
                    },
                    _ => {
                        &&& r matches Err(pe) && pe@ == (ParserErrorV::SyntaticError {
                            location: loc_of_token(c),
                            message: "unexpected token when parsing identifier. "@,
                        })
                        &&& final(self).wf()
                        &&& final(self)@ == old(self)@
                    },
                }
            }),
    {
        let first_token = self.cur_token();
        match first_token.tag {
            TokenTag::Identifier(identifier) => {
                proof {
                    lemma_spec_advance(self@.code, self@.pos);
                }
                match self.next_token() {
                    Ok(t) => Ok(
                        Rc::new(
                            IdentifierExpr {
                                location: Location {
                                    col: first_token.col,
                                    row: first_token.row,
                                    offset: first_token.offset,
                                },
                                name: identifier,
                            },
                        ),
                    ),
                    Err(e) => Err(e),
                }
            },
            _ => Err(
                ParserError::SyntaticError {
                    location: Location {
                        col: first_token.col,
                        row: first_token.row,
                        offset: first_token.offset,
                    },
                    message: String::from_str("unexpected token when parsing identifier. "),
                },
            ),
        }
    }

    /// Parses one integer literal, as `parse_identifier` does for
    /// identifiers.
    pub fn parse_integer(&mut self) -> (r: Result<Rc<IntegerLiteral>, ParserError>)
        requires
            old(self).wf(),
        ensures
            final(self)@.code == old(self)@.code,
            ({
                let s = old(self)@.code;
                let c = old(self)@.cur_tok();
                match c.tag {
                    TokenTagV::IntegerLiteral(value) => match spec_advance(s, old(self)@.pos) {
                        Ok((t, p)) => {
                            &&& r matches Ok(n) && n@ == (IntegerLiteralV {
                                location: loc_of_token(c),
                                value,
                            })
                            &&& final(self).wf()
                            &&& final(self)@.cur == Option::Some(t)
                            &&& final(self)@.pos == p
                            &&& final(self)@.rem() < old(self)@.rem()
                        },
                        Err(e) => r matches Err(pe) && pe@ == ParserErrorV::LexicalError(e)
                            && final(self).wf(),
                    },
                    _ => {
                        &&& r matches Err(pe) && pe@ == (ParserErrorV::SyntaticError {
                            location: loc_of_token(c),
                            message: "unexpected token when parsing integer. "@,
                        })
                        &&& final(self).wf()
                        &&& final(self)@ == old(self)@
                    },
                }
            }),
    {
        let first_token = self.cur_token();
        match first_token.tag {
            TokenTag::IntegerLiteral(value) => {
                proof {
                    lemma_spec_advance(self@.code, self@.pos);
                }
                match self.next_token() {
                    Ok(t) => Ok(
                        Rc::new(
                            IntegerLiteral {
                                location: Location {
                                    col: first_token.col,
                                    row: first_token.row,
                                    offset: first_token.offset,
                                },
                                value,
                            },
                        ),
                    ),
                    Err(e) => Err(e),
                }
            },
            _ => Err(
                ParserError::SyntaticError {
                    location: Location {
                        col: first_token.col,
                        row: first_token.row,
                        offset: first_token.offset,
                    },
                    message: String::from_str("unexpected token when parsing integer. "),
                },
            ),
        }
    }

    /// Parses one string literal, as `parse_identifier` does for
    /// identifiers.
    pub fn parse_string(&mut self) -> (r: Result<Rc<StringLiteral>, ParserError>)
        requires
            old(self).wf(),
        ensures
            final(self)@.code == old(self)@.code,
            ({
                let s = old(self)@.code;
                let c = old(self)@.cur_tok();
                match c.tag {
                    TokenTagV::StringLiteral(value) => match spec_advance(s, old(self)@.pos) {
                        Ok((t, p)) => {
                            &&& r matches Ok(n) && n@ == (StringLiteralV {
                                location: loc_of_token(c),
                                value,
                            })
                            &&& final(self).wf()
                            &&& final(self)@.cur == Option::Some(t)
                            &&& final(self)@.pos == p
                            &&& final(self)@.rem() < old(self)@.rem()
                        },
                        Err(e) => r matches Err(pe) && pe@ == ParserErrorV::LexicalError(e)
                            && final(self).wf(),
                    },
                    _ => {
                        &&& r matches Err(pe) && pe@ == (ParserErrorV::SyntaticError {
                            location: loc_of_token(c),
                            message: "unexpected token when parsing integer. "@,
                        })
                        &&& final(self).wf()
                        &&& final(self)@ == old(self)@
                    },
                }
            }),
    {
        let first_token = self.cur_token();
        match first_token.tag {
            TokenTag::StringLiteral(value) => {
                proof {
                    lemma_spec_advance(self@.code, self@.pos);
                }
                match self.next_token() {
                    Ok(t) => Ok(
                        Rc::new(
                            StringLiteral {
                                location: Location {
                                    col: first_token.col,
                                    row: first_token.row,
                                    offset: first_token.offset,
                                },
                                value,
                            },
                        ),
                    ),
                    Err(e) => Err(e),
                }
            },
            _ => Err(
                ParserError::SyntaticError {
                    location: Location {
                        col: first_token.col,
                        row: first_token.row,
                        offset: first_token.offset,
                    },
                    message: String::from_str("unexpected token when parsing integer. "),
                },
            ),
        }
    }
}

} // verus!
