use std::rc::Rc;
use vstd::prelude::*;

verus! {

broadcast use vstd::seq::axiom_seq_index_decreases, vstd::std_specs::vec::axiom_vec_decreases_to_view;

/// A position in the source text: `offset` is a 0-based index of the
/// character, `row` is 1-based, and `col` counts characters since the last
/// line break, as tracked by the lexer.
#[derive(Debug, Clone, Copy, PartialEq, Eq, Structural)]
pub struct Location {
    pub offset: i32,
    pub col: i32,
    pub row: i32,
}

// ---------------------------------------------------------------------------
// Mathematical model of the syntax tree.
//
// Every node type views to one of these spec datatypes; contracts of the
// parser and the evaluator are stated over them.
// ---------------------------------------------------------------------------

pub struct IdentifierExprV {
    pub location: Location,
    pub name: Seq<char>,
}

pub struct IntegerLiteralV {
    pub location: Location,
    pub value: i32,
}

pub struct StringLiteralV {
    pub location: Location,
    pub value: Seq<char>,
}

pub struct DefineExprV {
    pub location: Location,
    pub identifier: IdentifierExprV,
    pub value: Box<ExprV>,
}

pub struct CallExprV {
    pub location: Location,
    pub function: Box<ExprV>,
    pub parameters: Seq<ExprV>,
}

pub enum ExprV {
    Define(DefineExprV),
    Call(CallExprV),
    Identifier(IdentifierExprV),
    Integer(IntegerLiteralV),
    String(StringLiteralV),
}

pub struct ProgramV {
    pub location: Location,
    pub exprs: Seq<ExprV>,
}

impl ExprV {
    /// The location attached to a node of the model.
    pub open spec fn loc(self) -> Location {
        match self {
            ExprV::Define(d) => d.location,
            ExprV::Call(c) => c.location,
            ExprV::Identifier(i) => i.location,
            ExprV::Integer(i) => i.location,
            ExprV::String(s) => s.location,
        }
    }
}

/// The models of the expressions `ps[i..]`, in order.
pub open spec fn exprs_view_from(ps: Seq<Rc<Expr>>, i: int) -> Seq<ExprV>
    decreases ps, ps.len() - i,
    via exprs_view_from_decreases
{
    if i < 0 || i >= ps.len() {
        Seq::empty()
    } else {
        seq![(*ps[i]).view()] + exprs_view_from(ps, i + 1)
    }
}

#[via_fn]
proof fn exprs_view_from_decreases(ps: Seq<Rc<Expr>>, i: int) {
    broadcast use vstd::seq::axiom_seq_index_decreases;

    if 0 <= i < ps.len() {
        assert(decreases_to!(ps => ps[i]));
    }
}

/// The models of all expressions of `ps`, in order.
pub open spec fn exprs_view(ps: Seq<Rc<Expr>>) -> Seq<ExprV>
    decreases ps, ps.len() + 1int,
{
    exprs_view_from(ps, 0)
}

pub proof fn lemma_exprs_view_from(ps: Seq<Rc<Expr>>, i: int)
    requires
        0 <= i <= ps.len(),
    ensures
        exprs_view_from(ps, i).len() == ps.len() - i,
        forall|j: int|
            i <= j < ps.len() ==> exprs_view_from(ps, i)[j - i] == (#[trigger] ps[j])@,
    decreases ps.len() - i,
{
    if i < ps.len() {
        lemma_exprs_view_from(ps, i + 1);
        let head = seq![(*ps[i]).view()];
        let tail = exprs_view_from(ps, i + 1);
        assert(head.len() == 1);
        assert(exprs_view_from(ps, i) == head + tail);
        assert forall|j: int| i <= j < ps.len() implies exprs_view_from(ps, i)[j - i] == (
        #[trigger] ps[j])@ by {
            if i < j {
                assert((head + tail)[j - i] == tail[j - i - 1]);
            } else {
                assert((head + tail)[0] == head[0]);
            }
        }
    }
}

/// What `exprs_view` says of each element, in a directly usable shape.
pub proof fn lemma_exprs_view(ps: Seq<Rc<Expr>>)
    ensures
        exprs_view(ps).len() == ps.len(),
        forall|j: int| 0 <= j < ps.len() ==> exprs_view(ps)[j] == (#[trigger] ps[j])@,
{
    lemma_exprs_view_from(ps, 0);
}

/// Appending an expression appends its model.
pub proof fn lemma_exprs_view_push(ps: Seq<Rc<Expr>>, p: Rc<Expr>)
    ensures
        exprs_view(ps.push(p)) == exprs_view(ps).push(p@),
{
    lemma_exprs_view(ps);
    lemma_exprs_view(ps.push(p));
    assert forall|j: int| 0 <= j < ps.len() + 1 implies exprs_view(ps.push(p))[j] == exprs_view(
        ps,
    ).push(p@)[j] by {
        if j < ps.len() {
            assert(ps.push(p)[j] == ps[j]);
        } else {
            assert(ps.push(p)[j] == p);
        }
    }
    assert(exprs_view(ps.push(p)) =~= exprs_view(ps).push(p@));
}

// ---------------------------------------------------------------------------
// The syntax tree itself.
//
// The node set is closed, so the polymorphism of the tree is expressed as an
// enum over the node structs; sub-expressions are shared through `Rc` and are
// immutable once the parser has built them.
// ---------------------------------------------------------------------------

#[derive(Debug, PartialEq)]
pub struct IdentifierExpr {
    pub location: Location,
    pub name: String,
}

#[derive(Debug, Clone, Copy, PartialEq)]
pub struct IntegerLiteral {
    pub location: Location,
    pub value: i32,
}

#[derive(Debug, PartialEq)]
pub struct StringLiteral {
    pub location: Location,
    pub value: String,
}

#[derive(Debug, PartialEq)]
pub struct DefineExpr {
    pub location: Location,
    pub identifier: Rc<IdentifierExpr>,
    pub value: Rc<Expr>,
}

#[derive(Debug, PartialEq)]
pub struct CallExpr {
    pub location: Location,
    pub function: Rc<Expr>,
    pub parameters: Vec<Rc<Expr>>,
}

#[derive(Debug, PartialEq)]
pub enum Expr {
    Define(DefineExpr),
    Call(CallExpr),
    Identifier(IdentifierExpr),
    Integer(IntegerLiteral),
    String(StringLiteral),
}

#[derive(Debug, PartialEq)]
pub struct Program {
    pub location: Location,
    pub exprs: Vec<Rc<Expr>>,
}

impl Clone for IdentifierExpr {
    fn clone(&self) -> (r: IdentifierExpr)
        ensures
            r@ == self@,
    {
        IdentifierExpr { location: self.location, name: self.name.clone() }
    }
}

impl Clone for StringLiteral {
    fn clone(&self) -> (r: StringLiteral)
        ensures
            r@ == self@,
    {
        StringLiteral { location: self.location, value: self.value.clone() }
    }
}

// ---------------------------------------------------------------------------
// Views: each node abstracts to its model datatype.
// ---------------------------------------------------------------------------

impl View for IdentifierExpr {
    type V = IdentifierExprV;

    open spec fn view(&self) -> IdentifierExprV {
        IdentifierExprV { location: self.location, name: self.name@ }
    }
}

impl View for IntegerLiteral {
    type V = IntegerLiteralV;

    open spec fn view(&self) -> IntegerLiteralV {
        IntegerLiteralV { location: self.location, value: self.value }
    }
}

impl View for StringLiteral {
    type V = StringLiteralV;

    open spec fn view(&self) -> StringLiteralV {
        StringLiteralV { location: self.location, value: self.value@ }
    }
}

impl Expr {
    /// The model of this expression.
    pub open spec fn to_v(&self) -> ExprV
        decreases self, 0int,
        via Self::to_v_decreases
    {
        match self {
            Expr::Define(d) => ExprV::Define(
                DefineExprV {
                    location: d.location,
                    identifier: d.identifier@,
                    value: Box::new((*d.value).to_v()),
                },
            ),
            Expr::Call(c) => ExprV::Call(
                CallExprV {
                    location: c.location,
                    function: Box::new((*c.function).to_v()),
                    parameters: exprs_view(c.parameters@),
                },
            ),
            Expr::Identifier(i) => ExprV::Identifier(i@),
            Expr::Integer(i) => ExprV::Integer(i@),
            Expr::String(s) => ExprV::String(s@),
        }
    }

    #[via_fn]
    proof fn to_v_decreases(&self) {
        broadcast use vstd::std_specs::vec::axiom_vec_decreases_to_view;

        match self {
            Expr::Call(c) => {
                assert(decreases_to!(c.parameters => c.parameters@));
            },
            _ => {},
        }
    }
}

impl View for Expr {
    type V = ExprV;

    open spec fn view(&self) -> ExprV
        decreases self, 1int,
    {
        self.to_v()
    }
}

impl View for DefineExpr {
    type V = DefineExprV;

    open spec fn view(&self) -> DefineExprV {
        DefineExprV {
            location: self.location,
            identifier: self.identifier@,
            value: Box::new(self.value@),
        }
    }
}

impl View for CallExpr {
    type V = CallExprV;

    open spec fn view(&self) -> CallExprV {
        CallExprV {
            location: self.location,
            function: Box::new(self.function@),
            parameters: exprs_view(self.parameters@),
        }
    }
}

impl View for Program {
    type V = ProgramV;

    open spec fn view(&self) -> ProgramV {
        ProgramV { location: self.location, exprs: exprs_view(self.exprs@) }
    }
}

// ---------------------------------------------------------------------------
// Every node carries its location.
// ---------------------------------------------------------------------------

pub trait Node {
    /// The location this node was given at construction.
    spec fn spec_location(&self) -> Location;

    fn location(&self) -> (l: &Location)
        ensures
            *l == self.spec_location(),
    ;
}

impl Node for IdentifierExpr {
    open spec fn spec_location(&self) -> Location {
        self.location
    }

    fn location(&self) -> (l: &Location) {
        &self.location
    }
}

impl Node for IntegerLiteral {
    open spec fn spec_location(&self) -> Location {
        self.location
    }

    fn location(&self) -> (l: &Location) {
        &self.location
    }
}

impl Node for StringLiteral {
    open spec fn spec_location(&self) -> Location {
        self.location
    }

    fn location(&self) -> (l: &Location) {
        &self.location
    }
}

impl Node for DefineExpr {
    open spec fn spec_location(&self) -> Location {
        self.location
    }

    fn location(&self) -> (l: &Location) {
        &self.location
    }
}

impl Node for CallExpr {
    open spec fn spec_location(&self) -> Location {
        self.location
    }

    fn location(&self) -> (l: &Location) {
        &self.location
    }
}

impl Node for Expr {
    open spec fn spec_location(&self) -> Location {
        self@.loc()
    }

    fn location(&self) -> (l: &Location) {
        match self {
            Expr::Define(d) => &d.location,
            Expr::Call(c) => &c.location,
            Expr::Identifier(i) => &i.location,
            Expr::Integer(i) => &i.location,
            Expr::String(s) => &s.location,
        }
    }
}

impl Node for Program {
    open spec fn spec_location(&self) -> Location {
        self.location
    }

    fn location(&self) -> (l: &Location) {
        &self.location
    }
}

} // verus!
