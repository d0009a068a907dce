//! The syntax tree of a CDL document, and its mathematical model.

use vstd::prelude::*;
use crate::text::{all_in_class, is_identifier, is_number, CharClass};

verus! {

/// An expression: the right-hand side of a field.
#[derive(Debug)]
pub enum Expr {
    String(Box<AstStringNode>),
    Identifier(Box<AstIdentifierNode>),
    Number(Box<AstNumberNode>),
    Function(Box<AstFunctionNode>),
    VPath(Box<AstVPathNode>),
    Operator(Box<AstOperatorNode>),
    UnaryOperator(Box<AstUnaryOperatorNode>),
}

/// A quoted string, without its quotes.
#[derive(Debug)]
pub struct AstStringNode {
    pub value: String,
}

/// A bare name.
#[derive(Debug)]
pub struct AstIdentifierNode {
    pub value: String,
}

/// A number, held by its spelling in the source; its numeric value is the decimal reading of
/// that spelling.
#[derive(Debug)]
pub struct AstNumberNode {
    pub text_rep: String,
}

/// A call: the name of a function and its arguments.
#[derive(Debug)]
pub struct AstFunctionNode {
    pub identifier: String,
    pub argument_list: Vec<Expr>,
}

/// A binary operation; the operator is one of `+`, `-`, `*` and `/`.
#[derive(Debug)]
pub struct AstOperatorNode {
    pub operator: char,
    pub left_side: Expr,
    pub right_side: Expr,
}

/// A negation; the operator is `-`.
#[derive(Debug)]
pub struct AstUnaryOperatorNode {
    pub operator: char,
    pub expr: Expr,
}

/// A path to a value: `table:field`. The parser fills the table and the field.
#[derive(Debug)]
pub struct AstVPathNode {
    pub table: Option<String>,
    pub sub_table: Option<String>,
    pub field: Option<String>,
    pub sub_field: Option<String>,
}

/// A document: its top-level entities, in source order.
#[derive(Debug)]
pub struct AstRootNode {
    pub children: Vec<AstEntityNode>,
}

/// An entity: a header and, in braces, a body.
#[derive(Debug)]
pub struct AstEntityNode {
    pub header: AstEntityHeaderNode,
    pub body: AstEntityBodyNode,
}

/// The body of an entity: its fields and its child entities, each in source order.
#[derive(Debug)]
pub struct AstEntityBodyNode {
    pub fields: Vec<AstFieldNode>,
    pub children: Vec<AstEntityNode>,
}

/// The header of an entity: `main_type [sub_type] [#identifier] [@reference]`.
#[derive(Debug)]
pub struct AstEntityHeaderNode {
    pub main_type: String,
    pub sub_type: Option<String>,
    pub reference: Option<String>,
    pub identifier: Option<String>,
}

/// A field: a name and the expression behind its colon.
#[derive(Debug)]
pub struct AstFieldNode {
    pub identifier: String,
    pub value: Expr,
}

/// The model of a [`AstVPathNode`].
pub struct SpecVPath {
    pub table: Option<Seq<char>>,
    pub sub_table: Option<Seq<char>>,
    pub field: Option<Seq<char>>,
    pub sub_field: Option<Seq<char>>,
}

/// The model of an [`Expr`].
pub enum SpecExpr {
    String(Seq<char>),
    Identifier(Seq<char>),
    Number(Seq<char>),
    Function { name: Seq<char>, args: Seq<SpecExpr> },
    VPath(SpecVPath),
    Operator { operator: char, left: Box<SpecExpr>, right: Box<SpecExpr> },
    UnaryOperator { operator: char, operand: Box<SpecExpr> },
}

/// The model of an [`AstEntityHeaderNode`].
pub struct SpecHeader {
    pub main_type: Seq<char>,
    pub sub_type: Option<Seq<char>>,
    pub reference: Option<Seq<char>>,
    pub identifier: Option<Seq<char>>,
}

/// The model of an [`AstFieldNode`].
pub struct SpecField {
    pub identifier: Seq<char>,
    pub value: SpecExpr,
}

/// The model of an [`AstEntityBodyNode`].
pub struct SpecBody {
    pub fields: Seq<SpecField>,
    pub children: Seq<SpecEntity>,
}

/// The model of an [`AstEntityNode`].
pub struct SpecEntity {
    pub header: SpecHeader,
    pub body: SpecBody,
}

/// The model of an [`AstRootNode`].
pub struct SpecRoot {
    pub children: Seq<SpecEntity>,
}

/// The model of an optional text.
pub open spec fn text_of(o: Option<String>) -> Option<Seq<char>> {
    match o {
        Some(s) => Some(s@),
        None => None,
    }
}

/// The model of the expression `e`.
pub open spec fn expr_view(e: Expr) -> SpecExpr
    decreases e,
{
    match e {
        Expr::String(node) => SpecExpr::String(node.value@),
        Expr::Identifier(node) => SpecExpr::Identifier(node.value@),
        Expr::Number(node) => SpecExpr::Number(node.text_rep@),
        Expr::Function(node) => SpecExpr::Function {
            name: node.identifier@,
            args: exprs_view(node.argument_list@),
        },
        Expr::VPath(node) => SpecExpr::VPath(node@),
        Expr::Operator(node) => SpecExpr::Operator {
            operator: node.operator,
            left: Box::new(expr_view(node.left_side)),
            right: Box::new(expr_view(node.right_side)),
        },
        Expr::UnaryOperator(node) => SpecExpr::UnaryOperator {
            operator: node.operator,
            operand: Box::new(expr_view(node.expr)),
        },
    }
}

/// The models of the expressions `exprs`, in order.
pub open spec fn exprs_view(exprs: Seq<Expr>) -> Seq<SpecExpr>
    decreases exprs,
{
    Seq::new(
        exprs.len(),
        |i: int|
            if 0 <= i < exprs.len() {
                expr_view(exprs[i])
            } else {
                SpecExpr::String(Seq::empty())
            },
    )
}

/// The models of the fields `fields`, in order.
pub open spec fn fields_view(fields: Seq<AstFieldNode>) -> Seq<SpecField> {
    Seq::new(fields.len(), |i: int| fields[i]@)
}

/// The model of the entity `e`.
pub open spec fn entity_view(e: AstEntityNode) -> SpecEntity
    decreases e,
{
    SpecEntity {
        header: e.header@,
        body: SpecBody {
            fields: fields_view(e.body.fields@),
            children: entities_view(e.body.children@),
        },
    }
}

/// The models of the entities `entities`, in order.
pub open spec fn entities_view(entities: Seq<AstEntityNode>) -> Seq<SpecEntity>
    decreases entities,
{
    Seq::new(
        entities.len(),
        |i: int|
            if 0 <= i < entities.len() {
                entity_view(entities[i])
            } else {
                arbitrary()
            },
    )
}

impl View for AstVPathNode {
    type V = SpecVPath;

    open spec fn view(&self) -> SpecVPath {
        SpecVPath {
            table: text_of(self.table),
            sub_table: text_of(self.sub_table),
            field: text_of(self.field),
            sub_field: text_of(self.sub_field),
        }
    }
}

impl View for Expr {
    type V = SpecExpr;

    open spec fn view(&self) -> SpecExpr {
        expr_view(*self)
    }
}

impl View for AstEntityHeaderNode {
    type V = SpecHeader;

    open spec fn view(&self) -> SpecHeader {
        SpecHeader {
            main_type: self.main_type@,
            sub_type: text_of(self.sub_type),
            reference: text_of(self.reference),
            identifier: text_of(self.identifier),
        }
    }
}

impl View for AstFieldNode {
    type V = SpecField;

    open spec fn view(&self) -> SpecField {
        SpecField { identifier: self.identifier@, value: self.value@ }
    }
}

impl View for AstEntityBodyNode {
    type V = SpecBody;

    open spec fn view(&self) -> SpecBody {
        SpecBody { fields: fields_view(self.fields@), children: entities_view(self.children@) }
    }
}

impl View for AstEntityNode {
    type V = SpecEntity;

    open spec fn view(&self) -> SpecEntity {
        entity_view(*self)
    }
}

impl View for AstRootNode {
    type V = SpecRoot;

    open spec fn view(&self) -> SpecRoot {
        SpecRoot { children: entities_view(self.children@) }
    }
}

impl AstNumberNode {
    /// The number that is spelled `text_rep`.
    pub fn new(text_rep: String) -> (node: AstNumberNode)
        ensures
            node.text_rep@ == text_rep@,
    {
        AstNumberNode { text_rep }
    }
}

impl AstEntityBodyNode {
    /// A body with no fields and no children.
    pub fn new() -> (body: AstEntityBodyNode)
        ensures
            body@ == (SpecBody { fields: Seq::empty(), children: Seq::empty() }),
    {
        let body = AstEntityBodyNode { fields: Vec::new(), children: Vec::new() };
        assert(body@.fields =~= Seq::empty());
        assert(body@.children =~= Seq::empty());
        body
    }
}

impl AstEntityHeaderNode {
    /// A header with an empty main type and nothing else.
    pub fn new() -> (header: AstEntityHeaderNode)
        ensures
            header@ == (SpecHeader {
                main_type: Seq::empty(),
                sub_type: None,
                reference: None,
                identifier: None,
            }),
    {
        AstEntityHeaderNode {
            main_type: String::new(),
            sub_type: None,
            reference: None,
            identifier: None,
        }
    }
}

impl AstEntityNode {
    /// An entity with an empty header and an empty body.
    pub fn new() -> (entity: AstEntityNode)
        ensures
            entity@ == (SpecEntity {
                header: SpecHeader {
                    main_type: Seq::empty(),
                    sub_type: None,
                    reference: None,
                    identifier: None,
                },
                body: SpecBody { fields: Seq::empty(), children: Seq::empty() },
            }),
    {
        let entity = AstEntityNode {
            body: AstEntityBodyNode::new(),
            header: AstEntityHeaderNode::new(),
        };
        entity
    }
}

impl SpecExpr {
    /// Whether the expression is one that the grammar can spell: its names are identifiers,
    /// its numbers decimal literals, its strings free of `"`, its operators those of the
    /// grammar, and every path has a table and a field and nothing else.
    pub open spec fn well_formed(self) -> bool
        decreases self,
    {
        match self {
            SpecExpr::String(value) => all_in_class(value, CharClass::Quoted),
            SpecExpr::Identifier(value) => is_identifier(value),
            SpecExpr::Number(text) => is_number(text),
            SpecExpr::Function { name, args } => is_identifier(name) && forall|i: int|
                0 <= i < args.len() ==> (#[trigger] args[i]).well_formed(),
            SpecExpr::VPath(path) => path.well_formed(),
            SpecExpr::Operator { operator, left, right } => (operator == '+' || operator == '-'
                || operator == '*' || operator == '/') && left.well_formed()
                && right.well_formed(),
            SpecExpr::UnaryOperator { operator, operand } => operator == '-'
                && operand.well_formed(),
        }
    }
}

impl SpecVPath {
    /// The path has a table and a field, each an identifier, and nothing else: the one form
    /// that the grammar can spell.
    pub open spec fn well_formed(self) -> bool {
        &&& self.table matches Some(table) && is_identifier(table)
        &&& self.field matches Some(field) && is_identifier(field)
        &&& self.sub_table is None
        &&& self.sub_field is None
    }
}

impl SpecHeader {
    /// The main type is an identifier (so it is not empty); the parts that are there are an
    /// identifier each, the reference a run of reference characters.
    pub open spec fn well_formed(self) -> bool {
        &&& is_identifier(self.main_type)
        &&& self.sub_type matches Some(sub_type) ==> is_identifier(sub_type)
        &&& self.identifier matches Some(identifier) ==> is_identifier(identifier)
        &&& self.reference matches Some(reference) ==> all_in_class(
            reference,
            CharClass::Reference,
        )
    }
}

impl SpecField {
    /// The name is an identifier (so it is not empty) and the value is well formed.
    pub open spec fn well_formed(self) -> bool {
        is_identifier(self.identifier) && self.value.well_formed()
    }
}

impl SpecEntity {
    /// The header, every field and every child are well formed.
    pub open spec fn well_formed(self) -> bool
        decreases self,
    {
        &&& self.header.well_formed()
        &&& forall|i: int|
            0 <= i < self.body.fields.len() ==> (#[trigger] self.body.fields[i]).well_formed()
        &&& forall|i: int|
            0 <= i < self.body.children.len() ==> (
            #[trigger] self.body.children[i]).well_formed()
    }
}

impl SpecRoot {
    /// Every entity of the document is well formed.
    pub open spec fn well_formed(self) -> bool {
        forall|i: int| 0 <= i < self.children.len() ==> (#[trigger] self.children[i]).well_formed()
    }
}

} // verus!
