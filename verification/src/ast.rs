//! The typed syntax tree, and the mathematical view of each of its nodes.
use vstd::prelude::*;
use vstd::std_specs::convert::FromSpecImpl;
use crate::span::SourceSpan;

verus! {

/// A node together with the bounds `(start, end)`, in bytes, of the source
/// text it was read from. Nodes that were not read from any text have no
/// location.
#[derive(Debug, PartialEq, Eq)]
pub struct Located<T> {
    pub value: T,
    pub location: Option<(usize, usize)>,
}

impl<T: View> View for Located<T> {
    type V = Located<T::V>;

    open spec fn view(&self) -> Located<T::V> {
        Located { value: self.value@, location: self.location }
    }
}

impl<T> From<T> for Located<T> {
    fn from(value: T) -> (located: Self) {
        Located { value, location: None }
    }
}

impl<T> FromSpecImpl<T> for Located<T> {
    open spec fn obeys_from_spec() -> bool {
        true
    }

    open spec fn from_spec(value: T) -> Self {
        Located { value, location: None }
    }
}

impl<T> Located<T> {
    /// The node's span as offset and length.
    pub open spec fn span(&self) -> Option<SourceSpan> {
        SourceSpan::of_location(self.location)
    }

    /// The node's span as offset and length; `None` for a node without a
    /// location, or whose bounds are out of order.
    pub fn as_sourcespan(&self) -> (span: Option<SourceSpan>)
        ensures
            span == self.span(),
    {
        match self.location {
            Some((start, end)) => SourceSpan::between(start, end),
            None => None,
        }
    }
}

/// A name, compared by its characters.
#[derive(Debug, PartialEq, Eq, Hash)]
pub struct Identifier(pub String);

impl Clone for Identifier {
    fn clone(&self) -> (copy: Self)
        ensures
            copy == *self,
    {
        Identifier(self.0.clone())
    }
}

impl View for Identifier {
    type V = Seq<char>;

    open spec fn view(&self) -> Seq<char> {
        self.0@
    }
}

impl Identifier {
    /// Whether two names have the same characters.
    pub fn same_as(&self, other: &Identifier) -> (same: bool)
        ensures
            same == (self@ == other@),
    {
        self.0 == other.0
    }
}

/// The three types of values.
#[derive(Debug, Clone, Copy, PartialEq, Eq, Structural)]
pub enum Type {
    Number,
    Qubit,
    Bit,
}

impl View for Type {
    type V = Type;

    open spec fn view(&self) -> Type {
        *self
    }
}

impl Type {
    /// The name of the type, as errors print it.
    pub open spec fn spec_name(self) -> Seq<char> {
        match self {
            Type::Number => "Number"@,
            Type::Qubit => "Qubit"@,
            Type::Bit => "Bit"@,
        }
    }

    /// The name of the type, as errors print it.
    pub fn name(self) -> (name: &'static str)
        ensures
            name@ == self.spec_name(),
    {
        match self {
            Type::Number => "Number",
            Type::Qubit => "Qubit",
            Type::Bit => "Bit",
        }
    }
}

/// A parameter: its name and its declared type.
#[derive(Debug, PartialEq, Eq)]
pub struct ArgumentDeclaration(pub Located<Identifier>, pub Located<Type>);

/// The view of a parameter.
pub struct ArgumentDeclarationView(pub Located<Seq<char>>, pub Located<Type>);

impl View for ArgumentDeclaration {
    type V = ArgumentDeclarationView;

    open spec fn view(&self) -> ArgumentDeclarationView {
        ArgumentDeclarationView(self.0@, self.1@)
    }
}

/// A function's name, parameters and return type. A function without a
/// return type returns nothing.
#[derive(Debug, PartialEq, Eq)]
pub struct Prototype {
    pub name: Located<Identifier>,
    pub arguments: Vec<Located<ArgumentDeclaration>>,
    pub return_type: Option<Located<Type>>,
}

/// The view of a prototype.
pub struct PrototypeView {
    pub name: Located<Seq<char>>,
    pub arguments: Seq<Located<ArgumentDeclarationView>>,
    pub return_type: Option<Located<Type>>,
}

impl View for Prototype {
    type V = PrototypeView;

    open spec fn view(&self) -> PrototypeView {
        PrototypeView {
            name: self.name@,
            arguments: Seq::new(self.arguments.len() as nat, |i: int| self.arguments[i]@),
            return_type: self.return_type,
        }
    }
}

/// An expression: a call, a name or a literal.
#[derive(Debug, PartialEq, Eq)]
pub enum Expression {
    /// A call whose value is used.
    Call(Located<Identifier>, Vec<Located<Expression>>),
    Identifier(Identifier),
    /// A fixed index into the pool of qubits.
    QubitLiteral(usize),
    /// A double-precision number, held as its IEEE 754 bit pattern.
    NumberLiteral(u64),
    BitLiteral(bool),
}

/// The view of an expression.
pub enum ExpressionView {
    Call(Located<Seq<char>>, Seq<Located<ExpressionView>>),
    Identifier(Seq<char>),
    QubitLiteral(usize),
    NumberLiteral(u64),
    BitLiteral(bool),
}

/// The views of a sequence of located expressions.
pub open spec fn expressions_view(expressions: Vec<Located<Expression>>) -> Seq<
    Located<ExpressionView>,
>
    decreases expressions,
{
    Seq::new(
        expressions.len() as nat,
        |i: int|
            if 0 <= i < expressions.len() {
                Located { value: expressions[i].value@, location: expressions[i].location }
            } else {
                arbitrary()
            },
    )
}

impl View for Expression {
    type V = ExpressionView;

    open spec fn view(&self) -> ExpressionView
        decreases self,
    {
        match self {
            Expression::Call(name, arguments) => ExpressionView::Call(
                name@,
                expressions_view(*arguments),
            ),
            Expression::Identifier(name) => ExpressionView::Identifier(name@),
            Expression::QubitLiteral(index) => ExpressionView::QubitLiteral(*index),
            Expression::NumberLiteral(bits) => ExpressionView::NumberLiteral(*bits),
            Expression::BitLiteral(bit) => ExpressionView::BitLiteral(*bit),
        }
    }
}

/// A statement of the body of a function.
#[derive(Debug, PartialEq, Eq)]
pub enum Statement {
    VariableDeclaration(Located<Identifier>, Located<Type>, Located<Expression>),
    Assignment(Located<Identifier>, Located<Expression>),
    /// A call whose value, if it has one, is dropped.
    Call(Located<Identifier>, Vec<Located<Expression>>),
    If {
        condition: Located<Expression>,
        true_body: Vec<Located<Statement>>,
        false_body: Vec<Located<Statement>>,
    },
    While { condition: Located<Expression>, body: Vec<Located<Statement>> },
    Return(Located<Expression>),
}

/// The view of a statement.
pub enum StatementView {
    VariableDeclaration(Located<Seq<char>>, Located<Type>, Located<ExpressionView>),
    Assignment(Located<Seq<char>>, Located<ExpressionView>),
    Call(Located<Seq<char>>, Seq<Located<ExpressionView>>),
    If {
        condition: Located<ExpressionView>,
        true_body: Seq<Located<StatementView>>,
        false_body: Seq<Located<StatementView>>,
    },
    While { condition: Located<ExpressionView>, body: Seq<Located<StatementView>> },
    Return(Located<ExpressionView>),
}

/// The views of a sequence of located statements.
pub open spec fn statements_view(statements: Vec<Located<Statement>>) -> Seq<
    Located<StatementView>,
>
    decreases statements,
{
    Seq::new(
        statements.len() as nat,
        |i: int|
            if 0 <= i < statements.len() {
                Located { value: statements[i].value@, location: statements[i].location }
            } else {
                arbitrary()
            },
    )
}

impl View for Statement {
    type V = StatementView;

    open spec fn view(&self) -> StatementView
        decreases self,
    {
        match self {
            Statement::VariableDeclaration(name, type_sig, value) => {
                StatementView::VariableDeclaration(name@, *type_sig, value@)
            },
            Statement::Assignment(name, value) => StatementView::Assignment(name@, value@),
            Statement::Call(name, arguments) => StatementView::Call(
                name@,
                expressions_view(*arguments),
            ),
            Statement::If { condition, true_body, false_body } => StatementView::If {
                condition: condition@,
                true_body: statements_view(*true_body),
                false_body: statements_view(*false_body),
            },
            Statement::While { condition, body } => StatementView::While {
                condition: condition@,
                body: statements_view(*body),
            },
            Statement::Return(value) => StatementView::Return(value@),
        }
    }
}

/// A top-level element: a function that is only declared, or one that is
/// defined by a body.
#[derive(Debug, PartialEq, Eq)]
pub enum FileElement {
    Declaration(Located<Prototype>),
    Definition { prototype: Located<Prototype>, body: Vec<Located<Statement>> },
}

/// The view of a top-level element.
pub enum FileElementView {
    Declaration(Located<PrototypeView>),
    Definition { prototype: Located<PrototypeView>, body: Seq<Located<StatementView>> },
}

impl View for FileElement {
    type V = FileElementView;

    open spec fn view(&self) -> FileElementView {
        match self {
            FileElement::Declaration(prototype) => FileElementView::Declaration(prototype@),
            FileElement::Definition { prototype, body } => FileElementView::Definition {
                prototype: prototype@,
                body: statements_view(*body),
            },
        }
    }
}

impl FileElement {
    /// The prototype of the element, declared or defined.
    pub open spec fn spec_prototype(&self) -> Located<Prototype> {
        match self {
            FileElement::Declaration(prototype) => *prototype,
            FileElement::Definition { prototype, body } => *prototype,
        }
    }

    /// The name that the element declares or defines.
    pub open spec fn name(&self) -> Seq<char> {
        self.spec_prototype().value.name.value@
    }

    /// The prototype of the element, declared or defined.
    pub fn prototype(&self) -> (prototype: &Located<Prototype>)
        ensures
            *prototype == self.spec_prototype(),
    {
        match self {
            FileElement::Declaration(prototype) => prototype,
            FileElement::Definition { prototype, body: _ } => prototype,
        }
    }
}

/// A program: its top-level elements in source order.
#[derive(Debug, PartialEq, Eq)]
pub struct Program(pub Vec<Located<FileElement>>);

/// The view of a program.
pub struct ProgramView(pub Seq<Located<FileElementView>>);

impl View for Program {
    type V = ProgramView;

    open spec fn view(&self) -> ProgramView {
        ProgramView(Seq::new(self.0.len() as nat, |i: int| self.0[i]@))
    }
}

/// Whether an expression and every node inside it has a location.
pub open spec fn expression_located(expression: Located<ExpressionView>) -> bool
    decreases expression,
{
    &&& expression.location is Some
    &&& match expression.value {
        ExpressionView::Call(name, arguments) => {
            &&& name.location is Some
            &&& forall|i: int|
                0 <= i < arguments.len() ==> expression_located(#[trigger] arguments[i])
        },
        _ => true,
    }
}

/// Whether a statement and every node inside it has a location.
pub open spec fn statement_located(statement: Located<StatementView>) -> bool
    decreases statement,
{
    &&& statement.location is Some
    &&& match statement.value {
        StatementView::VariableDeclaration(name, type_sig, value) => {
            &&& name.location is Some
            &&& type_sig.location is Some
            &&& expression_located(value)
        },
        StatementView::Assignment(name, value) => {
            &&& name.location is Some
            &&& expression_located(value)
        },
        StatementView::Call(name, arguments) => {
            &&& name.location is Some
            &&& forall|i: int|
                0 <= i < arguments.len() ==> expression_located(#[trigger] arguments[i])
        },
        StatementView::If { condition, true_body, false_body } => {
            &&& expression_located(condition)
            &&& forall|i: int|
                0 <= i < true_body.len() ==> statement_located(#[trigger] true_body[i])
            &&& forall|i: int|
                0 <= i < false_body.len() ==> statement_located(#[trigger] false_body[i])
        },
        StatementView::While { condition, body } => {
            &&& expression_located(condition)
            &&& forall|i: int| 0 <= i < body.len() ==> statement_located(#[trigger] body[i])
        },
        StatementView::Return(value) => expression_located(value),
    }
}

/// Whether a prototype and every node inside it has a location.
pub open spec fn prototype_located(prototype: Located<PrototypeView>) -> bool {
    &&& prototype.location is Some
    &&& prototype.value.name.location is Some
    &&& forall|i: int|
        0 <= i < prototype.value.arguments.len() ==> {
            &&& (#[trigger] prototype.value.arguments[i]).location is Some
            &&& prototype.value.arguments[i].value.0.location is Some
            &&& prototype.value.arguments[i].value.1.location is Some
        }
    &&& match prototype.value.return_type {
        Some(type_sig) => type_sig.location is Some,
        None => true,
    }
}

/// Whether a top-level element and every node inside it has a location.
pub open spec fn element_located(element: Located<FileElementView>) -> bool {
    &&& element.location is Some
    &&& match element.value {
        FileElementView::Declaration(prototype) => prototype_located(prototype),
        FileElementView::Definition { prototype, body } => {
            &&& prototype_located(prototype)
            &&& forall|i: int| 0 <= i < body.len() ==> statement_located(#[trigger] body[i])
        },
    }
}

/// Whether every node of a program has a location.
pub open spec fn program_located(program: ProgramView) -> bool {
    forall|i: int| 0 <= i < program.0.len() ==> element_located(#[trigger] program.0[i])
}

} // verus!
