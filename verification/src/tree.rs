//! The program tree and its mathematical view.
//!
//! Each node type that owns a `Vec` has a view type that holds a `Seq` in its
//! place; the contracts of the pass speak of views. The node types without a
//! `Vec` stand for themselves.
use crate::metadata::clone_type;
use crate::symbol::Symbol;
use leo_ast::{
    Annotation, BinaryOperation, DeclarationType, Literal, Mapping, Mode, Output, ProgramId, Type,
    UnaryOperation, Variant,
};
use leo_span::Span;
use vstd::prelude::*;

verus! {

/// A name at a place in the source.
#[derive(Clone, Copy, PartialEq, Eq, Debug)]
pub struct Identifier {
    pub name: Symbol,
    pub span: Span,
}

/// What a compound expression does with its operands. An identifier held
/// here names a function, a struct or a member, never a variable.
#[derive(PartialEq, Eq, Debug)]
pub enum Operator {
    /// One operand.
    Unary(UnaryOperation),
    /// Two operands.
    Binary(BinaryOperation),
    /// Three operands: a condition and the values for true and for false.
    Ternary,
    /// The operands as a tuple.
    Tuple,
    /// The empty value; no operands.
    Unit,
    /// A call of the named function, of the named program where it is not
    /// of this one, on the operands.
    Call { function: Identifier, external: Option<Identifier> },
    /// A call of the named function of a type on the operands.
    AssociatedFunction { ty: Type, name: Identifier },
    /// The named constant of a type; no operands.
    AssociatedConstant { ty: Type, name: Identifier },
    /// The named member of the one operand.
    Access(Identifier),
    /// The element of the one operand at the index.
    TupleAccess(usize),
    /// A value of the named struct; each operand is a `Field`.
    Init(Identifier),
    /// The named member of a struct value, set to the one operand.
    Field(Identifier),
}

impl Clone for Operator {
    fn clone(&self) -> (copy: Operator)
        ensures
            copy == *self,
    {
        match self {
            Operator::Unary(operation) => Operator::Unary(*operation),
            Operator::Binary(operation) => Operator::Binary(*operation),
            Operator::Ternary => Operator::Ternary,
            Operator::Tuple => Operator::Tuple,
            Operator::Unit => Operator::Unit,
            Operator::Call { function, external } => Operator::Call { function: *function, external: *external },
            Operator::AssociatedFunction { ty, name } => Operator::AssociatedFunction {
                ty: clone_type(ty),
                name: *name,
            },
            Operator::AssociatedConstant { ty, name } => Operator::AssociatedConstant {
                ty: clone_type(ty),
                name: *name,
            },
            Operator::Access(name) => Operator::Access(*name),
            Operator::TupleAccess(index) => Operator::TupleAccess(*index),
            Operator::Init(name) => Operator::Init(*name),
            Operator::Field(name) => Operator::Field(*name),
        }
    }
}

/// An expression.
#[derive(PartialEq, Eq, Debug)]
pub enum Expression {
    /// A variable that is read.
    Identifier(Identifier),
    Literal(Literal),
    Compound { operator: Operator, operands: Vec<Expression>, span: Span },
}

/// An expression, with the operands of a compound as a sequence of views.
pub enum ExpressionView {
    Identifier(Identifier),
    Literal(Literal),
    Compound { operator: Operator, operands: Seq<ExpressionView>, span: Span },
}

/// The views of a sequence of expressions, one for one.
pub open spec fn expression_views(expressions: Seq<Expression>) -> Seq<ExpressionView>
    decreases expressions,
{
    if expressions.len() == 0 {
        Seq::empty()
    } else {
        expression_views(expressions.drop_last()).push(expressions.last()@)
    }
}

impl View for Expression {
    type V = ExpressionView;

    open spec fn view(&self) -> ExpressionView
        decreases self,
    {
        match self {
            Expression::Identifier(identifier) => ExpressionView::Identifier(*identifier),
            Expression::Literal(literal) => ExpressionView::Literal(*literal),
            Expression::Compound { operator, operands, span } => ExpressionView::Compound {
                operator: *operator,
                operands: expression_views(operands@),
                span: *span,
            },
        }
    }
}

/// What a statement that binds no variable does with its operands.
#[derive(Clone, Copy, PartialEq, Eq, Debug)]
pub enum EffectKind {
    /// Returns the one operand.
    Return,
    /// Returns the first operand and hands the others to the finalize block.
    ReturnAndFinalize,
    /// Evaluates the one operand and drops the value.
    Evaluate,
    /// Fails unless the one operand holds.
    Assert,
    /// Fails unless the two operands are equal.
    AssertEq,
    /// Fails unless the two operands differ.
    AssertNeq,
    /// `Assert`, written as a call of the console.
    ConsoleAssert,
    /// `AssertEq`, written as a call of the console.
    ConsoleAssertEq,
    /// `AssertNeq`, written as a call of the console.
    ConsoleAssertNeq,
    /// Adds the second operand to the entry of the named mapping at the first.
    Increment(Identifier),
    /// Subtracts the second operand from the entry of the named mapping at the first.
    Decrement(Identifier),
}

/// A statement.
#[derive(PartialEq, Eq, Debug)]
pub enum Statement {
    /// Declares `place` and binds it to `value`.
    Definition { declaration_type: DeclarationType, place: Identifier, type_: Type, value: Expression, span: Span },
    /// Binds `place` to `value`.
    Assign { place: Identifier, value: Expression, span: Span },
    /// Runs `then` where `condition` holds, else `otherwise`.
    Conditional { condition: Expression, then: Block, otherwise: Option<Block>, span: Span },
    /// A block in the place of a statement.
    Block(Block),
    /// A statement that reads its operands and binds nothing.
    Effect { kind: EffectKind, operands: Vec<Expression>, span: Span },
}

/// Statements in order.
#[derive(PartialEq, Eq, Debug)]
pub struct Block {
    pub statements: Vec<Statement>,
    pub span: Span,
}

/// A statement, with the expressions and blocks it holds as views.
pub enum StatementView {
    Definition {
        declaration_type: DeclarationType,
        place: Identifier,
        type_: Type,
        value: ExpressionView,
        span: Span,
    },
    Assign { place: Identifier, value: ExpressionView, span: Span },
    Conditional { condition: ExpressionView, then: BlockView, otherwise: Option<BlockView>, span: Span },
    Block(BlockView),
    Effect { kind: EffectKind, operands: Seq<ExpressionView>, span: Span },
}

/// A block, with its statements as a sequence of views.
pub struct BlockView {
    pub statements: Seq<StatementView>,
    pub span: Span,
}

/// The views of a sequence of statements, one for one.
pub open spec fn statement_views(statements: Seq<Statement>) -> Seq<StatementView>
    decreases statements,
{
    if statements.len() == 0 {
        Seq::empty()
    } else {
        statement_views(statements.drop_last()).push(statements.last()@)
    }
}

impl View for Statement {
    type V = StatementView;

    open spec fn view(&self) -> StatementView
        decreases self,
    {
        match self {
            Statement::Definition { declaration_type, place, type_, value, span } => StatementView::Definition {
                declaration_type: *declaration_type,
                place: *place,
                type_: *type_,
                value: value@,
                span: *span,
            },
            Statement::Assign { place, value, span } => StatementView::Assign {
                place: *place,
                value: value@,
                span: *span,
            },
            Statement::Conditional { condition, then, otherwise, span } => StatementView::Conditional {
                condition: condition@,
                then: then@,
                otherwise: match otherwise {
                    Some(block) => Some(block@),
                    None => None,
                },
                span: *span,
            },
            Statement::Block(block) => StatementView::Block(block@),
            Statement::Effect { kind, operands, span } => StatementView::Effect {
                kind: *kind,
                operands: expression_views(operands@),
                span: *span,
            },
        }
    }
}

impl View for Block {
    type V = BlockView;

    open spec fn view(&self) -> BlockView
        decreases self,
    {
        BlockView { statements: statement_views(self.statements@), span: self.span }
    }
}

/// A member of a struct or record.
#[derive(PartialEq, Eq, Debug)]
pub struct Member {
    pub mode: Mode,
    pub identifier: Identifier,
    pub type_: Type,
    pub span: Span,
}

/// A struct or record declaration.
#[derive(PartialEq, Eq, Debug)]
pub struct Struct {
    pub identifier: Identifier,
    pub members: Vec<Member>,
    pub is_record: bool,
    pub span: Span,
}

/// A struct or record declaration, with its members as a sequence.
pub struct StructView {
    pub identifier: Identifier,
    pub members: Seq<Member>,
    pub is_record: bool,
    pub span: Span,
}

impl View for Struct {
    type V = StructView;

    open spec fn view(&self) -> StructView {
        StructView {
            identifier: self.identifier,
            members: self.members@,
            is_record: self.is_record,
            span: self.span,
        }
    }
}

/// A declared input of a function or of a finalize block.
#[derive(PartialEq, Eq, Debug)]
pub enum Input {
    /// A value of a type of this program.
    Internal { identifier: Identifier, mode: Mode, type_: Type, span: Span },
    /// A record of another program.
    External { identifier: Identifier, program_name: Identifier, record: Identifier, span: Span },
}

impl Input {
    /// The name that the body reads the input by.
    pub open spec fn name(&self) -> Symbol {
        match self {
            Input::Internal { identifier, .. } => identifier.name,
            Input::External { identifier, .. } => identifier.name,
        }
    }

    /// The identifier that the body reads the input by.
    pub fn identifier(&self) -> (identifier: Identifier)
        ensures
            identifier == match self {
                Input::Internal { identifier, .. } => *identifier,
                Input::External { identifier, .. } => *identifier,
            },
            identifier.name == self.name(),
    {
        match self {
            Input::Internal { identifier, .. } => *identifier,
            Input::External { identifier, .. } => *identifier,
        }
    }
}

/// The second body of a function, run after the first, in a scope of its own.
#[derive(PartialEq, Eq, Debug)]
pub struct Finalize {
    pub identifier: Identifier,
    pub input: Vec<Input>,
    pub output: Vec<Output>,
    pub output_type: Type,
    pub block: Block,
    pub span: Span,
}

/// A finalize block, with its inputs and outputs as sequences and its
/// statements as views.
pub struct FinalizeView {
    pub identifier: Identifier,
    pub input: Seq<Input>,
    pub output: Seq<Output>,
    pub output_type: Type,
    pub block: BlockView,
    pub span: Span,
}

impl View for Finalize {
    type V = FinalizeView;

    open spec fn view(&self) -> FinalizeView {
        FinalizeView {
            identifier: self.identifier,
            input: self.input@,
            output: self.output@,
            output_type: self.output_type,
            block: self.block@,
            span: self.span,
        }
    }
}

/// A function declaration.
#[derive(PartialEq, Eq, Debug)]
pub struct Function {
    pub annotations: Vec<Annotation>,
    pub call_type: Variant,
    pub identifier: Identifier,
    pub input: Vec<Input>,
    pub output: Vec<Output>,
    pub output_type: Type,
    pub block: Block,
    pub finalize: Option<Finalize>,
    pub span: Span,
}

/// A function, with its annotations, inputs and outputs as sequences and
/// its blocks as views.
pub struct FunctionView {
    pub annotations: Seq<Annotation>,
    pub call_type: Variant,
    pub identifier: Identifier,
    pub input: Seq<Input>,
    pub output: Seq<Output>,
    pub output_type: Type,
    pub block: BlockView,
    pub finalize: Option<FinalizeView>,
    pub span: Span,
}

impl View for Function {
    type V = FunctionView;

    open spec fn view(&self) -> FunctionView {
        FunctionView {
            annotations: self.annotations@,
            call_type: self.call_type,
            identifier: self.identifier,
            input: self.input@,
            output: self.output@,
            output_type: self.output_type,
            block: self.block@,
            finalize: match self.finalize {
                Some(finalize) => Some(finalize@),
                None => None,
            },
            span: self.span,
        }
    }
}

/// The structs, mappings and functions of one program, each kind in the
/// order of declaration and under the name it was declared by.
#[derive(PartialEq, Eq, Debug)]
pub struct ProgramScope {
    pub program_id: ProgramId,
    pub structs: Vec<(Symbol, Struct)>,
    pub mappings: Vec<(Symbol, Mapping)>,
    pub functions: Vec<(Symbol, Function)>,
    pub span: Span,
}

/// A scope, with its structs, mappings and functions as sequences of named
/// views.
pub struct ProgramScopeView {
    pub program_id: ProgramId,
    pub structs: Seq<(Symbol, StructView)>,
    pub mappings: Seq<(Symbol, Mapping)>,
    pub functions: Seq<(Symbol, FunctionView)>,
    pub span: Span,
}

impl View for ProgramScope {
    type V = ProgramScopeView;

    open spec fn view(&self) -> ProgramScopeView {
        ProgramScopeView {
            program_id: self.program_id,
            structs: self.structs@.map_values(|entry: (Symbol, Struct)| (entry.0, entry.1@)),
            mappings: self.mappings@,
            functions: self.functions@.map_values(|entry: (Symbol, Function)| (entry.0, entry.1@)),
            span: self.span,
        }
    }
}

/// A program that another one imports, under the name it is imported by.
#[derive(PartialEq, Eq, Debug)]
pub struct Import {
    pub name: Symbol,
    pub program: Program,
    pub span: Span,
}

/// A program: what it imports, then its own scopes, each in order.
#[derive(PartialEq, Eq, Debug)]
pub struct Program {
    pub imports: Vec<Import>,
    pub program_scopes: Vec<(ProgramId, ProgramScope)>,
}

/// An import, with the program it names as a view.
pub struct ImportView {
    pub name: Symbol,
    pub program: ProgramView,
    pub span: Span,
}

/// A program, with its imports and scopes as sequences of views.
pub struct ProgramView {
    pub imports: Seq<ImportView>,
    pub program_scopes: Seq<(ProgramId, ProgramScopeView)>,
}

/// The views of a sequence of imports, one for one.
pub open spec fn import_views(imports: Seq<Import>) -> Seq<ImportView>
    decreases imports,
{
    if imports.len() == 0 {
        Seq::empty()
    } else {
        import_views(imports.drop_last()).push(imports.last()@)
    }
}

impl View for Import {
    type V = ImportView;

    open spec fn view(&self) -> ImportView
        decreases self,
    {
        ImportView { name: self.name, program: self.program@, span: self.span }
    }
}

impl View for Program {
    type V = ProgramView;

    open spec fn view(&self) -> ProgramView
        decreases self,
    {
        ProgramView {
            imports: import_views(self.imports@),
            program_scopes: self.program_scopes@.map_values(
                |entry: (ProgramId, ProgramScope)| (entry.0, entry.1@),
            ),
        }
    }
}

} // verus!
