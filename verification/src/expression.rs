//! Renaming of expressions: every variable that is read gets the name that
//! the open scopes give it.
use crate::assigner::StaticSingleAssigner;
use crate::error::RenameError;
use crate::metadata::clone_literal;
use crate::rename_table::resolve;
use crate::symbol::Symbol;
use crate::tree::{expression_views, Expression, ExpressionView, Identifier};
use vstd::prelude::*;

verus! {

/// The expressions renamed one by one under `frames`; the failure of the
/// first that fails.
pub open spec fn renamed_expressions(
    frames: Seq<Seq<(Symbol, Symbol)>>,
    expressions: Seq<ExpressionView>,
) -> Result<Seq<ExpressionView>, RenameError>
    decreases expressions,
{
    if expressions.len() == 0 {
        Ok(Seq::empty())
    } else {
        match renamed_expressions(frames, expressions.drop_last()) {
            Err(error) => Err(error),
            Ok(front) => match renamed_expression(frames, expressions.last()) {
                Err(error) => Err(error),
                Ok(last) => Ok(front.push(last)),
            },
        }
    }
}

/// The expression with each variable replaced by what `frames` resolves it
/// to. Fails at the first variable, left to right, that no frame binds.
pub open spec fn renamed_expression(frames: Seq<Seq<(Symbol, Symbol)>>, expression: ExpressionView) -> Result<
    ExpressionView,
    RenameError,
>
    decreases expression,
{
    match expression {
        ExpressionView::Identifier(identifier) => match resolve(frames, identifier.name) {
            Some(name) => Ok(ExpressionView::Identifier(Identifier { name, span: identifier.span })),
            None => Err(RenameError::Unresolved(identifier.name)),
        },
        ExpressionView::Literal(_) => Ok(expression),
        ExpressionView::Compound { operator, operands, span } => match renamed_expressions(frames, operands) {
            Err(error) => Err(error),
            Ok(renamed) => Ok(ExpressionView::Compound { operator, operands: renamed, span }),
        },
    }
}

/// Where a front part of the expressions fails, the whole fails alike.
pub(crate) proof fn lemma_renamed_expressions_fail_early(
    frames: Seq<Seq<(Symbol, Symbol)>>,
    expressions: Seq<ExpressionView>,
    n: int,
)
    requires
        0 <= n <= expressions.len(),
        renamed_expressions(frames, expressions.take(n)) is Err,
    ensures
        renamed_expressions(frames, expressions) == renamed_expressions(frames, expressions.take(n)),
    decreases expressions.len() - n,
{
    if n < expressions.len() {
        assert(expressions.take(n + 1).drop_last() =~= expressions.take(n));
        lemma_renamed_expressions_fail_early(frames, expressions, n + 1);
    } else {
        assert(expressions.take(n) =~= expressions);
    }
}

impl Clone for Expression {
    fn clone(&self) -> (copy: Expression)
        ensures
            copy@ == self@,
        decreases self,
    {
        match self {
            Expression::Identifier(identifier) => Expression::Identifier(*identifier),
            Expression::Literal(literal) => Expression::Literal(clone_literal(literal)),
            Expression::Compound { operator, operands, span } => {
                let mut copies: Vec<Expression> = Vec::new();
                let mut i: usize = 0;
                while i < operands.len()
                    invariant
                        i <= operands.len(),
                        decreases_to!(self => operands@),
                        expression_views(copies@) == expression_views(operands@.take(i as int)),
                    decreases operands.len() - i,
                {
                    assert(decreases_to!(operands@ => operands@[i as int]));
                    let copy = operands[i].clone();
                    proof {
                        assert(operands@.take(i + 1).drop_last() =~= operands@.take(i as int));
                        assert(copies@.push(copy).drop_last() =~= copies@);
                    }
                    copies.push(copy);
                    i = i + 1;
                }
                assert(operands@.take(operands.len() as int) =~= operands@);
                Expression::Compound { operator: operator.clone(), operands: copies, span: *span }
            },
        }
    }
}

impl StaticSingleAssigner {
    /// Rebuilds an expression with every variable it reads replaced by the
    /// name that the open scopes resolve it to.
    pub fn consume_expression(&self, expression: Expression) -> (renamed: Result<Expression, RenameError>)
        ensures
            match renamed {
                Ok(out) => renamed_expression(self@.frames, expression@) == Ok::<ExpressionView, RenameError>(out@),
                Err(error) => renamed_expression(self@.frames, expression@) == Err::<ExpressionView, RenameError>(
                    error,
                ),
            },
        decreases expression,
    {
        match expression {
            Expression::Identifier(identifier) => match self.rename_table.lookup(identifier.name) {
                Some(name) => Ok(Expression::Identifier(Identifier { name, span: identifier.span })),
                None => Err(RenameError::Unresolved(identifier.name)),
            },
            Expression::Literal(literal) => Ok(Expression::Literal(literal)),
            Expression::Compound { operator, operands, span } => match self.consume_expressions(operands) {
                Err(error) => Err(error),
                Ok(renamed) => Ok(Expression::Compound { operator, operands: renamed, span }),
            },
        }
    }

    /// Rebuilds each expression in turn, as `consume_expression` does, and
    /// stops at the first that fails.
    pub fn consume_expressions(&self, expressions: Vec<Expression>) -> (renamed: Result<Vec<Expression>, RenameError>)
        ensures
            match renamed {
                Ok(out) => renamed_expressions(self@.frames, expression_views(expressions@)) == Ok::<
                    Seq<ExpressionView>,
                    RenameError,
                >(expression_views(out@)),
                Err(error) => renamed_expressions(self@.frames, expression_views(expressions@)) == Err::<
                    Seq<ExpressionView>,
                    RenameError,
                >(error),
            },
        decreases expressions,
    {
        let ghost before = expressions@;
        let ghost views = expression_views(before);
        let mut out: Vec<Expression> = Vec::new();
        for expression in it: expressions
            invariant
                it.seq() == before,
                views == expression_views(before),
                decreases_to!(expressions => before),
                out@.len() == it.index(),
                renamed_expressions(self@.frames, expression_views(before.take(it.index() as int))) == Ok::<
                    Seq<ExpressionView>,
                    RenameError,
                >(expression_views(out@)),
        {
            let ghost k = it.index() as int;
            proof {
                assert(decreases_to!(before => before[k]));
                assert(before.take(k + 1).drop_last() =~= before.take(k));
                lemma_expression_views(before);
                lemma_views_take(before, k + 1);
                lemma_views_take(before, k);
            }
            match self.consume_expression(expression) {
                Err(error) => {
                    proof {
                        assert(views.take(k + 1).drop_last() =~= views.take(k));
                        lemma_renamed_expressions_fail_early(self@.frames, views, k + 1);
                    }
                    return Err(error);
                },
                Ok(renamed) => {
                    proof {
                        assert(out@.push(renamed).drop_last() =~= out@);
                        assert(views.take(k + 1).drop_last() =~= views.take(k));
                    }
                    out.push(renamed);
                },
            }
        }
        proof {
            assert(before.take(before.len() as int) =~= before);
        }
        Ok(out)
    }
}

/// The views of expressions are as many, and each is the view of its own.
pub(crate) proof fn lemma_expression_views(expressions: Seq<Expression>)
    ensures
        expression_views(expressions).len() == expressions.len(),
        forall|i: int| 0 <= i < expressions.len() ==> (#[trigger] expression_views(expressions)[i])
            == expressions[i]@,
    decreases expressions.len(),
{
    if expressions.len() > 0 {
        let front = expressions.drop_last();
        lemma_expression_views(front);
        assert(expression_views(expressions) == expression_views(front).push(expressions.last()@));
        assert(expression_views(front).len() == front.len());
        assert forall|i: int| 0 <= i < expressions.len() implies (#[trigger] expression_views(expressions)[i])
            == expressions[i]@ by {
            if i < front.len() {
                assert(expression_views(front)[i] == front[i]@);
            }
        }
    }
}

/// The views of a front part are the front part of the views.
pub(crate) proof fn lemma_views_take(expressions: Seq<Expression>, n: int)
    requires
        0 <= n <= expressions.len(),
    ensures
        expression_views(expressions.take(n)) == expression_views(expressions).take(n),
{
    lemma_expression_views(expressions);
    lemma_expression_views(expressions.take(n));
    assert(expression_views(expressions.take(n)) =~= expression_views(expressions).take(n));
}

} // verus!
