//! Renaming of statements.
//!
//! A statement that binds a variable gets a new name for it, which the
//! statements after it read. The two branches of a conditional are renamed in
//! scopes of their own; for each variable of the enclosing scopes that a
//! branch has bound anew, a definition after the conditional picks, by the
//! condition, the name that the branch taken has left.
use crate::assigner::{fresh, RenameState, StaticSingleAssigner};
use crate::error::RenameError;
use crate::expression::renamed_expression;
use crate::expression::renamed_expressions;
use crate::ordered_map::{lemma_find_key, lemma_find_key_is, value_at};
use crate::rename_table::{bound, resolve};
use crate::symbol::Symbol;
use crate::tree::{
    statement_views, Block, BlockView, Expression, ExpressionView, Identifier, Operator, Statement, StatementView,
};
use leo_span::Span;
use vstd::prelude::*;

verus! {

/// What renaming statements comes to: the state after them and the
/// statements they have become, or the state at the failure and the failure.
pub type Renaming = Result<(RenameState, Seq<StatementView>), (RenameState, RenameError)>;

/// The state inside a scope that was just entered from `state`.
pub open spec fn entered(state: RenameState) -> RenameState {
    RenameState { frames: state.frames.push(Seq::empty()), ..state }
}

/// The state after the innermost scope of `state` was left.
pub open spec fn left(state: RenameState) -> RenameState {
    RenameState { frames: state.frames.drop_last(), ..state }
}

/// A definition of `place` in `state`: the state in which `place` stands for
/// a new name, and the identifier that the definition binds.
pub open spec fn defined(state: RenameState, place: Identifier) -> Result<(RenameState, Identifier), RenameError> {
    if state.counter == u64::MAX {
        Err(RenameError::Exhausted)
    } else {
        let name = fresh(state.counter, place.name);
        Ok(
            (
                RenameState {
                    frames: bound(state.frames, place.name, name),
                    counter: (state.counter + 1) as u64,
                },
                Identifier { name, span: place.span },
            ),
        )
    }
}

/// The keys of a frame, oldest first.
pub open spec fn keys(frame: Seq<(Symbol, Symbol)>) -> Seq<Symbol> {
    frame.map_values(|entry: (Symbol, Symbol)| entry.0)
}

/// The keys of `frame` that `other` does not hold, oldest first.
pub open spec fn keys_missing_from(frame: Seq<(Symbol, Symbol)>, other: Seq<(Symbol, Symbol)>) -> Seq<Symbol>
    decreases frame.len(),
{
    if frame.len() == 0 {
        Seq::empty()
    } else if value_at(other, frame.last().0) is None {
        keys_missing_from(frame.drop_last(), other).push(frame.last().0)
    } else {
        keys_missing_from(frame.drop_last(), other)
    }
}

/// The variables that the branches of a conditional have bound: those of the
/// first branch, then those that only the second has bound.
pub open spec fn written(then_frame: Seq<(Symbol, Symbol)>, else_frame: Seq<(Symbol, Symbol)>) -> Seq<Symbol> {
    keys(then_frame) + keys_missing_from(else_frame, then_frame)
}

/// The name that a branch has left for `name`: its own binding, or `outer`,
/// the binding of the enclosing scopes, where it has none.
pub open spec fn branch_value(frame: Seq<(Symbol, Symbol)>, name: Symbol, outer: Symbol, span: Span)
    -> ExpressionView {
    ExpressionView::Identifier(
        Identifier {
            name: match value_at(frame, name) {
                Some(value) => value,
                None => outer,
            },
            span,
        },
    )
}

/// The definitions that follow a conditional, one for each of `names` that
/// the enclosing scopes bind, in order, and the state after them.
pub open spec fn merged(
    state: RenameState,
    condition: ExpressionView,
    then_frame: Seq<(Symbol, Symbol)>,
    else_frame: Seq<(Symbol, Symbol)>,
    names: Seq<Symbol>,
    span: Span,
) -> Renaming
    decreases names.len(),
{
    if names.len() == 0 {
        Ok((state, Seq::empty()))
    } else {
        match merged(state, condition, then_frame, else_frame, names.drop_last(), span) {
            Err(error) => Err(error),
            Ok((state, front)) => match resolve(state.frames, names.last()) {
                None => Ok((state, front)),
                Some(outer) => match defined(state, Identifier { name: names.last(), span }) {
                    Err(error) => Err((state, error)),
                    Ok((state, place)) => Ok(
                        (
                            state,
                            front.push(
                                StatementView::Assign {
                                    place,
                                    value: ExpressionView::Compound {
                                        operator: Operator::Ternary,
                                        operands: seq![
                                            condition,
                                            branch_value(then_frame, names.last(), outer, span),
                                            branch_value(else_frame, names.last(), outer, span),
                                        ],
                                        span,
                                    },
                                    span,
                                },
                            ),
                        ),
                    ),
                },
            },
        }
    }
}

/// The statements renamed in order, each in the state that the one before it
/// has left; the statements that they become, and the state after the last.
pub open spec fn renamed_statements(state: RenameState, statements: Seq<StatementView>) -> Renaming
    decreases statements,
{
    if statements.len() == 0 {
        Ok((state, Seq::empty()))
    } else {
        match renamed_statements(state, statements.drop_last()) {
            Err(error) => Err(error),
            Ok((state, front)) => match renamed_statement(state, statements.last()) {
                Err(error) => Err(error),
                Ok((state, last)) => Ok((state, front + last)),
            },
        }
    }
}

/// The second branch of a conditional renamed in a scope of its own: the
/// state after the scope was left, the branch, and the bindings it has made.
pub open spec fn renamed_otherwise(state: RenameState, otherwise: Option<BlockView>) -> Result<
    (RenameState, Option<BlockView>, Seq<(Symbol, Symbol)>),
    (RenameState, RenameError),
>
    decreases otherwise,
{
    match otherwise {
        None => Ok((state, None, Seq::empty())),
        Some(block) => match renamed_statements(entered(state), block.statements) {
            Err((after, error)) => Err((left(after), error)),
            Ok((after, statements)) => Ok(
                (left(after), Some(BlockView { statements, span: block.span }), after.frames.last()),
            ),
        },
    }
}

/// One statement renamed in `state`: the statements that it becomes, and the
/// state after it.
pub open spec fn renamed_statement(state: RenameState, statement: StatementView) -> Renaming
    decreases statement,
{
    match statement {
        StatementView::Definition { declaration_type, place, type_, value, span } => match renamed_expression(
            state.frames,
            value,
        ) {
            Err(error) => Err((state, error)),
            Ok(value) => match defined(state, place) {
                Err(error) => Err((state, error)),
                Ok((state, place)) => Ok(
                    (state, seq![StatementView::Definition { declaration_type, place, type_, value, span }]),
                ),
            },
        },
        StatementView::Assign { place, value, span } => match renamed_expression(state.frames, value) {
            Err(error) => Err((state, error)),
            Ok(value) => match defined(state, place) {
                Err(error) => Err((state, error)),
                Ok((state, place)) => Ok((state, seq![StatementView::Assign { place, value, span }])),
            },
        },
        StatementView::Conditional { condition, then, otherwise, span } => match renamed_expression(
            state.frames,
            condition,
        ) {
            Err(error) => Err((state, error)),
            Ok(condition) => match renamed_statements(entered(state), then.statements) {
                Err((after, error)) => Err((left(after), error)),
                Ok((after_then, then_statements)) => match renamed_otherwise(left(after_then), otherwise) {
                    Err(error) => Err(error),
                    Ok((state, otherwise, else_frame)) => match merged(
                        state,
                        condition,
                        after_then.frames.last(),
                        else_frame,
                        written(after_then.frames.last(), else_frame),
                        span,
                    ) {
                        Err(error) => Err(error),
                        Ok((state, merges)) => Ok(
                            (
                                state,
                                seq![
                                    StatementView::Conditional {
                                        condition,
                                        then: BlockView { statements: then_statements, span: then.span },
                                        otherwise,
                                        span,
                                    },
                                ] + merges,
                            ),
                        ),
                    },
                },
            },
        },
        StatementView::Block(block) => match renamed_statements(state, block.statements) {
            Err(error) => Err(error),
            Ok((state, statements)) => Ok(
                (state, seq![StatementView::Block(BlockView { statements, span: block.span })]),
            ),
        },
        StatementView::Effect { kind, operands, span } => match renamed_expressions(state.frames, operands) {
            Err(error) => Err((state, error)),
            Ok(operands) => Ok((state, seq![StatementView::Effect { kind, operands, span }])),
        },
    }
}

/// The views of statements are as many, and each is the view of its own.
pub(crate) proof fn lemma_statement_views(statements: Seq<Statement>)
    ensures
        statement_views(statements).len() == statements.len(),
        forall|i: int| 0 <= i < statements.len() ==> (#[trigger] statement_views(statements)[i]) == statements[i]@,
    decreases statements.len(),
{
    if statements.len() > 0 {
        let front = statements.drop_last();
        lemma_statement_views(front);
        assert(statement_views(statements) == statement_views(front).push(statements.last()@));
        assert forall|i: int| 0 <= i < statements.len() implies (#[trigger] statement_views(statements)[i])
            == statements[i]@ by {
            if i < front.len() {
                assert(statement_views(front)[i] == front[i]@);
            }
        }
    }
}

/// The views of two runs of statements, one after the other.
pub(crate) proof fn lemma_statement_views_concat(first: Seq<Statement>, second: Seq<Statement>)
    ensures
        statement_views(first + second) == statement_views(first) + statement_views(second),
{
    lemma_statement_views(first);
    lemma_statement_views(second);
    lemma_statement_views(first + second);
    assert(statement_views(first + second) =~= statement_views(first) + statement_views(second));
}

/// The view of a single statement, as a sequence.
pub(crate) proof fn lemma_statement_views_single(statement: Statement)
    ensures
        statement_views(seq![statement]) == seq![statement@],
{
    lemma_statement_views(seq![statement]);
    assert(statement_views(seq![statement]) =~= seq![statement@]);
}

/// Where a front part of the statements fails, the whole fails alike.
pub(crate) proof fn lemma_renamed_statements_fail_early(state: RenameState, statements: Seq<StatementView>, n: int)
    requires
        0 <= n <= statements.len(),
        renamed_statements(state, statements.take(n)) is Err,
    ensures
        renamed_statements(state, statements) == renamed_statements(state, statements.take(n)),
    decreases statements.len() - n,
{
    if n < statements.len() {
        assert(statements.take(n + 1).drop_last() =~= statements.take(n));
        lemma_renamed_statements_fail_early(state, statements, n + 1);
    } else {
        assert(statements.take(n) =~= statements);
    }
}

/// Where the definitions for a front part of the names fail, those for all
/// of them fail alike.
pub(crate) proof fn lemma_merged_fail_early(
    state: RenameState,
    condition: ExpressionView,
    then_frame: Seq<(Symbol, Symbol)>,
    else_frame: Seq<(Symbol, Symbol)>,
    names: Seq<Symbol>,
    span: Span,
    n: int,
)
    requires
        0 <= n <= names.len(),
        merged(state, condition, then_frame, else_frame, names.take(n), span) is Err,
    ensures
        merged(state, condition, then_frame, else_frame, names, span) == merged(
            state,
            condition,
            then_frame,
            else_frame,
            names.take(n),
            span,
        ),
    decreases names.len() - n,
{
    if n < names.len() {
        assert(names.take(n + 1).drop_last() =~= names.take(n));
        lemma_merged_fail_early(state, condition, then_frame, else_frame, names, span, n + 1);
    } else {
        assert(names.take(n) =~= names);
    }
}

/// The value that `entries` hold for `key`, by the first entry with the key.
pub fn entry_value(entries: &Vec<(Symbol, Symbol)>, key: Symbol) -> (value: Option<Symbol>)
    ensures
        value == value_at(entries@, key),
{
    let mut i: usize = 0;
    while i < entries.len()
        invariant
            i <= entries.len(),
            forall|j: int| 0 <= j < i ==> (#[trigger] entries@[j]).0 != key,
        decreases entries.len() - i,
    {
        if entries[i].0 == key {
            proof {
                lemma_find_key_is(entries@, key, i as int);
            }
            return Some(entries[i].1);
        }
        i = i + 1;
    }
    proof {
        lemma_find_key(entries@, key);
    }
    None
}

/// The variables that the two branches of a conditional have bound, from the
/// bindings that each has left.
pub fn written_names(then_frame: &Vec<(Symbol, Symbol)>, else_frame: &Vec<(Symbol, Symbol)>) -> (names: Vec<Symbol>)
    ensures
        names@ == written(then_frame@, else_frame@),
{
    let mut names: Vec<Symbol> = Vec::new();
    let mut i: usize = 0;
    while i < then_frame.len()
        invariant
            i <= then_frame.len(),
            names@ == keys(then_frame@).take(i as int),
        decreases then_frame.len() - i,
    {
        names.push(then_frame[i].0);
        i = i + 1;
        assert(names@ =~= keys(then_frame@).take(i as int));
    }
    assert(keys(then_frame@).take(i as int) =~= keys(then_frame@));
    let mut j: usize = 0;
    while j < else_frame.len()
        invariant
            j <= else_frame.len(),
            names@ == keys(then_frame@) + keys_missing_from(else_frame@.take(j as int), then_frame@),
        decreases else_frame.len() - j,
    {
        assert(else_frame@.take(j + 1).drop_last() =~= else_frame@.take(j as int));
        let key = else_frame[j].0;
        if entry_value(then_frame, key).is_none() {
            names.push(key);
        }
        j = j + 1;
        assert(names@ =~= keys(then_frame@) + keys_missing_from(else_frame@.take(j as int), then_frame@));
    }
    assert(else_frame@.take(j as int) =~= else_frame@);
    names
}

impl StaticSingleAssigner {
    /// Gives `place` a new name, binds it in the innermost scope, and returns
    /// the identifier that the definition binds. Fails, and changes nothing,
    /// where the versions have run out.
    pub fn define(&mut self, place: Identifier) -> (made: Result<Identifier, RenameError>)
        ensures
            match made {
                Ok(identifier) => defined(old(self)@, place) == Ok::<(RenameState, Identifier), RenameError>(
                    (final(self)@, identifier),
                ),
                Err(error) => defined(old(self)@, place) == Err::<(RenameState, Identifier), RenameError>(error)
                    && final(self)@ == old(self)@,
            },
            final(self)@.frames.len() == old(self)@.frames.len(),
            final(self)@.frames.drop_last() == old(self)@.frames.drop_last(),
            final(self)@.counter >= old(self)@.counter,
    {
        proof {
            self.rename_table.lemma_has_frame();
        }
        match self.unique_symbol(place.name) {
            Err(error) => Err(error),
            Ok(name) => {
                self.rename_table.update(place.name, name);
                assert(self@.frames.drop_last() =~= old(self)@.frames.drop_last());
                Ok(Identifier { name, span: place.span })
            },
        }
    }

    /// Emits, for each of `names` that the enclosing scopes bind, the
    /// definition that picks by `condition` between the names that the two
    /// branches have left for it, and binds the variable to the new name.
    pub fn merge_branches(
        &mut self,
        condition: &Expression,
        then_frame: &Vec<(Symbol, Symbol)>,
        else_frame: &Vec<(Symbol, Symbol)>,
        names: &Vec<Symbol>,
        span: Span,
    ) -> (made: Result<Vec<Statement>, RenameError>)
        ensures
            match made {
                Ok(out) => merged(old(self)@, condition@, then_frame@, else_frame@, names@, span)
                    == Renaming::Ok((final(self)@, statement_views(out@))),
                Err(error) => merged(old(self)@, condition@, then_frame@, else_frame@, names@, span)
                    == Renaming::Err((final(self)@, error)),
            },
            final(self)@.frames.len() == old(self)@.frames.len(),
            final(self)@.frames.drop_last() == old(self)@.frames.drop_last(),
            final(self)@.counter >= old(self)@.counter,
    {
        let mut out: Vec<Statement> = Vec::new();
        let mut i: usize = 0;
        while i < names.len()
            invariant
                i <= names.len(),
                merged(old(self)@, condition@, then_frame@, else_frame@, names@.take(i as int), span)
                    == Renaming::Ok((self@, statement_views(out@))),
                self@.frames.len() == old(self)@.frames.len(),
                self@.frames.drop_last() == old(self)@.frames.drop_last(),
                self@.counter >= old(self)@.counter,
            decreases names.len() - i,
        {
            let name = names[i];
            proof {
                assert(names@.take(i + 1).drop_last() =~= names@.take(i as int));
            }
            let ghost before_step = self@;
            let ghost front = statement_views(out@);
            assert(names@.take(i + 1).last() == name);
            match self.rename_table.lookup(name) {
                None => {
                    assert(merged(old(self)@, condition@, then_frame@, else_frame@, names@.take(i + 1), span)
                        == Renaming::Ok((before_step, front)));
                },
                Some(outer) => {
                    match self.define(Identifier { name, span }) {
                        Err(error) => {
                            proof {
                                lemma_merged_fail_early(
                                    old(self)@,
                                    condition@,
                                    then_frame@,
                                    else_frame@,
                                    names@,
                                    span,
                                    i + 1,
                                );
                            }
                            return Err(error);
                        },
                        Ok(place) => {
                            let if_true = Expression::Identifier(
                                Identifier {
                                    name: match entry_value(then_frame, name) {
                                        Some(value) => value,
                                        None => outer,
                                    },
                                    span,
                                },
                            );
                            let if_false = Expression::Identifier(
                                Identifier {
                                    name: match entry_value(else_frame, name) {
                                        Some(value) => value,
                                        None => outer,
                                    },
                                    span,
                                },
                            );
                            let mut operands: Vec<Expression> = Vec::new();
                            operands.push(condition.clone());
                            operands.push(if_true);
                            operands.push(if_false);
                            let merge = Statement::Assign {
                                place,
                                value: Expression::Compound { operator: Operator::Ternary, operands, span },
                                span,
                            };
                            proof {
                                crate::expression::lemma_expression_views(operands@);
                                assert(crate::tree::expression_views(operands@) =~= seq![
                                    condition@,
                                    branch_value(then_frame@, name, outer, span),
                                    branch_value(else_frame@, name, outer, span),
                                ]);
                                assert(out@.push(merge).drop_last() =~= out@);
                                assert(statement_views(out@.push(merge)) == front.push(merge@));
                                assert(merged(
                                    old(self)@,
                                    condition@,
                                    then_frame@,
                                    else_frame@,
                                    names@.take(i + 1),
                                    span,
                                ) == Renaming::Ok(
                                    (self@, front.push(merge@)),
                                ));
                            }
                            out.push(merge);
                        },
                    }
                },
            }
            i = i + 1;
        }
        proof {
            assert(names@.take(i as int) =~= names@);
        }
        Ok(out)
    }

    /// Rebuilds a statement under the open scopes. What it reads is resolved
    /// first, then what it binds gets a new name; a conditional is followed
    /// by the definitions that join its branches. On failure the scopes that
    /// were open before are open again, and those around the innermost are as
    /// they were.
    pub fn consume_statement(&mut self, statement: Statement) -> (renamed: Result<Vec<Statement>, RenameError>)
        ensures
            match renamed {
                Ok(out) => renamed_statement(old(self)@, statement@)
                    == Renaming::Ok((final(self)@, statement_views(out@))),
                Err(error) => renamed_statement(old(self)@, statement@) == Renaming::Err((final(self)@, error)),
            },
            final(self)@.frames.len() == old(self)@.frames.len(),
            final(self)@.frames.drop_last() == old(self)@.frames.drop_last(),
            final(self)@.counter >= old(self)@.counter,
        decreases statement,
    {
        proof {
            self.rename_table.lemma_has_frame();
        }
        match statement {
            Statement::Definition { declaration_type, place, type_, value, span } => {
                let value = match self.consume_expression(value) {
                    Err(error) => {
                        return Err(error);
                    },
                    Ok(value) => value,
                };
                match self.define(place) {
                    Err(error) => Err(error),
                    Ok(place) => {
                        let renamed = Statement::Definition { declaration_type, place, type_, value, span };
                        proof {
                            lemma_statement_views_single(renamed);
                            assert(renamed_statement(old(self)@, statement@)
                                == Renaming::Ok((self@, seq![renamed@])));
                        }
                        {
                            let out = vec![renamed];
                            assert(out@ =~= seq![renamed]);
                            Ok(out)
                        }
                    },
                }
            },
            Statement::Assign { place, value, span } => {
                let value = match self.consume_expression(value) {
                    Err(error) => {
                        return Err(error);
                    },
                    Ok(value) => value,
                };
                match self.define(place) {
                    Err(error) => Err(error),
                    Ok(place) => {
                        let renamed = Statement::Assign { place, value, span };
                        proof {
                            lemma_statement_views_single(renamed);
                            assert(renamed_statement(old(self)@, statement@)
                                == Renaming::Ok((self@, seq![renamed@])));
                        }
                        {
                            let out = vec![renamed];
                            assert(out@ =~= seq![renamed]);
                            Ok(out)
                        }
                    },
                }
            },
            Statement::Conditional { condition, then, otherwise, span } => {
                let condition = match self.consume_expression(condition) {
                    Err(error) => {
                        return Err(error);
                    },
                    Ok(condition) => condition,
                };
                let then_span = then.span;
                self.push();
                let then_result = self.consume_block(then);
                let ghost after_then = self@;
                let then_frame = self.pop();
                assert(self@ == left(after_then));
                let then_statements = match then_result {
                    Err(error) => {
                        assert(self@.frames =~= old(self)@.frames);
                        return Err(error);
                    },
                    Ok(statements) => statements,
                };
                assert(self@.frames.drop_last() =~= old(self)@.frames.drop_last());
                let ghost before_else = self@;
                let (otherwise, else_frame) = match otherwise {
                    None => (None, Vec::new()),
                    Some(block) => {
                        let else_span = block.span;
                        self.push();
                        let else_result = self.consume_block(block);
                        let ghost after_else = self@;
                        let else_frame = self.pop();
                        assert(self@ == left(after_else));
                        assert(self@.frames.drop_last() =~= old(self)@.frames.drop_last());
                        match else_result {
                            Err(error) => {
                                return Err(error);
                            },
                            Ok(statements) => (Some(Block { statements, span: else_span }), else_frame),
                        }
                    },
                };
                let names = written_names(&then_frame, &else_frame);
                let mut merges = match self.merge_branches(&condition, &then_frame, &else_frame, &names, span) {
                    Err(error) => {
                        return Err(error);
                    },
                    Ok(merges) => merges,
                };
                let renamed = Statement::Conditional {
                    condition,
                    then: Block { statements: then_statements, span: then_span },
                    otherwise,
                    span,
                };
                let mut out = vec![renamed];
                assert(out@ =~= seq![renamed]);
                proof {
                    lemma_statement_views_single(renamed);
                    lemma_statement_views_concat(out@, merges@);
                    assert(renamed_statement(old(self)@, statement@)
                        == Renaming::Ok((self@, seq![renamed@] + statement_views(merges@))));
                }
                out.append(&mut merges);
                Ok(out)
            },
            Statement::Block(block) => {
                let span = block.span;
                match self.consume_block(block) {
                    Err(error) => Err(error),
                    Ok(statements) => {
                        let renamed = Statement::Block(Block { statements, span });
                        proof {
                            lemma_statement_views_single(renamed);
                            assert(renamed_statement(old(self)@, statement@)
                                == Renaming::Ok((self@, seq![renamed@])));
                        }
                        {
                            let out = vec![renamed];
                            assert(out@ =~= seq![renamed]);
                            Ok(out)
                        }
                    },
                }
            },
            Statement::Effect { kind, operands, span } => match self.consume_expressions(operands) {
                Err(error) => Err(error),
                Ok(operands) => {
                    let renamed = Statement::Effect { kind, operands, span };
                    proof {
                        lemma_statement_views_single(renamed);
                        assert(renamed_statement(old(self)@, statement@) == Renaming::Ok((self@, seq![renamed@])));
                    }
                    {
                            let out = vec![renamed];
                            assert(out@ =~= seq![renamed]);
                            Ok(out)
                        }
                },
            },
        }
    }

    /// Rebuilds the statements of a block in order, in the scope that is
    /// innermost when it is called, and stops at the first that fails.
    pub fn consume_block(&mut self, block: Block) -> (renamed: Result<Vec<Statement>, RenameError>)
        ensures
            match renamed {
                Ok(out) => renamed_statements(old(self)@, block@.statements)
                    == Renaming::Ok((final(self)@, statement_views(out@))),
                Err(error) => renamed_statements(old(self)@, block@.statements)
                    == Renaming::Err((final(self)@, error)),
            },
            final(self)@.frames.len() == old(self)@.frames.len(),
            final(self)@.frames.drop_last() == old(self)@.frames.drop_last(),
            final(self)@.counter >= old(self)@.counter,
        decreases block,
    {
        let Block { statements, span } = block;
        let ghost before = statements@;
        let ghost views = statement_views(before);
        let mut out: Vec<Statement> = Vec::new();
        for statement in it: statements
            invariant
                it.seq() == before,
                views == statement_views(before),
                views == block@.statements,
                decreases_to!(block => before),
                renamed_statements(old(self)@, views.take(it.index() as int))
                    == Renaming::Ok((self@, statement_views(out@))),
                self@.frames.len() == old(self)@.frames.len(),
                self@.frames.drop_last() == old(self)@.frames.drop_last(),
                self@.counter >= old(self)@.counter,
        {
            let ghost k = it.index() as int;
            proof {
                assert(decreases_to!(before => before[k]));
                lemma_statement_views(before);
                assert(views.take(k + 1).drop_last() =~= views.take(k));
            }
            match self.consume_statement(statement) {
                Err(error) => {
                    proof {
                        lemma_renamed_statements_fail_early(old(self)@, views, k + 1);
                    }
                    return Err(error);
                },
                Ok(mut part) => {
                    proof {
                        lemma_statement_views_concat(out@, part@);
                    }
                    out.append(&mut part);
                },
            }
        }
        proof {
            assert(views.take(views.len() as int) =~= views);
            lemma_statement_views(before);
        }
        Ok(out)
    }
}

} // verus!
