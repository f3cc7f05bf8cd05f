//! What the renamed statements are: in static single assignment form.
//!
//! `single_assignment` says it of a sequence of statements, read in order,
//! branches included: every definition binds a name that nothing before it
//! has bound, and every variable that is read was bound before. So a
//! variable that is read has one definition, and the name finds it.
use crate::assigner::RenameState;
use crate::expression::{renamed_expression, renamed_expressions};
use crate::ordered_map::{find_key, inserted, lemma_find_key, value_at};
use crate::rename_table::{bound, resolve};
use crate::statement::{
    branch_value, defined, entered, left, merged, renamed_otherwise, renamed_statement, renamed_statements, written,
};
use crate::symbol::Symbol;
use crate::tree::{BlockView, ExpressionView, Identifier, Operator, StatementView};
use leo_span::Span;
use vstd::prelude::*;

verus! {

/// Every variable that the expression reads is in `defined`.
pub open spec fn reads_within(expression: ExpressionView, defined: Set<Symbol>) -> bool
    decreases expression,
{
    match expression {
        ExpressionView::Identifier(identifier) => defined.contains(identifier.name),
        ExpressionView::Literal(_) => true,
        ExpressionView::Compound { operands, .. } => all_read_within(operands, defined),
    }
}

/// Every variable that one of the expressions reads is in `defined`.
pub open spec fn all_read_within(expressions: Seq<ExpressionView>, defined: Set<Symbol>) -> bool
    decreases expressions,
{
    if expressions.len() == 0 {
        true
    } else {
        all_read_within(expressions.drop_last(), defined) && reads_within(expressions.last(), defined)
    }
}

/// The names that the statements bind, those of nested blocks included.
pub open spec fn definitions(statements: Seq<StatementView>) -> Set<Symbol>
    decreases statements,
{
    if statements.len() == 0 {
        Set::empty()
    } else {
        definitions(statements.drop_last()).union(statement_definitions(statements.last()))
    }
}

/// The names that the statement binds, those of nested blocks included.
pub open spec fn statement_definitions(statement: StatementView) -> Set<Symbol>
    decreases statement,
{
    match statement {
        StatementView::Definition { place, .. } => Set::empty().insert(place.name),
        StatementView::Assign { place, .. } => Set::empty().insert(place.name),
        StatementView::Conditional { then, otherwise, .. } => definitions(then.statements).union(
            match otherwise {
                Some(block) => definitions(block.statements),
                None => Set::empty(),
            },
        ),
        StatementView::Block(block) => definitions(block.statements),
        StatementView::Effect { .. } => Set::empty(),
    }
}

/// The statements are in static single assignment form after `defined`:
/// read in order, each reads only names of `defined` or names bound before
/// it, and binds only names that are neither.
pub open spec fn single_assignment(defined: Set<Symbol>, statements: Seq<StatementView>) -> bool
    decreases statements,
{
    if statements.len() == 0 {
        true
    } else {
        single_assignment(defined, statements.drop_last()) && statement_single_assignment(
            defined.union(definitions(statements.drop_last())),
            statements.last(),
        )
    }
}

/// The statement is in static single assignment form after `defined`. The
/// second branch of a conditional is read after the first.
pub open spec fn statement_single_assignment(defined: Set<Symbol>, statement: StatementView) -> bool
    decreases statement,
{
    match statement {
        StatementView::Definition { place, value, .. } => reads_within(value, defined) && !defined.contains(
            place.name,
        ),
        StatementView::Assign { place, value, .. } => reads_within(value, defined) && !defined.contains(place.name),
        StatementView::Conditional { condition, then, otherwise, .. } => reads_within(condition, defined)
            && single_assignment(defined, then.statements) && match otherwise {
            Some(block) => single_assignment(defined.union(definitions(then.statements)), block.statements),
            None => true,
        },
        StatementView::Block(block) => single_assignment(defined, block.statements),
        StatementView::Effect { operands, .. } => all_read_within(operands, defined),
    }
}

/// Every name that a frame binds a variable to is in `defined`.
pub open spec fn table_within(frames: Seq<Seq<(Symbol, Symbol)>>, defined: Set<Symbol>) -> bool {
    forall|i: int, j: int|
        0 <= i < frames.len() && 0 <= j < frames[i].len() ==> defined.contains((#[trigger] frames[i][j]).1)
}

/// No name of `defined` has a version above `counter`.
pub open spec fn versions_below(defined: Set<Symbol>, counter: u64) -> bool {
    forall|name: Symbol| #[trigger] defined.contains(name) ==> name.version <= counter
}

/// Every name of `names` has a version above `low` and not above `high`.
pub open spec fn versions_between(names: Set<Symbol>, low: u64, high: u64) -> bool {
    forall|name: Symbol| #[trigger] names.contains(name) ==> low < name.version <= high
}

/// The state knows only names of `defined`, and a name that it makes next is
/// not among them.
pub open spec fn state_within(state: RenameState, defined: Set<Symbol>) -> bool {
    &&& state.frames.len() >= 1
    &&& table_within(state.frames, defined)
    &&& versions_below(defined, state.counter)
}

/// What a stack of frames resolves a name to is a name that one of them binds.
pub(crate) proof fn lemma_resolve_within(frames: Seq<Seq<(Symbol, Symbol)>>, name: Symbol, defined: Set<Symbol>)
    requires
        table_within(frames, defined),
    ensures
        match resolve(frames, name) {
            Some(value) => defined.contains(value),
            None => true,
        },
    decreases frames.len(),
{
    if frames.len() > 0 {
        let last = frames.last();
        lemma_find_key(last, name);
        match find_key(last, name) {
            Some(j) => {
                assert(defined.contains(frames[frames.len() - 1][j].1));
            },
            None => {
                let front = frames.drop_last();
                assert forall|i: int, j: int| 0 <= i < front.len() && 0 <= j < front[i].len()
                    implies defined.contains(
                    (#[trigger] front[i][j]).1,
                ) by {
                    assert(front[i] == frames[i]);
                    assert(defined.contains(frames[i][j].1));
                }
                lemma_resolve_within(front, name, defined);
            },
        }
    }
}

/// A renamed expression reads only names that the frames bind.
pub(crate) proof fn lemma_renamed_expression_within(
    frames: Seq<Seq<(Symbol, Symbol)>>,
    expression: ExpressionView,
    defined: Set<Symbol>,
)
    requires
        table_within(frames, defined),
    ensures
        match renamed_expression(frames, expression) {
            Ok(renamed) => reads_within(renamed, defined),
            Err(_) => true,
        },
    decreases expression,
{
    match expression {
        ExpressionView::Identifier(identifier) => {
            lemma_resolve_within(frames, identifier.name, defined);
        },
        ExpressionView::Literal(_) => {},
        ExpressionView::Compound { operands, .. } => {
            lemma_renamed_expressions_within(frames, operands, defined);
        },
    }
}

/// Renamed expressions read only names that the frames bind.
pub(crate) proof fn lemma_renamed_expressions_within(
    frames: Seq<Seq<(Symbol, Symbol)>>,
    expressions: Seq<ExpressionView>,
    defined: Set<Symbol>,
)
    requires
        table_within(frames, defined),
    ensures
        match renamed_expressions(frames, expressions) {
            Ok(renamed) => all_read_within(renamed, defined),
            Err(_) => true,
        },
    decreases expressions,
{
    if expressions.len() > 0 {
        lemma_renamed_expressions_within(frames, expressions.drop_last(), defined);
        lemma_renamed_expression_within(frames, expressions.last(), defined);
        match renamed_expressions(frames, expressions.drop_last()) {
            Ok(front) => match renamed_expression(frames, expressions.last()) {
                Ok(last) => {
                    assert(front.push(last).drop_last() =~= front);
                },
                Err(_) => {},
            },
            Err(_) => {},
        }
    }
}

/// What is read within a set of names is read within a larger one.
pub(crate) proof fn lemma_reads_within_more(expression: ExpressionView, defined: Set<Symbol>, more: Set<Symbol>)
    requires
        reads_within(expression, defined),
        defined.subset_of(more),
    ensures
        reads_within(expression, more),
    decreases expression,
{
    match expression {
        ExpressionView::Compound { operands, .. } => {
            lemma_all_read_within_more(operands, defined, more);
        },
        _ => {},
    }
}

/// What is read within a set of names is read within a larger one.
pub(crate) proof fn lemma_all_read_within_more(expressions: Seq<ExpressionView>, defined: Set<Symbol>,
    more: Set<Symbol>)
    requires
        all_read_within(expressions, defined),
        defined.subset_of(more),
    ensures
        all_read_within(expressions, more),
    decreases expressions,
{
    if expressions.len() > 0 {
        lemma_all_read_within_more(expressions.drop_last(), defined, more);
        lemma_reads_within_more(expressions.last(), defined, more);
    }
}

/// The names bound by two runs of statements, one after the other.
pub(crate) proof fn lemma_definitions_concat(first: Seq<StatementView>, second: Seq<StatementView>)
    ensures
        definitions(first + second) == definitions(first).union(definitions(second)),
    decreases second.len(),
{
    if second.len() == 0 {
        assert(first + second =~= first);
        assert(definitions(first).union(definitions(second)) =~= definitions(first));
    } else {
        let whole = first + second;
        assert(whole.drop_last() =~= first + second.drop_last());
        assert(whole.last() == second.last());
        lemma_definitions_concat(first, second.drop_last());
        assert(definitions(whole) =~= definitions(first).union(definitions(second)));
    }
}

/// Two runs of statements, one after the other, are in static single
/// assignment form where the first is and the second is after it.
pub(crate) proof fn lemma_single_assignment_concat(
    defined: Set<Symbol>,
    first: Seq<StatementView>,
    second: Seq<StatementView>,
)
    requires
        single_assignment(defined, first),
        single_assignment(defined.union(definitions(first)), second),
    ensures
        single_assignment(defined, first + second),
    decreases second.len(),
{
    if second.len() == 0 {
        assert(first + second =~= first);
    } else {
        let whole = first + second;
        assert(whole.drop_last() =~= first + second.drop_last());
        assert(whole.last() == second.last());
        lemma_single_assignment_concat(defined, first, second.drop_last());
        lemma_definitions_concat(first, second.drop_last());
        assert(defined.union(definitions(whole.drop_last())) =~= defined.union(definitions(first)).union(
            definitions(second.drop_last()),
        ));
    }
}

/// A single statement as a run of statements.
pub(crate) proof fn lemma_single_statement(defined: Set<Symbol>, statement: StatementView)
    ensures
        definitions(seq![statement]) == statement_definitions(statement),
        single_assignment(defined, seq![statement]) == statement_single_assignment(defined, statement),
{
    let run = seq![statement];
    assert(run.drop_last() =~= Seq::<StatementView>::empty());
    assert(run.last() == statement);
    assert(definitions(run.drop_last()) =~= Set::<Symbol>::empty());
    assert(single_assignment(defined, run.drop_last()));
    assert(definitions(run) =~= statement_definitions(statement));
    assert(defined.union(definitions(run.drop_last())) =~= defined);
}

/// A binding added to the innermost frame adds its name to those the frames
/// bind, and no other.
pub(crate) proof fn lemma_bound_within(frames: Seq<Seq<(Symbol, Symbol)>>, name: Symbol, value: Symbol,
    known: Set<Symbol>)
    requires
        frames.len() >= 1,
        table_within(frames, known),
    ensures
        table_within(bound(frames, name, value), known.insert(value)),
        bound(frames, name, value).len() == frames.len(),
{
    let after = bound(frames, name, value);
    let more = known.insert(value);
    let last = frames.last();
    let top = frames.len() - 1;
    lemma_find_key(last, name);
    assert forall|i: int, j: int| 0 <= i < after.len() && 0 <= j < after[i].len() implies more.contains(
        (#[trigger] after[i][j]).1,
    ) by {
        if i == top {
            let changed = inserted(last, name, value);
            assert(after[i] == changed);
            match find_key(last, name) {
                Some(at) => {
                    if j != at {
                        assert(changed[j] == frames[top][j]);
                        assert(known.contains(frames[top][j].1));
                    }
                },
                None => {
                    if j < last.len() {
                        assert(changed[j] == frames[top][j]);
                        assert(known.contains(frames[top][j].1));
                    }
                },
            }
        } else {
            assert(after[i] == frames[i]);
            assert(known.contains(frames[i][j].1));
        }
    }
}

/// A definition binds a name that was not known, and leaves a state that
/// knows it beside the others.
pub(crate) proof fn lemma_defined_within(state: RenameState, place: Identifier, known: Set<Symbol>)
    requires
        state_within(state, known),
    ensures
        match defined(state, place) {
            Ok((after, identifier)) => {
                &&& !known.contains(identifier.name)
                &&& identifier.name.version == after.counter
                &&& after.counter == state.counter + 1
                &&& state_within(after, known.insert(identifier.name))
                &&& after.frames.len() == state.frames.len()
                &&& after.counter >= state.counter
            },
            Err(_) => true,
        },
{
    match defined(state, place) {
        Ok((after, identifier)) => {
            lemma_bound_within(state.frames, place.name, identifier.name, known);
        },
        Err(_) => {},
    }
}

/// What a frame holds for a name is one of the names it binds.
pub(crate) proof fn lemma_value_within(frame: Seq<(Symbol, Symbol)>, name: Symbol, known: Set<Symbol>)
    requires
        forall|j: int| 0 <= j < frame.len() ==> known.contains((#[trigger] frame[j]).1),
    ensures
        match value_at(frame, name) {
            Some(value) => known.contains(value),
            None => true,
        },
{
    lemma_find_key(frame, name);
    match find_key(frame, name) {
        Some(j) => {
            assert(known.contains(frame[j].1));
        },
        None => {},
    }
}

/// The definitions that join the branches of a conditional are in static
/// single assignment form after what was known before them.
pub(crate) proof fn lemma_merged_within(
    state: RenameState,
    condition: ExpressionView,
    then_frame: Seq<(Symbol, Symbol)>,
    else_frame: Seq<(Symbol, Symbol)>,
    names: Seq<Symbol>,
    span: Span,
    known: Set<Symbol>,
)
    requires
        state_within(state, known),
        reads_within(condition, known),
        forall|j: int| 0 <= j < then_frame.len() ==> known.contains((#[trigger] then_frame[j]).1),
        forall|j: int| 0 <= j < else_frame.len() ==> known.contains((#[trigger] else_frame[j]).1),
    ensures
        match merged(state, condition, then_frame, else_frame, names, span) {
            Ok((after, out)) => {
                &&& single_assignment(known, out)
                &&& state_within(after, known.union(definitions(out)))
                &&& versions_between(definitions(out), state.counter, after.counter)
                &&& after.frames.len() == state.frames.len()
                &&& after.counter >= state.counter
            },
            Err(_) => true,
        },
    decreases names.len(),
{
    if names.len() == 0 {
        assert(known.union(definitions(Seq::<StatementView>::empty())) =~= known);
    } else {
        let name = names.last();
        lemma_merged_within(state, condition, then_frame, else_frame, names.drop_last(), span, known);
        match merged(state, condition, then_frame, else_frame, names.drop_last(), span) {
            Err(_) => {},
            Ok((middle, front)) => {
                let so_far = known.union(definitions(front));
                lemma_resolve_within(middle.frames, name, so_far);
                match resolve(middle.frames, name) {
                    None => {},
                    Some(outer) => {
                        lemma_defined_within(middle, Identifier { name, span }, so_far);
                        match defined(middle, Identifier { name, span }) {
                            Err(_) => {},
                            Ok((after, place)) => {
                                let if_true = branch_value(then_frame, name, outer, span);
                                let if_false = branch_value(else_frame, name, outer, span);
                                let operands = seq![condition, if_true, if_false];
                                let merge = StatementView::Assign {
                                    place,
                                    value: ExpressionView::Compound { operator: Operator::Ternary, operands, span },
                                    span,
                                };
                                let out = front.push(merge);
                                lemma_reads_within_more(condition, known, so_far);
                                lemma_value_within(then_frame, name, known);
                                lemma_value_within(else_frame, name, known);
                                assert(reads_within(if_true, so_far));
                                assert(reads_within(if_false, so_far));
                                assert(all_read_within(operands, so_far)) by {
                                    let one = seq![condition];
                                    let two = seq![condition, if_true];
                                    assert(one.drop_last() =~= Seq::<ExpressionView>::empty());
                                    assert(all_read_within(one.drop_last(), so_far));
                                    assert(all_read_within(one, so_far));
                                    assert(two.drop_last() =~= one);
                                    assert(all_read_within(two, so_far));
                                    assert(operands.drop_last() =~= two);
                                }
                                assert(statement_single_assignment(so_far, merge));
                                assert(out.drop_last() =~= front);
                                assert(single_assignment(known, out));
                                assert(out.last() == merge);
                                assert(definitions(out) == definitions(front).union(statement_definitions(merge)));
                                assert(statement_definitions(merge) =~= Set::<Symbol>::empty().insert(place.name));
                                assert(definitions(out) =~= definitions(front).insert(place.name));
                                assert(known.union(definitions(out)) =~= so_far.insert(place.name));
                            },
                        }
                    },
                }
            },
        }
    }
}

/// The state inside a scope just entered knows what the state around it knew.
pub(crate) proof fn lemma_entered_within(state: RenameState, known: Set<Symbol>)
    requires
        state_within(state, known),
    ensures
        state_within(entered(state), known),
        entered(state).frames.len() == state.frames.len() + 1,
{
    let inner = entered(state).frames;
    assert forall|i: int, j: int| 0 <= i < inner.len() && 0 <= j < inner[i].len() implies known.contains(
        (#[trigger] inner[i][j]).1,
    ) by {
        if i < state.frames.len() {
            assert(inner[i] == state.frames[i]);
            assert(known.contains(state.frames[i][j].1));
        }
    }
}

/// The state after a scope was left knows no more than the state inside it
/// knew, and the frame that was left held only names that were known.
pub(crate) proof fn lemma_left_within(state: RenameState, known: Set<Symbol>)
    requires
        state_within(state, known),
        state.frames.len() >= 2,
    ensures
        state_within(left(state), known),
        left(state).frames.len() == state.frames.len() - 1,
        forall|j: int| 0 <= j < state.frames.last().len() ==> known.contains((#[trigger] state.frames.last()[j]).1),
{
    let outer = left(state).frames;
    assert forall|i: int, j: int| 0 <= i < outer.len() && 0 <= j < outer[i].len() implies known.contains(
        (#[trigger] outer[i][j]).1,
    ) by {
        assert(outer[i] == state.frames[i]);
        assert(known.contains(state.frames[i][j].1));
    }
    assert forall|j: int| 0 <= j < state.frames.last().len() implies known.contains(
        (#[trigger] state.frames.last()[j]).1,
    ) by {
        assert(known.contains(state.frames[state.frames.len() - 1][j].1));
    }
}

/// A statement renamed in a state that knows only names of `known` becomes
/// statements in static single assignment form after `known`, and the state
/// after it knows only those names and the ones that the statements bind.
pub(crate) proof fn lemma_renamed_statement_within(state: RenameState, statement: StatementView, known: Set<Symbol>)
    requires
        state_within(state, known),
    ensures
        match renamed_statement(state, statement) {
            Ok((after, out)) => {
                &&& single_assignment(known, out)
                &&& state_within(after, known.union(definitions(out)))
                &&& versions_between(definitions(out), state.counter, after.counter)
                &&& after.frames.len() == state.frames.len()
                &&& after.counter >= state.counter
            },
            Err(_) => true,
        },
    decreases statement,
{
    match statement {
        StatementView::Definition { declaration_type, place, type_, value, span } => {
            lemma_renamed_expression_within(state.frames, value, known);
            match renamed_expression(state.frames, value) {
                Err(_) => {},
                Ok(value) => {
                    lemma_defined_within(state, place, known);
                    match defined(state, place) {
                        Err(_) => {},
                        Ok((after, place)) => {
                            let renamed = StatementView::Definition { declaration_type, place, type_, value, span };
                            lemma_single_statement(known, renamed);
                            assert(known.union(definitions(seq![renamed])) =~= known.insert(place.name));
                        },
                    }
                },
            }
        },
        StatementView::Assign { place, value, span } => {
            lemma_renamed_expression_within(state.frames, value, known);
            match renamed_expression(state.frames, value) {
                Err(_) => {},
                Ok(value) => {
                    lemma_defined_within(state, place, known);
                    match defined(state, place) {
                        Err(_) => {},
                        Ok((after, place)) => {
                            let renamed = StatementView::Assign { place, value, span };
                            lemma_single_statement(known, renamed);
                            assert(known.union(definitions(seq![renamed])) =~= known.insert(place.name));
                        },
                    }
                },
            }
        },
        StatementView::Conditional { condition, then, otherwise, span } => {
            lemma_renamed_expression_within(state.frames, condition, known);
            match renamed_expression(state.frames, condition) {
                Err(_) => {},
                Ok(condition) => {
                    lemma_entered_within(state, known);
                    lemma_renamed_statements_within(entered(state), then.statements, known);
                    match renamed_statements(entered(state), then.statements) {
                        Err(_) => {},
                        Ok((after_then, then_statements)) => {
                            let after_first = known.union(definitions(then_statements));
                            lemma_left_within(after_then, after_first);
                            lemma_renamed_otherwise_within(left(after_then), otherwise, after_first);
                            match renamed_otherwise(left(after_then), otherwise) {
                                Err(_) => {},
                                Ok((joined, otherwise, else_frame)) => {
                                    let then_frame = after_then.frames.last();
                                    let else_definitions = match otherwise {
                                        Some(block) => definitions(block.statements),
                                        None => Set::empty(),
                                    };
                                    let after_both = after_first.union(else_definitions);
                                    lemma_reads_within_more(condition, known, after_both);
                                    assert forall|j: int| 0 <= j < then_frame.len() implies after_both.contains(
                                        (#[trigger] then_frame[j]).1,
                                    ) by {
                                        assert(after_first.contains(then_frame[j].1));
                                    }
                                    lemma_merged_within(
                                        joined,
                                        condition,
                                        then_frame,
                                        else_frame,
                                        written(then_frame, else_frame),
                                        span,
                                        after_both,
                                    );
                                    match merged(
                                        joined,
                                        condition,
                                        then_frame,
                                        else_frame,
                                        written(then_frame, else_frame),
                                        span,
                                    ) {
                                        Err(_) => {},
                                        Ok((after, merges)) => {
                                            let renamed = StatementView::Conditional {
                                                condition,
                                                then: BlockView { statements: then_statements, span: then.span },
                                                otherwise,
                                                span,
                                            };
                                            lemma_single_statement(known, renamed);
                                            assert(known.union(definitions(seq![renamed])) =~= after_both);
                                            lemma_single_assignment_concat(known, seq![renamed], merges);
                                            lemma_definitions_concat(seq![renamed], merges);
                                            assert(known.union(definitions(seq![renamed] + merges)) =~= after_both.union(
                                                definitions(merges),
                                            ));
                                        },
                                    }
                                },
                            }
                        },
                    }
                },
            }
        },
        StatementView::Block(block) => {
            lemma_renamed_statements_within(state, block.statements, known);
            match renamed_statements(state, block.statements) {
                Err(_) => {},
                Ok((after, statements)) => {
                    let renamed = StatementView::Block(BlockView { statements, span: block.span });
                    lemma_single_statement(known, renamed);
                },
            }
        },
        StatementView::Effect { kind, operands, span } => {
            lemma_renamed_expressions_within(state.frames, operands, known);
            match renamed_expressions(state.frames, operands) {
                Err(_) => {},
                Ok(operands) => {
                    let renamed = StatementView::Effect { kind, operands, span };
                    lemma_single_statement(known, renamed);
                    assert(known.union(definitions(seq![renamed])) =~= known);
                },
            }
        },
    }
}

/// The second branch of a conditional, renamed in a scope of its own from a
/// state that knows only names of `known`, is in static single assignment
/// form after `known`; what it has bound and what the state knows after it
/// are names of `known` or names that the branch binds.
pub(crate) proof fn lemma_renamed_otherwise_within(state: RenameState, otherwise: Option<BlockView>,
    known: Set<Symbol>)
    requires
        state_within(state, known),
    ensures
        match renamed_otherwise(state, otherwise) {
            Ok((after, Some(block), frame)) => {
                &&& otherwise is Some
                &&& single_assignment(known, block.statements)
                &&& state_within(after, known.union(definitions(block.statements)))
                &&& versions_between(definitions(block.statements), state.counter, after.counter)
                &&& forall|j: int|
                    0 <= j < frame.len() ==> known.union(definitions(block.statements)).contains(
                        (#[trigger] frame[j]).1,
                    )
                &&& after.frames.len() == state.frames.len()
                &&& after.counter >= state.counter
            },
            Ok((after, None, frame)) => {
                &&& otherwise is None
                &&& after == state
                &&& frame.len() == 0
            },
            Err(_) => true,
        },
    decreases otherwise,
{
    match otherwise {
        None => {},
        Some(block) => {
            lemma_entered_within(state, known);
            lemma_renamed_statements_within(entered(state), block.statements, known);
            match renamed_statements(entered(state), block.statements) {
                Err(_) => {},
                Ok((after, statements)) => {
                    lemma_left_within(after, known.union(definitions(statements)));
                },
            }
        },
    }
}

/// Statements renamed in a state that knows only names of `known` become
/// statements in static single assignment form after `known`, and the state
/// after them knows only those names and the ones that the statements bind.
pub(crate) proof fn lemma_renamed_statements_within(state: RenameState, statements: Seq<StatementView>,
    known: Set<Symbol>)
    requires
        state_within(state, known),
    ensures
        match renamed_statements(state, statements) {
            Ok((after, out)) => {
                &&& single_assignment(known, out)
                &&& state_within(after, known.union(definitions(out)))
                &&& versions_between(definitions(out), state.counter, after.counter)
                &&& after.frames.len() == state.frames.len()
                &&& after.counter >= state.counter
            },
            Err(_) => true,
        },
    decreases statements,
{
    if statements.len() == 0 {
        assert(known.union(definitions(Seq::<StatementView>::empty())) =~= known);
    } else {
        lemma_renamed_statements_within(state, statements.drop_last(), known);
        match renamed_statements(state, statements.drop_last()) {
            Err(_) => {},
            Ok((middle, front)) => {
                let so_far = known.union(definitions(front));
                lemma_renamed_statement_within(middle, statements.last(), so_far);
                match renamed_statement(middle, statements.last()) {
                    Err(_) => {},
                    Ok((after, last)) => {
                        lemma_single_assignment_concat(known, front, last);
                        lemma_definitions_concat(front, last);
                        assert(known.union(definitions(front + last)) =~= so_far.union(definitions(last)));
                    },
                }
            },
        }
    }
}

/// The definitions that join two branches hand out versions and take none back.
pub(crate) proof fn lemma_merged_counts_up(
    state: RenameState,
    condition: ExpressionView,
    then_frame: Seq<(Symbol, Symbol)>,
    else_frame: Seq<(Symbol, Symbol)>,
    names: Seq<Symbol>,
    span: Span,
)
    ensures
        match merged(state, condition, then_frame, else_frame, names, span) {
            Ok((after, _)) => after.counter >= state.counter,
            Err(_) => true,
        },
    decreases names.len(),
{
    if names.len() > 0 {
        lemma_merged_counts_up(state, condition, then_frame, else_frame, names.drop_last(), span);
    }
}

/// Renaming a statement hands out versions and takes none back.
pub(crate) proof fn lemma_statement_counts_up(state: RenameState, statement: StatementView)
    ensures
        match renamed_statement(state, statement) {
            Ok((after, _)) => after.counter >= state.counter,
            Err(_) => true,
        },
    decreases statement,
{
    match statement {
        StatementView::Conditional { condition, then, otherwise, span } => {
            match renamed_expression(state.frames, condition) {
                Err(_) => {},
                Ok(condition) => {
                    lemma_statements_count_up(entered(state), then.statements);
                    match renamed_statements(entered(state), then.statements) {
                        Err(_) => {},
                        Ok((after_then, _)) => {
                            match otherwise {
                                Some(block) => {
                                    lemma_statements_count_up(entered(left(after_then)), block.statements);
                                },
                                None => {},
                            }
                            match renamed_otherwise(left(after_then), otherwise) {
                                Err(_) => {},
                                Ok((joined, _, else_frame)) => {
                                    lemma_merged_counts_up(
                                        joined,
                                        condition,
                                        after_then.frames.last(),
                                        else_frame,
                                        written(after_then.frames.last(), else_frame),
                                        span,
                                    );
                                },
                            }
                        },
                    }
                },
            }
        },
        StatementView::Block(block) => {
            lemma_statements_count_up(state, block.statements);
        },
        _ => {},
    }
}

/// Renaming statements hands out versions and takes none back.
pub(crate) proof fn lemma_statements_count_up(state: RenameState, statements: Seq<StatementView>)
    ensures
        match renamed_statements(state, statements) {
            Ok((after, _)) => after.counter >= state.counter,
            Err(_) => true,
        },
    decreases statements,
{
    if statements.len() > 0 {
        lemma_statements_count_up(state, statements.drop_last());
        match renamed_statements(state, statements.drop_last()) {
            Err(_) => {},
            Ok((middle, _)) => {
                lemma_statement_counts_up(middle, statements.last());
            },
        }
    }
}

/// The names that the statements bind, in the order they are met, those
/// of nested blocks included; the first branch of a conditional is met
/// before the second.
pub open spec fn bindings(statements: Seq<StatementView>) -> Seq<Symbol>
    decreases statements,
{
    if statements.len() == 0 {
        Seq::empty()
    } else {
        bindings(statements.drop_last()) + statement_bindings(statements.last())
    }
}

/// The names that the statement binds, in the order they are met.
pub open spec fn statement_bindings(statement: StatementView) -> Seq<Symbol>
    decreases statement,
{
    match statement {
        StatementView::Definition { place, .. } => seq![place.name],
        StatementView::Assign { place, .. } => seq![place.name],
        StatementView::Conditional { then, otherwise, .. } => bindings(then.statements) + match otherwise {
            Some(block) => bindings(block.statements),
            None => Seq::empty(),
        },
        StatementView::Block(block) => bindings(block.statements),
        StatementView::Effect { .. } => Seq::empty(),
    }
}

/// The variables that the expression reads.
pub open spec fn expression_reads(expression: ExpressionView) -> Set<Symbol>
    decreases expression,
{
    match expression {
        ExpressionView::Identifier(identifier) => Set::empty().insert(identifier.name),
        ExpressionView::Literal(_) => Set::empty(),
        ExpressionView::Compound { operands, .. } => expressions_read(operands),
    }
}

/// The variables that the expressions read.
pub open spec fn expressions_read(expressions: Seq<ExpressionView>) -> Set<Symbol>
    decreases expressions,
{
    if expressions.len() == 0 {
        Set::empty()
    } else {
        expressions_read(expressions.drop_last()).union(expression_reads(expressions.last()))
    }
}

/// The variables that the statements read, those of nested blocks included.
pub open spec fn statements_read(statements: Seq<StatementView>) -> Set<Symbol>
    decreases statements,
{
    if statements.len() == 0 {
        Set::empty()
    } else {
        statements_read(statements.drop_last()).union(statement_reads(statements.last()))
    }
}

/// The variables that the statement reads, those of nested blocks included.
pub open spec fn statement_reads(statement: StatementView) -> Set<Symbol>
    decreases statement,
{
    match statement {
        StatementView::Definition { value, .. } => expression_reads(value),
        StatementView::Assign { value, .. } => expression_reads(value),
        StatementView::Conditional { condition, then, otherwise, .. } => expression_reads(condition).union(
            statements_read(then.statements),
        ).union(
            match otherwise {
                Some(block) => statements_read(block.statements),
                None => Set::empty(),
            },
        ),
        StatementView::Block(block) => statements_read(block.statements),
        StatementView::Effect { operands, .. } => expressions_read(operands),
    }
}

/// What an expression reads within a set of names is among them.
pub(crate) proof fn lemma_expression_reads(expression: ExpressionView, defined: Set<Symbol>)
    requires
        reads_within(expression, defined),
    ensures
        expression_reads(expression).subset_of(defined),
    decreases expression,
{
    match expression {
        ExpressionView::Compound { operands, .. } => {
            lemma_expressions_read(operands, defined);
        },
        _ => {},
    }
}

/// What expressions read within a set of names is among them.
pub(crate) proof fn lemma_expressions_read(expressions: Seq<ExpressionView>, defined: Set<Symbol>)
    requires
        all_read_within(expressions, defined),
    ensures
        expressions_read(expressions).subset_of(defined),
    decreases expressions,
{
    if expressions.len() > 0 {
        lemma_expressions_read(expressions.drop_last(), defined);
        lemma_expression_reads(expressions.last(), defined);
    }
}

/// Of a statement in static single assignment form after `defined`: it binds
/// no name twice and none of `defined`, the names it binds are its
/// definitions, and what it reads is in `defined` or is one of them.
pub(crate) proof fn lemma_statement_bindings(defined: Set<Symbol>, statement: StatementView)
    requires
        statement_single_assignment(defined, statement),
    ensures
        statement_bindings(statement).no_duplicates(),
        statement_bindings(statement).to_set() == statement_definitions(statement),
        statement_definitions(statement).disjoint(defined),
        statement_reads(statement).subset_of(defined.union(statement_definitions(statement))),
    decreases statement,
{
    match statement {
        StatementView::Definition { place, value, .. } => {
            lemma_expression_reads(value, defined);
            let single = seq![place.name];
            assert(single[0] == place.name);
            assert(single.contains(place.name));
            assert(single.to_set() =~= Set::<Symbol>::empty().insert(place.name));
        },
        StatementView::Assign { place, value, .. } => {
            lemma_expression_reads(value, defined);
            let single = seq![place.name];
            assert(single[0] == place.name);
            assert(single.contains(place.name));
            assert(single.to_set() =~= Set::<Symbol>::empty().insert(place.name));
        },
        StatementView::Conditional { condition, then, otherwise, .. } => {
            lemma_expression_reads(condition, defined);
            lemma_bindings(defined, then.statements);
            let first = bindings(then.statements);
            match otherwise {
                Some(block) => {
                    let after_first = defined.union(definitions(then.statements));
                    lemma_bindings(after_first, block.statements);
                    let second = bindings(block.statements);
                    assert forall|i: int, j: int| 0 <= i < first.len() && 0 <= j < second.len() implies first[i]
                        != second[j] by {
                        assert(first.to_set().contains(first[i]));
                        assert(second.to_set().contains(second[j]));
                    }
                    vstd::seq_lib::lemma_no_dup_in_concat(first, second);
                    vstd::seq_lib::seq_to_set_distributes_over_add(first, second);
                },
                None => {
                    assert(first + Seq::<Symbol>::empty() =~= first);
                    assert(definitions(then.statements).union(Set::empty()) =~= definitions(then.statements));
                },
            }
        },
        StatementView::Block(block) => {
            lemma_bindings(defined, block.statements);
        },
        StatementView::Effect { operands, .. } => {
            lemma_expressions_read(operands, defined);
            assert(Seq::<Symbol>::empty().to_set() =~= Set::<Symbol>::empty());
        },
    }
}

/// Of statements in static single assignment form after `defined`: they
/// bind no name twice and none of `defined`, the names they bind are their
/// definitions, and what they read is in `defined` or is one of them.
pub(crate) proof fn lemma_bindings(defined: Set<Symbol>, statements: Seq<StatementView>)
    requires
        single_assignment(defined, statements),
    ensures
        bindings(statements).no_duplicates(),
        bindings(statements).to_set() == definitions(statements),
        definitions(statements).disjoint(defined),
        statements_read(statements).subset_of(defined.union(definitions(statements))),
    decreases statements,
{
    if statements.len() == 0 {
        assert(Seq::<Symbol>::empty().to_set() =~= Set::<Symbol>::empty());
    } else {
        let front = statements.drop_last();
        let so_far = defined.union(definitions(front));
        lemma_bindings(defined, front);
        lemma_statement_bindings(so_far, statements.last());
        let first = bindings(front);
        let second = statement_bindings(statements.last());
        assert forall|i: int, j: int| 0 <= i < first.len() && 0 <= j < second.len() implies first[i]
            != second[j] by {
            assert(first.to_set().contains(first[i]));
            assert(second.to_set().contains(second[j]));
        }
        vstd::seq_lib::lemma_no_dup_in_concat(first, second);
        vstd::seq_lib::seq_to_set_distributes_over_add(first, second);
    }
}

} // verus!
