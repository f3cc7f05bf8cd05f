use leo_ast::{BinaryOperation, DeclarationType, IntegerType, Literal, Type, UnaryOperation};
use leo_span::span::BytePos;
use leo_span::Span;
use static_single_assignment::assigner::StaticSingleAssigner;
use static_single_assignment::error::RenameError;
use static_single_assignment::statement::{entry_value, written_names};
use static_single_assignment::symbol::Symbol;
use static_single_assignment::tree::{Block, EffectKind, Expression, Identifier, Operator, Statement};

const A: u32 = 200;
const B: u32 = 201;
const C: u32 = 202;
const X: u32 = 203;
const Y: u32 = 204;
const F: u32 = 210;

fn at(lo: u32) -> Span {
    Span::new(BytePos(lo), BytePos(lo + 3))
}

fn versioned(base: u32, version: u64) -> Symbol {
    Symbol { base, version }
}

fn id(name: Symbol, place: u32) -> Identifier {
    Identifier { name, span: at(place) }
}

fn read(name: Symbol, place: u32) -> Expression {
    Expression::Identifier(id(name, place))
}

fn number(text: &str, place: u32) -> Expression {
    Expression::Literal(Literal::Integer(IntegerType::U8, text.to_string(), at(place)))
}

fn truth(place: u32) -> Expression {
    Expression::Literal(Literal::Boolean(true, at(place)))
}

fn binary(op: BinaryOperation, left: Expression, right: Expression, place: u32) -> Expression {
    Expression::Compound { operator: Operator::Binary(op), operands: vec![left, right], span: at(place) }
}

fn ternary(condition: Expression, if_true: Expression, if_false: Expression, place: u32) -> Expression {
    Expression::Compound {
        operator: Operator::Ternary,
        operands: vec![condition, if_true, if_false],
        span: at(place),
    }
}

fn define(place: Identifier, value: Expression, span: u32) -> Statement {
    Statement::Definition {
        declaration_type: DeclarationType::Let,
        place,
        type_: Type::Integer(IntegerType::U8),
        value,
        span: at(span),
    }
}

fn assign(place: Identifier, value: Expression, span: u32) -> Statement {
    Statement::Assign { place, value, span: at(span) }
}

fn give(value: Expression, span: u32) -> Statement {
    Statement::Effect { kind: EffectKind::Return, operands: vec![value], span: at(span) }
}

fn block(statements: Vec<Statement>, span: u32) -> Block {
    Block { statements, span: at(span) }
}

fn branch(condition: Expression, then: Block, otherwise: Option<Block>, span: u32) -> Statement {
    Statement::Conditional { condition, then, otherwise, span: at(span) }
}

/// A pass in whose one frame each of `names` stands for itself.
fn seeded(names: &[u32]) -> StaticSingleAssigner {
    let mut assigner = StaticSingleAssigner::new();
    for name in names {
        assigner.rename_table.update(Symbol::source(*name), Symbol::source(*name));
    }
    assigner
}

#[test]
fn identifier_is_resolved_and_keeps_its_place() {
    let mut assigner = seeded(&[A]);
    assigner.rename_table.update(Symbol::source(B), versioned(B, 7));
    assert_eq!(assigner.consume_expression(read(Symbol::source(A), 4)), Ok(read(Symbol::source(A), 4)));
    assert_eq!(assigner.consume_expression(read(Symbol::source(B), 5)), Ok(read(versioned(B, 7), 5)));
}

#[test]
fn literal_is_handed_on() {
    let assigner = StaticSingleAssigner::new();
    assert_eq!(assigner.consume_expression(number("12", 3)), Ok(number("12", 3)));
}

#[test]
fn unbound_identifier_is_refused() {
    let assigner = seeded(&[A]);
    assert_eq!(
        assigner.consume_expression(read(Symbol::source(B), 5)),
        Err(RenameError::Unresolved(Symbol::source(B)))
    );
}

#[test]
fn compound_is_renamed_operand_by_operand() {
    let mut assigner = seeded(&[A]);
    assigner.rename_table.update(Symbol::source(B), versioned(B, 2));
    let input = binary(
        BinaryOperation::Add,
        read(Symbol::source(A), 1),
        Expression::Compound {
            operator: Operator::Unary(UnaryOperation::Negate),
            operands: vec![read(Symbol::source(B), 2)],
            span: at(3),
        },
        4,
    );
    let expected = binary(
        BinaryOperation::Add,
        read(Symbol::source(A), 1),
        Expression::Compound {
            operator: Operator::Unary(UnaryOperation::Negate),
            operands: vec![read(versioned(B, 2), 2)],
            span: at(3),
        },
        4,
    );
    assert_eq!(assigner.consume_expression(input), Ok(expected));
}

#[test]
fn operator_names_are_not_variables() {
    let assigner = seeded(&[A]);
    let call = |argument: Expression| Expression::Compound {
        operator: Operator::Call { function: id(Symbol::source(F), 1), external: None },
        operands: vec![Expression::Compound {
            operator: Operator::Access(id(Symbol::source(Y), 2)),
            operands: vec![argument],
            span: at(3),
        }],
        span: at(4),
    };
    assert_eq!(
        assigner.consume_expression(call(read(Symbol::source(A), 5))),
        Ok(call(read(Symbol::source(A), 5)))
    );
}

#[test]
fn first_unbound_operand_is_reported() {
    let assigner = seeded(&[A]);
    let input = binary(
        BinaryOperation::Mul,
        binary(BinaryOperation::Add, read(Symbol::source(A), 1), read(Symbol::source(Y), 2), 3),
        read(Symbol::source(X), 4),
        5,
    );
    assert_eq!(assigner.consume_expression(input), Err(RenameError::Unresolved(Symbol::source(Y))));
    let all = vec![read(Symbol::source(A), 1), read(Symbol::source(X), 2), read(Symbol::source(Y), 3)];
    assert_eq!(assigner.consume_expressions(all), Err(RenameError::Unresolved(Symbol::source(X))));
}

#[test]
fn expressions_are_renamed_in_order() {
    let mut assigner = seeded(&[A]);
    assigner.rename_table.update(Symbol::source(B), versioned(B, 1));
    let all = vec![read(Symbol::source(B), 1), number("3", 2), read(Symbol::source(A), 3)];
    assert_eq!(
        assigner.consume_expressions(all),
        Ok(vec![read(versioned(B, 1), 1), number("3", 2), read(Symbol::source(A), 3)])
    );
    assert_eq!(assigner.consume_expressions(vec![]), Ok(vec![]));
}

#[test]
fn clone_of_an_expression_is_equal_to_it() {
    let original = ternary(truth(1), number("1", 2), binary(BinaryOperation::Add, read(Symbol::source(A), 3),
        number("2", 4), 5), 6);
    let copy = original.clone();
    assert_eq!(copy, original);
}

#[test]
fn clone_copies_the_type_that_an_operator_holds() {
    let original = Expression::Compound {
        operator: Operator::AssociatedFunction { ty: Type::Integer(IntegerType::U8), name: id(Symbol::source(F), 1) },
        operands: vec![Expression::Compound {
            operator: Operator::AssociatedConstant { ty: Type::Group, name: id(Symbol::source(Y), 2) },
            operands: vec![],
            span: at(3),
        }],
        span: at(4),
    };
    assert_eq!(original.clone(), original);
    let operator = Operator::Call { function: id(Symbol::source(F), 1), external: Some(id(Symbol::source(Y), 2)) };
    assert_eq!(operator.clone(), operator);
    assert_eq!(Operator::TupleAccess(3).clone(), Operator::TupleAccess(3));
}

#[test]
fn definition_binds_a_new_name() {
    let mut assigner = seeded(&[A]);
    let out = assigner.consume_statement(define(id(Symbol::source(B), 1), read(Symbol::source(A), 2), 3));
    assert_eq!(out, Ok(vec![define(id(versioned(B, 1), 1), read(Symbol::source(A), 2), 3)]));
    assert_eq!(assigner.rename_table.lookup(Symbol::source(B)), Some(versioned(B, 1)));
    assert_eq!(assigner.counter, 1);
}

#[test]
fn definition_reads_before_it_binds() {
    let mut assigner = seeded(&[X]);
    let value = binary(BinaryOperation::Add, read(Symbol::source(X), 1), number("1", 2), 3);
    let out = assigner.consume_statement(assign(id(Symbol::source(X), 4), value, 5));
    let value = binary(BinaryOperation::Add, read(Symbol::source(X), 1), number("1", 2), 3);
    assert_eq!(out, Ok(vec![assign(id(versioned(X, 1), 4), value, 5)]));
    let out = assigner.consume_statement(assign(id(Symbol::source(X), 6), read(Symbol::source(X), 7), 8));
    assert_eq!(out, Ok(vec![assign(id(versioned(X, 2), 6), read(versioned(X, 1), 7), 8)]));
}

#[test]
fn definition_of_an_unbound_value_binds_nothing() {
    let mut assigner = seeded(&[A]);
    let out = assigner.consume_statement(define(id(Symbol::source(B), 1), read(Symbol::source(Y), 2), 3));
    assert_eq!(out, Err(RenameError::Unresolved(Symbol::source(Y))));
    assert_eq!(assigner.rename_table.lookup(Symbol::source(B)), None);
    assert_eq!(assigner.counter, 0);
}

#[test]
fn definition_fails_when_versions_run_out() {
    let mut assigner = seeded(&[A]);
    assigner.counter = u64::MAX;
    let out = assigner.consume_statement(define(id(Symbol::source(B), 1), read(Symbol::source(A), 2), 3));
    assert_eq!(out, Err(RenameError::Exhausted));
    assert_eq!(assigner.rename_table.lookup(Symbol::source(B)), None);
    let out = assigner.consume_statement(give(read(Symbol::source(A), 2), 3));
    assert_eq!(out, Ok(vec![give(read(Symbol::source(A), 2), 3)]));
}

#[test]
fn define_binds_in_the_innermost_frame() {
    let mut assigner = seeded(&[X]);
    assigner.push();
    assert_eq!(assigner.define(id(Symbol::source(X), 9)), Ok(id(versioned(X, 1), 9)));
    assert_eq!(assigner.rename_table.lookup(Symbol::source(X)), Some(versioned(X, 1)));
    assert_eq!(assigner.pop(), vec![(Symbol::source(X), versioned(X, 1))]);
    assert_eq!(assigner.rename_table.lookup(Symbol::source(X)), Some(Symbol::source(X)));
}

#[test]
fn effect_reads_what_is_bound() {
    let mut assigner = seeded(&[A]);
    assigner.rename_table.update(Symbol::source(B), versioned(B, 3));
    let input = Statement::Effect {
        kind: EffectKind::Increment(id(Symbol::source(Y), 1)),
        operands: vec![read(Symbol::source(A), 2), read(Symbol::source(B), 3)],
        span: at(4),
    };
    let expected = Statement::Effect {
        kind: EffectKind::Increment(id(Symbol::source(Y), 1)),
        operands: vec![read(Symbol::source(A), 2), read(versioned(B, 3), 3)],
        span: at(4),
    };
    assert_eq!(assigner.consume_statement(input), Ok(vec![expected]));
    assert_eq!(assigner.counter, 0);
}

#[test]
fn block_renames_statements_in_order() {
    let mut assigner = seeded(&[A]);
    let input = block(
        vec![
            define(id(Symbol::source(B), 1), read(Symbol::source(A), 2), 3),
            give(read(Symbol::source(B), 4), 5),
        ],
        6,
    );
    let out = assigner.consume_block(input);
    assert_eq!(
        out,
        Ok(vec![define(id(versioned(B, 1), 1), read(Symbol::source(A), 2), 3), give(read(versioned(B, 1), 4), 5)])
    );
}

#[test]
fn empty_block_gives_no_statements() {
    let mut assigner = seeded(&[A]);
    assert_eq!(assigner.consume_block(block(vec![], 1)), Ok(vec![]));
    assert_eq!(assigner.counter, 0);
}

#[test]
fn nested_block_shares_the_frame() {
    let mut assigner = seeded(&[A]);
    let input = block(
        vec![
            Statement::Block(block(vec![define(id(Symbol::source(Y), 1), read(Symbol::source(A), 2), 3)], 4)),
            give(read(Symbol::source(Y), 5), 6),
        ],
        7,
    );
    let out = assigner.consume_block(input);
    assert_eq!(
        out,
        Ok(vec![
            Statement::Block(block(vec![define(id(versioned(Y, 1), 1), read(Symbol::source(A), 2), 3)], 4)),
            give(read(versioned(Y, 1), 5), 6),
        ])
    );
}

#[test]
fn block_stops_at_the_first_failure() {
    let mut assigner = seeded(&[A]);
    let input = block(
        vec![
            define(id(Symbol::source(B), 1), read(Symbol::source(A), 2), 3),
            give(read(Symbol::source(X), 4), 5),
            give(read(Symbol::source(Y), 6), 7),
        ],
        8,
    );
    assert_eq!(assigner.consume_block(input), Err(RenameError::Unresolved(Symbol::source(X))));
}

#[test]
fn branches_that_both_bind_are_joined() {
    let mut assigner = seeded(&[C, X]);
    let input = branch(
        read(Symbol::source(C), 1),
        block(vec![assign(id(Symbol::source(X), 2), number("1", 3), 4)], 5),
        Some(block(vec![assign(id(Symbol::source(X), 6), number("2", 7), 8)], 9)),
        10,
    );
    let out = assigner.consume_statement(input);
    let expected = vec![
        branch(
            read(Symbol::source(C), 1),
            block(vec![assign(id(versioned(X, 1), 2), number("1", 3), 4)], 5),
            Some(block(vec![assign(id(versioned(X, 2), 6), number("2", 7), 8)], 9)),
            10,
        ),
        assign(
            id(versioned(X, 3), 10),
            ternary(read(Symbol::source(C), 1), read(versioned(X, 1), 10), read(versioned(X, 2), 10), 10),
            10,
        ),
    ];
    assert_eq!(out, Ok(expected));
    assert_eq!(assigner.rename_table.lookup(Symbol::source(X)), Some(versioned(X, 3)));
    assert_eq!(assigner.counter, 3);
}

#[test]
fn branch_without_else_is_joined_with_the_name_before() {
    let mut assigner = seeded(&[C, X]);
    let input = branch(
        read(Symbol::source(C), 1),
        block(vec![assign(id(Symbol::source(X), 2), number("1", 3), 4)], 5),
        None,
        10,
    );
    let out = assigner.consume_statement(input);
    let expected = vec![
        branch(
            read(Symbol::source(C), 1),
            block(vec![assign(id(versioned(X, 1), 2), number("1", 3), 4)], 5),
            None,
            10,
        ),
        assign(
            id(versioned(X, 2), 10),
            ternary(read(Symbol::source(C), 1), read(versioned(X, 1), 10), read(Symbol::source(X), 10), 10),
            10,
        ),
    ];
    assert_eq!(out, Ok(expected));
}

#[test]
fn binding_of_the_second_branch_alone_is_joined() {
    let mut assigner = seeded(&[C, X]);
    let input = branch(
        read(Symbol::source(C), 1),
        block(vec![], 5),
        Some(block(vec![assign(id(Symbol::source(X), 6), read(Symbol::source(X), 7), 8)], 9)),
        10,
    );
    let out = assigner.consume_statement(input);
    let expected = vec![
        branch(
            read(Symbol::source(C), 1),
            block(vec![], 5),
            Some(block(vec![assign(id(versioned(X, 1), 6), read(Symbol::source(X), 7), 8)], 9)),
            10,
        ),
        assign(
            id(versioned(X, 2), 10),
            ternary(read(Symbol::source(C), 1), read(Symbol::source(X), 10), read(versioned(X, 1), 10), 10),
            10,
        ),
    ];
    assert_eq!(out, Ok(expected));
}

#[test]
fn variable_of_a_branch_alone_is_not_joined_and_not_seen_after() {
    let mut assigner = seeded(&[C]);
    let input = branch(
        read(Symbol::source(C), 1),
        block(vec![define(id(Symbol::source(Y), 2), number("1", 3), 4)], 5),
        Some(block(vec![give(read(Symbol::source(C), 6), 7)], 8)),
        10,
    );
    let out = assigner.consume_statement(input);
    let expected = vec![branch(
        read(Symbol::source(C), 1),
        block(vec![define(id(versioned(Y, 1), 2), number("1", 3), 4)], 5),
        Some(block(vec![give(read(Symbol::source(C), 6), 7)], 8)),
        10,
    )];
    assert_eq!(out, Ok(expected));
    assert_eq!(assigner.rename_table.lookup(Symbol::source(Y)), None);
}

#[test]
fn second_branch_does_not_see_the_first() {
    let mut assigner = seeded(&[C, X]);
    let input = branch(
        read(Symbol::source(C), 1),
        block(vec![assign(id(Symbol::source(X), 2), number("1", 3), 4)], 5),
        Some(block(vec![give(read(Symbol::source(X), 6), 7)], 8)),
        10,
    );
    let out = assigner.consume_statement(input).unwrap();
    match &out[0] {
        Statement::Conditional { otherwise: Some(otherwise), .. } => {
            assert_eq!(otherwise.statements, vec![give(read(Symbol::source(X), 6), 7)]);
        }
        other => panic!("unexpected {:?}", other),
    }
    let input = branch(
        read(Symbol::source(C), 1),
        block(vec![define(id(Symbol::source(Y), 2), number("1", 3), 4)], 5),
        Some(block(vec![give(read(Symbol::source(Y), 6), 7)], 8)),
        10,
    );
    assert_eq!(assigner.consume_statement(input), Err(RenameError::Unresolved(Symbol::source(Y))));
}

#[test]
fn joins_come_in_the_order_the_branches_bound() {
    let mut assigner = seeded(&[A, B, C, X]);
    let input = branch(
        read(Symbol::source(X), 1),
        block(
            vec![
                assign(id(Symbol::source(B), 2), number("1", 3), 4),
                assign(id(Symbol::source(A), 5), number("2", 6), 7),
            ],
            8,
        ),
        Some(block(
            vec![
                assign(id(Symbol::source(C), 9), number("3", 10), 11),
                assign(id(Symbol::source(B), 12), number("4", 13), 14),
            ],
            15,
        )),
        20,
    );
    let out = assigner.consume_statement(input).unwrap();
    let join = |place: Symbol, if_true: Symbol, if_false: Symbol| {
        assign(id(place, 20), ternary(read(Symbol::source(X), 1), read(if_true, 20), read(if_false, 20), 20), 20)
    };
    assert_eq!(out.len(), 4);
    assert_eq!(out[1], join(versioned(B, 5), versioned(B, 1), versioned(B, 4)));
    assert_eq!(out[2], join(versioned(A, 6), versioned(A, 2), Symbol::source(A)));
    assert_eq!(out[3], join(versioned(C, 7), Symbol::source(C), versioned(C, 3)));
    assert_eq!(assigner.rename_table.lookup(Symbol::source(A)), Some(versioned(A, 6)));
    assert_eq!(assigner.rename_table.lookup(Symbol::source(B)), Some(versioned(B, 5)));
    assert_eq!(assigner.rename_table.lookup(Symbol::source(C)), Some(versioned(C, 7)));
    assert_eq!(assigner.rename_table.lookup(Symbol::source(X)), Some(Symbol::source(X)));
}

#[test]
fn join_holds_a_copy_of_the_renamed_condition() {
    let mut assigner = seeded(&[X]);
    assigner.rename_table.update(Symbol::source(C), versioned(C, 1));
    assigner.counter = 1;
    let condition = |name: Symbol| binary(BinaryOperation::Eq, read(name, 1), truth(2), 3);
    let input = branch(
        condition(Symbol::source(C)),
        block(vec![assign(id(Symbol::source(X), 4), number("1", 5), 6)], 7),
        None,
        10,
    );
    let out = assigner.consume_statement(input).unwrap();
    assert_eq!(out.len(), 2);
    match &out[0] {
        Statement::Conditional { condition: renamed, .. } => assert_eq!(*renamed, condition(versioned(C, 1))),
        other => panic!("unexpected {:?}", other),
    }
    assert_eq!(
        out[1],
        assign(
            id(versioned(X, 3), 10),
            ternary(condition(versioned(C, 1)), read(versioned(X, 2), 10), read(Symbol::source(X), 10), 10),
            10,
        )
    );
}

#[test]
fn inner_branches_are_joined_before_the_outer() {
    let mut assigner = seeded(&[A, C, X]);
    let inner = branch(
        read(Symbol::source(A), 1),
        block(vec![assign(id(Symbol::source(X), 2), number("1", 3), 4)], 5),
        None,
        6,
    );
    let input = branch(read(Symbol::source(C), 7), block(vec![inner], 8), None, 9);
    let out = assigner.consume_statement(input).unwrap();
    let inner_out = vec![
        branch(
            read(Symbol::source(A), 1),
            block(vec![assign(id(versioned(X, 1), 2), number("1", 3), 4)], 5),
            None,
            6,
        ),
        assign(
            id(versioned(X, 2), 6),
            ternary(read(Symbol::source(A), 1), read(versioned(X, 1), 6), read(Symbol::source(X), 6), 6),
            6,
        ),
    ];
    let expected = vec![
        branch(read(Symbol::source(C), 7), block(inner_out, 8), None, 9),
        assign(
            id(versioned(X, 3), 9),
            ternary(read(Symbol::source(C), 7), read(versioned(X, 2), 9), read(Symbol::source(X), 9), 9),
            9,
        ),
    ];
    assert_eq!(out, expected);
}

#[test]
fn failure_in_a_branch_closes_its_scope() {
    let mut assigner = seeded(&[C, X]);
    let input = branch(
        read(Symbol::source(C), 1),
        block(
            vec![
                assign(id(Symbol::source(X), 2), number("1", 3), 4),
                give(read(Symbol::source(Y), 5), 6),
            ],
            7,
        ),
        None,
        10,
    );
    assert_eq!(assigner.consume_statement(input), Err(RenameError::Unresolved(Symbol::source(Y))));
    assert_eq!(assigner.rename_table.lookup(Symbol::source(X)), Some(Symbol::source(X)));
    assert_eq!(
        assigner.pop(),
        vec![(Symbol::source(C), Symbol::source(C)), (Symbol::source(X), Symbol::source(X))]
    );
    let mut assigner = seeded(&[C, X]);
    let input = branch(
        read(Symbol::source(C), 1),
        block(vec![], 7),
        Some(block(vec![assign(id(Symbol::source(X), 2), read(Symbol::source(Y), 3), 4)], 5)),
        10,
    );
    assert_eq!(assigner.consume_statement(input), Err(RenameError::Unresolved(Symbol::source(Y))));
    assert_eq!(
        assigner.pop(),
        vec![(Symbol::source(C), Symbol::source(C)), (Symbol::source(X), Symbol::source(X))]
    );
}

#[test]
fn unbound_condition_is_refused_before_the_branches() {
    let mut assigner = seeded(&[X]);
    let input = branch(
        read(Symbol::source(C), 1),
        block(vec![give(read(Symbol::source(Y), 5), 6)], 7),
        None,
        10,
    );
    assert_eq!(assigner.consume_statement(input), Err(RenameError::Unresolved(Symbol::source(C))));
}

#[test]
fn join_fails_when_versions_run_out() {
    let mut assigner = seeded(&[C, X]);
    assigner.counter = u64::MAX - 1;
    let input = branch(
        read(Symbol::source(C), 1),
        block(vec![assign(id(Symbol::source(X), 2), number("1", 3), 4)], 5),
        None,
        10,
    );
    assert_eq!(assigner.consume_statement(input), Err(RenameError::Exhausted));
    assert_eq!(assigner.rename_table.lookup(Symbol::source(X)), Some(Symbol::source(X)));
}

#[test]
fn entry_value_is_that_of_the_key() {
    let entries = vec![
        (Symbol::source(A), versioned(A, 1)),
        (Symbol::source(B), versioned(B, 2)),
        (versioned(A, 1), versioned(A, 3)),
    ];
    assert_eq!(entry_value(&entries, Symbol::source(A)), Some(versioned(A, 1)));
    assert_eq!(entry_value(&entries, Symbol::source(B)), Some(versioned(B, 2)));
    assert_eq!(entry_value(&entries, versioned(A, 1)), Some(versioned(A, 3)));
    assert_eq!(entry_value(&entries, Symbol::source(C)), None);
    assert_eq!(entry_value(&vec![], Symbol::source(A)), None);
}

#[test]
fn written_names_are_those_of_the_first_branch_then_the_rest() {
    let then_frame = vec![(Symbol::source(B), versioned(B, 1)), (Symbol::source(A), versioned(A, 2))];
    let else_frame = vec![
        (Symbol::source(C), versioned(C, 3)),
        (Symbol::source(B), versioned(B, 4)),
        (Symbol::source(X), versioned(X, 5)),
    ];
    assert_eq!(
        written_names(&then_frame, &else_frame),
        vec![Symbol::source(B), Symbol::source(A), Symbol::source(C), Symbol::source(X)]
    );
    assert_eq!(written_names(&vec![], &vec![]), vec![]);
    assert_eq!(written_names(&then_frame, &vec![]), vec![Symbol::source(B), Symbol::source(A)]);
}

#[test]
fn merge_branches_skips_names_that_nothing_outside_binds() {
    let mut assigner = seeded(&[X]);
    let then_frame = vec![(Symbol::source(Y), versioned(Y, 1)), (Symbol::source(X), versioned(X, 2))];
    let else_frame = vec![];
    assigner.counter = 2;
    let names = vec![Symbol::source(Y), Symbol::source(X)];
    let out = assigner.merge_branches(&truth(1), &then_frame, &else_frame, &names, at(9));
    assert_eq!(
        out,
        Ok(vec![assign(
            id(versioned(X, 3), 9),
            ternary(truth(1), read(versioned(X, 2), 9), read(Symbol::source(X), 9), 9),
            9,
        )])
    );
    assert_eq!(assigner.rename_table.lookup(Symbol::source(Y)), None);
}

/// The names that the statements bind, in the order they are met.
fn bound_in(statements: &[Statement], names: &mut Vec<Symbol>) {
    for statement in statements {
        match statement {
            Statement::Definition { place, .. } | Statement::Assign { place, .. } => names.push(place.name),
            Statement::Conditional { then, otherwise, .. } => {
                bound_in(&then.statements, names);
                if let Some(otherwise) = otherwise {
                    bound_in(&otherwise.statements, names);
                }
            }
            Statement::Block(inner) => bound_in(&inner.statements, names),
            Statement::Effect { .. } => {}
        }
    }
}

#[test]
fn every_name_is_bound_once() {
    let mut assigner = seeded(&[A, C]);
    let input = block(
        vec![
            define(id(Symbol::source(X), 1), read(Symbol::source(A), 2), 3),
            assign(id(Symbol::source(X), 4), read(Symbol::source(X), 5), 6),
            branch(
                read(Symbol::source(C), 7),
                block(
                    vec![
                        assign(id(Symbol::source(X), 8), number("1", 9), 10),
                        assign(id(Symbol::source(X), 11), read(Symbol::source(X), 12), 13),
                    ],
                    14,
                ),
                Some(block(vec![assign(id(Symbol::source(A), 15), read(Symbol::source(X), 16), 17)], 18)),
                19,
            ),
            give(binary(BinaryOperation::Add, read(Symbol::source(X), 20), read(Symbol::source(A), 21), 22), 23),
        ],
        24,
    );
    let out = assigner.consume_block(input).unwrap();
    let mut names = vec![Symbol::source(A), Symbol::source(C)];
    bound_in(&out, &mut names);
    assert_eq!(names.len(), 2 + 7);
    for (i, name) in names.iter().enumerate() {
        assert!(!names[..i].contains(name), "{:?} is bound twice", name);
    }
    assert_eq!(
        out[out.len() - 1],
        give(binary(BinaryOperation::Add, read(versioned(X, 6), 20), read(versioned(A, 7), 21), 22), 23)
    );
}
