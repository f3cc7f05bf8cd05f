use leo_ast::{
    Annotation, DeclarationType, FunctionOutput, IntegerType, Literal, Mapping, Mode, Output, ProgramId, Type,
    Variant,
};
use leo_span::span::BytePos;
use leo_span::Span;
use static_single_assignment::assigner::StaticSingleAssigner;
use static_single_assignment::error::SsaError;
use static_single_assignment::symbol::{Symbol, GATES, OWNER};
use static_single_assignment::tree::{
    Block, EffectKind, Expression, Finalize, Function, Identifier, Import, Input, Member, Program, ProgramScope,
    Statement, Struct,
};

const A: u32 = 200;
const B: u32 = 201;
const X: u32 = 203;
const Y: u32 = 204;
const F: u32 = 210;
const G: u32 = 211;
const FIN: u32 = 212;
const TOKEN: u32 = 220;
const POINT: u32 = 221;
const LEDGER: u32 = 222;
const LIB: u32 = 230;
const APP: u32 = 231;
const NET: u32 = 232;

fn at(lo: u32) -> Span {
    Span::new(BytePos(lo), BytePos(lo + 3))
}

fn versioned(base: u32, version: u64) -> Symbol {
    Symbol { base, version }
}

fn id(name: Symbol, place: u32) -> Identifier {
    Identifier { name, span: at(place) }
}

fn outside(base: u32, place: u32) -> leo_ast::Identifier {
    leo_ast::Identifier { name: leo_span::Symbol::new(base), span: at(place) }
}

fn read(name: Symbol, place: u32) -> Expression {
    Expression::Identifier(id(name, place))
}

fn define(place: Identifier, value: Expression, span: u32) -> Statement {
    Statement::Definition {
        declaration_type: DeclarationType::Let,
        place,
        type_: Type::Field,
        value,
        span: at(span),
    }
}

fn give(value: Expression, span: u32) -> Statement {
    Statement::Effect { kind: EffectKind::Return, operands: vec![value], span: at(span) }
}

fn input(name: u32, place: u32) -> Input {
    Input::Internal { identifier: id(Symbol::source(name), place), mode: Mode::Private, type_: Type::Field,
        span: at(place + 1) }
}

fn output(place: u32) -> Output {
    Output::Internal(FunctionOutput { mode: Mode::Public, type_: Type::Field, span: at(place) })
}

/// `let b = a; return b;`, with `b` under the name `bound`.
fn body(bound: Symbol) -> Block {
    Block {
        statements: vec![
            define(id(bound, 11), read(Symbol::source(A), 12), 13),
            give(read(bound, 14), 15),
        ],
        span: at(16),
    }
}

/// A function of one input `a`, whose body is `statements`.
fn function(name: u32, block: Block, finalize: Option<Finalize>) -> Function {
    Function {
        annotations: vec![Annotation { identifier: outside(name + 1000, 1), span: at(2) }],
        call_type: Variant::Transition,
        identifier: id(Symbol::source(name), 3),
        input: vec![input(A, 4)],
        output: vec![output(6)],
        output_type: Type::Field,
        block,
        finalize,
        span: at(7),
    }
}

fn finalize(inputs: Vec<Input>, block: Block) -> Finalize {
    Finalize {
        identifier: id(Symbol::source(FIN), 20),
        input: inputs,
        output: vec![output(21)],
        output_type: Type::Integer(IntegerType::U64),
        block,
        span: at(22),
    }
}

fn member(name: u32, place: u32) -> Member {
    Member {
        mode: Mode::None,
        identifier: id(Symbol::source(name), place),
        type_: if name == OWNER { Type::Address } else { Type::Integer(IntegerType::U64) },
        span: at(place + 1),
    }
}

fn declaration(name: u32, is_record: bool, names: &[u32]) -> Struct {
    Struct {
        identifier: id(Symbol::source(name), 30),
        members: names.iter().map(|name| member(*name, *name)).collect(),
        is_record,
        span: at(31),
    }
}

fn program_id(name: u32) -> ProgramId {
    ProgramId { name: outside(name, 40), network: outside(NET, 41) }
}

fn ledger() -> Mapping {
    Mapping { identifier: outside(LEDGER, 50), key_type: Type::Address, value_type: Type::Field, span: at(51) }
}

fn scope(name: u32, structs: Vec<(Symbol, Struct)>, functions: Vec<(Symbol, Function)>) -> ProgramScope {
    ProgramScope {
        program_id: program_id(name),
        structs,
        mappings: vec![(Symbol::source(LEDGER), ledger())],
        functions,
        span: at(60),
    }
}

#[test]
fn function_body_is_renamed_in_a_scope_of_its_inputs() {
    let mut assigner = StaticSingleAssigner::new();
    let out = assigner.consume_function(function(F, body(Symbol::source(B)), None));
    assert_eq!(out, Ok(function(F, body(versioned(B, 1)), None)));
    assert_eq!(assigner.counter, 1);
    assert_eq!(assigner.rename_table.lookup(Symbol::source(A)), None);
    assert_eq!(assigner.rename_table.lookup(Symbol::source(B)), None);
    assert_eq!(assigner.pop(), vec![]);
}

#[test]
fn function_keeps_everything_but_the_statements() {
    let mut assigner = StaticSingleAssigner::new();
    let handed = function(
        F,
        body(Symbol::source(B)),
        Some(finalize(vec![input(A, 23), input(X, 25)], body(Symbol::source(Y)))),
    );
    let out = assigner.consume_function(handed).unwrap();
    let before = function(
        F,
        body(Symbol::source(B)),
        Some(finalize(vec![input(A, 23), input(X, 25)], body(Symbol::source(Y)))),
    );
    assert_eq!(out.annotations, before.annotations);
    assert_eq!(out.call_type, before.call_type);
    assert_eq!(out.identifier, before.identifier);
    assert_eq!(out.input, before.input);
    assert_eq!(out.output, before.output);
    assert_eq!(out.output_type, before.output_type);
    assert_eq!(out.span, before.span);
    assert_eq!(out.block.span, before.block.span);
    let (after, before) = (out.finalize.unwrap(), before.finalize.unwrap());
    assert_eq!(after.identifier, before.identifier);
    assert_eq!(after.input, before.input);
    assert_eq!(after.output, before.output);
    assert_eq!(after.output_type, before.output_type);
    assert_eq!(after.span, before.span);
    assert_eq!(after.block.span, before.block.span);
    assert_eq!(out.block, body(versioned(B, 1)));
    assert_eq!(after.block, body(versioned(Y, 2)));
}

#[test]
fn finalize_resolves_its_own_input() {
    // The body rebinds `a`; the finalize block has an input `a` of its own.
    let mut assigner = StaticSingleAssigner::new();
    let main = Block {
        statements: vec![
            Statement::Assign { place: id(Symbol::source(A), 11), value: read(Symbol::source(A), 12), span: at(13) },
            give(read(Symbol::source(A), 14), 15),
        ],
        span: at(16),
    };
    let second = Block { statements: vec![give(read(Symbol::source(A), 26), 27)], span: at(28) };
    let out = assigner.consume_function(function(F, main, Some(finalize(vec![input(A, 23)], second)))).unwrap();
    assert_eq!(
        out.block.statements,
        vec![
            Statement::Assign { place: id(versioned(A, 1), 11), value: read(Symbol::source(A), 12), span: at(13) },
            give(read(versioned(A, 1), 14), 15),
        ]
    );
    assert_eq!(out.finalize.unwrap().block.statements, vec![give(read(Symbol::source(A), 26), 27)]);
}

#[test]
fn finalize_does_not_see_the_body() {
    let mut assigner = StaticSingleAssigner::new();
    // `b` is bound in the body and read in the finalize block, which has no such input.
    let second = Block { statements: vec![give(read(Symbol::source(B), 26), 27)], span: at(28) };
    let out = assigner.consume_function(function(F, body(Symbol::source(B)), Some(finalize(vec![], second))));
    assert_eq!(out, Err(SsaError::UnresolvedSymbol { symbol: Symbol::source(B), function: Symbol::source(F) }));
    // Nor the input of the function.
    let mut assigner = StaticSingleAssigner::new();
    let second = Block { statements: vec![give(read(Symbol::source(A), 26), 27)], span: at(28) };
    let out = assigner.consume_function(function(F, body(Symbol::source(B)), Some(finalize(vec![input(X, 23)],
        second))));
    assert_eq!(out, Err(SsaError::UnresolvedSymbol { symbol: Symbol::source(A), function: Symbol::source(F) }));
}

#[test]
fn body_does_not_see_the_inputs_of_finalize() {
    let mut assigner = StaticSingleAssigner::new();
    let main = Block { statements: vec![give(read(Symbol::source(X), 14), 15)], span: at(16) };
    let second = Block { statements: vec![give(read(Symbol::source(X), 26), 27)], span: at(28) };
    let out = assigner.consume_function(function(F, main, Some(finalize(vec![input(X, 23)], second))));
    assert_eq!(out, Err(SsaError::UnresolvedSymbol { symbol: Symbol::source(X), function: Symbol::source(F) }));
}

#[test]
fn function_sees_what_is_bound_around_it() {
    let mut assigner = StaticSingleAssigner::new();
    assigner.rename_table.update(Symbol::source(X), versioned(X, 4));
    assigner.counter = 4;
    let main = Block { statements: vec![give(read(Symbol::source(X), 14), 15)], span: at(16) };
    let out = assigner.consume_function(function(F, main, None)).unwrap();
    assert_eq!(out.block.statements, vec![give(read(versioned(X, 4), 14), 15)]);
}

#[test]
fn failed_function_leaves_the_table_as_it_was() {
    let mut assigner = StaticSingleAssigner::new();
    assigner.rename_table.update(Symbol::source(X), Symbol::source(X));
    let main = Block {
        statements: vec![
            define(id(Symbol::source(B), 11), read(Symbol::source(A), 12), 13),
            give(read(Symbol::source(Y), 14), 15),
        ],
        span: at(16),
    };
    let out = assigner.consume_function(function(F, main, None));
    assert_eq!(out, Err(SsaError::UnresolvedSymbol { symbol: Symbol::source(Y), function: Symbol::source(F) }));
    assert_eq!(assigner.rename_table.lookup(Symbol::source(A)), None);
    assert_eq!(assigner.rename_table.lookup(Symbol::source(B)), None);
    assert_eq!(assigner.pop(), vec![(Symbol::source(X), Symbol::source(X))]);
    assert_eq!(assigner.pop(), vec![]);
}

#[test]
fn function_fails_when_versions_run_out() {
    let mut assigner = StaticSingleAssigner::new();
    assigner.counter = u64::MAX;
    let out = assigner.consume_function(function(F, body(Symbol::source(B)), None));
    assert_eq!(out, Err(SsaError::VersionsExhausted { function: Symbol::source(F) }));
}

#[test]
fn later_input_of_one_name_is_the_one_bound() {
    let mut assigner = StaticSingleAssigner::new();
    assigner.push();
    assigner.register_inputs(&vec![input(A, 1), input(X, 3), input(A, 5)]);
    assert_eq!(
        assigner.pop(),
        vec![(Symbol::source(A), Symbol::source(A)), (Symbol::source(X), Symbol::source(X))]
    );
}

#[test]
fn external_input_is_bound_by_its_identifier() {
    let record = Input::External {
        identifier: id(Symbol::source(X), 1),
        program_name: id(Symbol::source(LIB), 2),
        record: id(Symbol::source(TOKEN), 3),
        span: at(4),
    };
    assert_eq!(record.identifier(), id(Symbol::source(X), 1));
    assert_eq!(input(A, 7).identifier(), id(Symbol::source(A), 7));
    let mut assigner = StaticSingleAssigner::new();
    assigner.register_inputs(&vec![record]);
    assert_eq!(assigner.rename_table.lookup(Symbol::source(X)), Some(Symbol::source(X)));
    assert_eq!(assigner.rename_table.lookup(Symbol::source(TOKEN)), None);
}

#[test]
fn consume_body_brackets_the_scope() {
    let mut assigner = StaticSingleAssigner::new();
    let out = assigner.consume_body(&vec![input(A, 4)], body(Symbol::source(B)));
    assert_eq!(out, Ok(body(versioned(B, 1))));
    assert_eq!(assigner.rename_table.lookup(Symbol::source(A)), None);
    assert_eq!(assigner.pop(), vec![]);
}

#[test]
fn scope_keeps_order_names_and_mappings() {
    let mut assigner = StaticSingleAssigner::new();
    let handed = scope(
        APP,
        vec![
            (Symbol::source(TOKEN), declaration(TOKEN, true, &[X, GATES, OWNER])),
            (Symbol::source(POINT), declaration(POINT, false, &[Y, X])),
        ],
        vec![
            (Symbol::source(G), function(G, body(Symbol::source(B)), None)),
            (Symbol::source(F), function(F, body(Symbol::source(B)), None)),
        ],
    );
    let expected = scope(
        APP,
        vec![
            (Symbol::source(TOKEN), declaration(TOKEN, true, &[OWNER, GATES, X])),
            (Symbol::source(POINT), declaration(POINT, false, &[Y, X])),
        ],
        vec![
            (Symbol::source(G), function(G, body(versioned(B, 1)), None)),
            (Symbol::source(F), function(F, body(versioned(B, 2)), None)),
        ],
    );
    assert_eq!(assigner.consume_program_scope(handed), Ok(expected));
    assert_eq!(assigner.counter, 2);
}

#[test]
fn scope_reports_a_struct_before_a_function() {
    let mut assigner = StaticSingleAssigner::new();
    let bad = Block { statements: vec![give(read(Symbol::source(Y), 14), 15)], span: at(16) };
    let handed = scope(
        APP,
        vec![(Symbol::source(TOKEN), declaration(TOKEN, true, &[X, OWNER]))],
        vec![(Symbol::source(F), function(F, bad, None))],
    );
    assert_eq!(
        assigner.consume_program_scope(handed),
        Err(SsaError::MissingReservedField { record: Symbol::source(TOKEN), field: Symbol::source(GATES) })
    );
    let bad = Block { statements: vec![give(read(Symbol::source(Y), 14), 15)], span: at(16) };
    let handed = scope(APP, vec![], vec![(Symbol::source(F), function(F, bad, None))]);
    assert_eq!(
        assigner.consume_program_scope(handed),
        Err(SsaError::UnresolvedSymbol { symbol: Symbol::source(Y), function: Symbol::source(F) })
    );
}

#[test]
fn structs_and_functions_alone() {
    let mut assigner = StaticSingleAssigner::new();
    let out = assigner.consume_structs(vec![
        (Symbol::source(POINT), declaration(POINT, false, &[Y, X])),
        (Symbol::source(TOKEN), declaration(TOKEN, true, &[GATES, OWNER])),
    ]);
    assert_eq!(
        out,
        Ok(vec![
            (Symbol::source(POINT), declaration(POINT, false, &[Y, X])),
            (Symbol::source(TOKEN), declaration(TOKEN, true, &[OWNER, GATES])),
        ])
    );
    assert_eq!(assigner.consume_structs(vec![]), Ok(vec![]));
    assert_eq!(assigner.consume_functions(vec![]), Ok(vec![]));
    let out = assigner.consume_functions(vec![(Symbol::source(F), function(F, body(Symbol::source(B)), None))]);
    assert_eq!(out, Ok(vec![(Symbol::source(F), function(F, body(versioned(B, 1)), None))]));
}

/// One import that declares a record and a function `f`, and an importer
/// with a function `g` of the same body.
fn importer(record: &[u32], in_import: Symbol, in_importer: Symbol) -> Program {
    let imported = Program {
        imports: vec![],
        program_scopes: vec![(
            program_id(LIB),
            scope(
                LIB,
                vec![(Symbol::source(TOKEN), declaration(TOKEN, true, record))],
                vec![(Symbol::source(F), function(F, body(in_import), None))],
            ),
        )],
    };
    Program {
        imports: vec![Import { name: Symbol::source(LIB), program: imported, span: at(70) }],
        program_scopes: vec![(
            program_id(APP),
            scope(APP, vec![], vec![(Symbol::source(G), function(G, body(in_importer), None))]),
        )],
    }
}

#[test]
fn program_with_an_import_end_to_end() {
    let mut assigner = StaticSingleAssigner::new();
    let out = assigner.consume_program(importer(&[GATES, OWNER, X], Symbol::source(B), Symbol::source(B)));
    assert_eq!(out, Ok(importer(&[OWNER, GATES, X], versioned(B, 1), versioned(B, 2))));
    assert_eq!(assigner.counter, 2);
    assert_eq!(assigner.pop(), vec![]);
}

#[test]
fn import_and_importer_do_not_share_names() {
    let mut assigner = StaticSingleAssigner::new();
    let out = assigner.consume_program(importer(&[OWNER, GATES], Symbol::source(X), Symbol::source(X))).unwrap();
    let bound = |program: &Program| match &program.program_scopes[0].1.functions[0].1.block.statements[0] {
        Statement::Definition { place, value, .. } => (place.name, *value == read(Symbol::source(A), 12)),
        other => panic!("unexpected {:?}", other),
    };
    assert_eq!(bound(&out.imports[0].program), (versioned(X, 1), true));
    assert_eq!(bound(&out), (versioned(X, 2), true));
    assert_eq!(assigner.rename_table.lookup(Symbol::source(X)), None);
}

#[test]
fn imports_of_imports_come_first() {
    let leaf = |name: u32, function_name: u32| Program {
        imports: vec![],
        program_scopes: vec![(
            program_id(name),
            scope(name, vec![], vec![(Symbol::source(function_name), function(function_name,
                body(Symbol::source(B)), None))]),
        )],
    };
    let renamed_leaf = |name: u32, function_name: u32, version: u64| Program {
        imports: vec![],
        program_scopes: vec![(
            program_id(name),
            scope(name, vec![], vec![(Symbol::source(function_name), function(function_name, body(versioned(B,
                version)), None))]),
        )],
    };
    let mut middle = leaf(LIB, F);
    middle.imports.push(Import { name: Symbol::source(NET), program: leaf(NET, FIN), span: at(71) });
    let mut top = leaf(APP, G);
    top.imports.push(Import { name: Symbol::source(LIB), program: middle, span: at(72) });
    top.imports.push(Import { name: Symbol::source(POINT), program: leaf(POINT, Y), span: at(73) });

    let mut expected_middle = renamed_leaf(LIB, F, 2);
    expected_middle.imports.push(Import { name: Symbol::source(NET), program: renamed_leaf(NET, FIN, 1),
        span: at(71) });
    let mut expected = renamed_leaf(APP, G, 4);
    expected.imports.push(Import { name: Symbol::source(LIB), program: expected_middle, span: at(72) });
    expected.imports.push(Import { name: Symbol::source(POINT), program: renamed_leaf(POINT, Y, 3), span: at(73) });

    assert_eq!(StaticSingleAssigner::new().consume_program(top), Ok(expected));
}

#[test]
fn empty_program_is_rebuilt_empty() {
    let mut assigner = StaticSingleAssigner::new();
    let out = assigner.consume_program(Program { imports: vec![], program_scopes: vec![] });
    assert_eq!(out, Ok(Program { imports: vec![], program_scopes: vec![] }));
    assert_eq!(assigner.counter, 0);
}

#[test]
fn failure_in_an_import_fails_the_program() {
    let mut assigner = StaticSingleAssigner::new();
    let out = assigner.consume_program(importer(&[GATES, X], Symbol::source(B), Symbol::source(B)));
    assert_eq!(
        out,
        Err(SsaError::MissingReservedField { record: Symbol::source(TOKEN), field: Symbol::source(OWNER) })
    );
    assert_eq!(assigner.pop(), vec![]);
}

#[test]
fn literal_condition_is_copied_into_the_join() {
    let mut assigner = StaticSingleAssigner::new();
    let condition = || Expression::Literal(Literal::Boolean(false, at(80)));
    let main = Block {
        statements: vec![Statement::Conditional {
            condition: condition(),
            then: Block {
                statements: vec![Statement::Assign {
                    place: id(Symbol::source(A), 81),
                    value: read(Symbol::source(A), 82),
                    span: at(83),
                }],
                span: at(84),
            },
            otherwise: None,
            span: at(85),
        }],
        span: at(86),
    };
    let out = assigner.consume_function(function(F, main, None)).unwrap();
    match &out.block.statements[1] {
        Statement::Assign { value: Expression::Compound { operands, .. }, .. } => {
            assert_eq!(operands[0], condition());
            assert_eq!(operands[1], read(versioned(A, 1), 85));
            assert_eq!(operands[2], read(Symbol::source(A), 85));
        }
        other => panic!("unexpected {:?}", other),
    }
}

#[test]
fn do_pass_starts_from_nothing() {
    let out = StaticSingleAssigner::do_pass(importer(&[GATES, OWNER, X], Symbol::source(B), Symbol::source(B)));
    assert_eq!(out, Ok(importer(&[OWNER, GATES, X], versioned(B, 1), versioned(B, 2))));
    let unbound = Block { statements: vec![give(read(Symbol::source(Y), 14), 15)], span: at(16) };
    let out = StaticSingleAssigner::do_pass(Program {
        imports: vec![],
        program_scopes: vec![(program_id(APP), scope(APP, vec![], vec![(Symbol::source(G), function(G, unbound,
            None))]))],
    });
    assert_eq!(out, Err(SsaError::UnresolvedSymbol { symbol: Symbol::source(Y), function: Symbol::source(G) }));
}

#[test]
fn pass_over_its_own_result_binds_new_names_again() {
    let once = StaticSingleAssigner::do_pass(importer(&[OWNER, GATES], Symbol::source(B),
        Symbol::source(B))).unwrap();
    let mut assigner = StaticSingleAssigner::new();
    assigner.counter = 2;
    let twice = assigner.consume_program(once);
    assert_eq!(twice, Ok(importer(&[OWNER, GATES], versioned(B, 3), versioned(B, 4))));
}
