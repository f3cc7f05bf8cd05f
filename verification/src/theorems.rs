//! What holds of every run of the pass.
use crate::assigner::RenameState;
use crate::function::{registered, renamed_body, renamed_function, BodyRenaming, FunctionRenaming};
use crate::ordered_map::{
    find_key, lemma_find_key, lemma_removed_push_other, lemma_removed_push_same, lemma_value_after_insert,
    removed, value_at, values,
};
use crate::program::{
    renamed_functions, renamed_imports, renamed_program, renamed_scope, renamed_scopes, renamed_structs,
    ImportsRenaming, ScopesRenaming,
};
use crate::record::{collected, declares, normalized};
use crate::rename_table::{bound, resolve};
use crate::single_assignment::{
    bindings, lemma_bindings, statements_read, definitions, lemma_bound_within, lemma_renamed_statements_within, lemma_statements_count_up,
    single_assignment, table_within, versions_below, versions_between,
};
use crate::symbol::{gates, owner, Symbol};
use crate::tree::{BlockView, FunctionView, Input, Member, ProgramScopeView, ProgramView, StructView};
use vstd::prelude::*;

verus! {

/// No two of the members have one name.
pub open spec fn distinct_names(members: Seq<Member>) -> bool {
    forall|i: int, j: int|
        0 <= i < j < members.len() ==> (#[trigger] members[i]).identifier.name != (
        #[trigger] members[j]).identifier.name
}

/// The member that has the name.
pub open spec fn member_named(members: Seq<Member>, name: Symbol) -> Member {
    members[choose|i: int| 0 <= i < members.len() && (#[trigger] members[i]).identifier.name == name]
}

/// The members that are named neither `owner` nor `gates`, in their order.
pub open spec fn unreserved(members: Seq<Member>) -> Seq<Member>
    decreases members.len(),
{
    if members.len() == 0 {
        Seq::empty()
    } else if members.last().identifier.name != owner() && members.last().identifier.name != gates() {
        unreserved(members.drop_last()).push(members.last())
    } else {
        unreserved(members.drop_last())
    }
}

/// The members, each under its name.
pub open spec fn by_name(members: Seq<Member>) -> Seq<(Symbol, Member)> {
    members.map_values(|member: Member| (member.identifier.name, member))
}

/// Members of distinct names are collected into one entry each, in order.
proof fn lemma_collected_distinct(members: Seq<Member>)
    requires
        distinct_names(members),
    ensures
        collected(members) == by_name(members),
    decreases members.len(),
{
    if members.len() == 0 {
        assert(collected(members) =~= by_name(members));
    } else {
        let front = members.drop_last();
        let last = members.last();
        assert forall|i: int, j: int| 0 <= i < j < front.len() implies (#[trigger] front[i]).identifier.name != (
        #[trigger] front[j]).identifier.name by {
            assert(front[i] == members[i] && front[j] == members[j]);
        }
        lemma_collected_distinct(front);
        lemma_find_key(by_name(front), last.identifier.name);
        match find_key(by_name(front), last.identifier.name) {
            Some(i) => {
                assert(by_name(front)[i].0 == members[i].identifier.name);
                assert(members[members.len() - 1] == last);
                assert(false);
            },
            None => {},
        }
        assert(collected(members) =~= by_name(members));
    }
}

/// Members that lack a name have no entry under it.
proof fn lemma_by_name_lacks(members: Seq<Member>, name: Symbol)
    requires
        forall|i: int| 0 <= i < members.len() ==> (#[trigger] members[i]).identifier.name != name,
    ensures
        find_key(by_name(members), name) is None,
        removed(by_name(members), name) == by_name(members),
{
    lemma_find_key(by_name(members), name);
    match find_key(by_name(members), name) {
        Some(i) => {
            assert(by_name(members)[i].0 == members[i].identifier.name);
        },
        None => {},
    }
}

/// With the two reserved entries taken out, the members that are left are
/// the unreserved ones in their order.
proof fn lemma_others_in_order(members: Seq<Member>)
    requires
        distinct_names(members),
    ensures
        values(removed(removed(by_name(members), owner()), gates())) == unreserved(members),
    decreases members.len(),
{
    if members.len() == 0 {
        assert(by_name(members) =~= Seq::<(Symbol, Member)>::empty());
        assert(values(removed(removed(by_name(members), owner()), gates())) =~= unreserved(members));
    } else {
        let front = members.drop_last();
        let last = members.last();
        let entry = (last.identifier.name, last);
        assert forall|i: int, j: int| 0 <= i < j < front.len() implies (#[trigger] front[i]).identifier.name != (
        #[trigger] front[j]).identifier.name by {
            assert(front[i] == members[i] && front[j] == members[j]);
        }
        lemma_others_in_order(front);
        assert(by_name(members) =~= by_name(front).push(entry));
        assert forall|i: int| 0 <= i < front.len() implies (#[trigger] front[i]).identifier.name
            != last.identifier.name by {
            assert(front[i] == members[i]);
            assert(members[members.len() - 1] == last);
        }
        lemma_by_name_lacks(front, last.identifier.name);
        let without_owner = removed(by_name(front), owner());
        if last.identifier.name == owner() {
            lemma_removed_push_same(by_name(front), entry);
        } else if last.identifier.name == gates() {
            lemma_removed_push_other(by_name(front), entry, owner());
            lemma_find_key(without_owner, gates());
            lemma_find_key(by_name(front), owner());
            match find_key(without_owner, gates()) {
                Some(i) => {
                    match find_key(by_name(front), owner()) {
                        Some(at) => {
                            if i < at {
                                assert(without_owner[i] == by_name(front)[i]);
                                assert(by_name(front)[i].0 == front[i].identifier.name);
                            } else {
                                assert(without_owner[i] == by_name(front)[i + 1]);
                                assert(by_name(front)[i + 1].0 == front[i + 1].identifier.name);
                            }
                        },
                        None => {
                            assert(by_name(front)[i].0 == front[i].identifier.name);
                        },
                    }
                    assert(false);
                },
                None => {},
            }
            lemma_removed_push_same(without_owner, entry);
        } else {
            lemma_removed_push_other(by_name(front), entry, owner());
            lemma_removed_push_other(without_owner, entry, gates());
            assert(values(removed(without_owner, gates()).push(entry)) =~= values(
                removed(without_owner, gates()),
            ).push(last));
        }
    }
}

/// The entry under a name that is declared once holds the member of that name.
proof fn lemma_member_found(members: Seq<Member>, name: Symbol)
    requires
        distinct_names(members),
        declares(members, name),
    ensures
        value_at(by_name(members), name) == Some(member_named(members, name)),
{
    lemma_find_key(by_name(members), name);
    let chosen = choose|i: int| 0 <= i < members.len() && (#[trigger] members[i]).identifier.name == name;
    match find_key(by_name(members), name) {
        Some(i) => {
            assert(by_name(members)[i].0 == members[i].identifier.name);
            if i < chosen {
                assert(members[i].identifier.name != members[chosen].identifier.name);
            } else if chosen < i {
                assert(members[chosen].identifier.name != members[i].identifier.name);
            }
        },
        None => {
            assert(by_name(members)[chosen].0 == members[chosen].identifier.name);
        },
    }
}

/// A record that declares `owner` and `gates`, and no name twice, comes out
/// with `owner` first and `gates` second, and behind them its other members
/// in the order of the declaration.
pub proof fn theorem_record_members(declaration: StructView)
    requires
        declaration.is_record,
        distinct_names(declaration.members),
        declares(declaration.members, owner()),
        declares(declaration.members, gates()),
    ensures
        normalized(declaration) == Ok::<StructView, crate::error::SsaError>(
            StructView {
                members: seq![
                    member_named(declaration.members, owner()),
                    member_named(declaration.members, gates()),
                ] + unreserved(declaration.members),
                ..declaration
            },
        ),
{
    let members = declaration.members;
    lemma_collected_distinct(members);
    lemma_others_in_order(members);
    lemma_member_found(members, owner());
    lemma_member_found(members, gates());
}

/// A struct that is no record comes out as it went in, whatever the order of
/// its members.
pub proof fn theorem_struct_unchanged(declaration: StructView)
    requires
        !declaration.is_record,
    ensures
        normalized(declaration) == Ok::<StructView, crate::error::SsaError>(declaration),
{
}

/// A declaration that comes out has the name, the kind and the place in the
/// source that it had, and as many members.
pub proof fn theorem_struct_kept(declaration: StructView)
    ensures
        match normalized(declaration) {
            Ok(out) => {
                &&& out.identifier == declaration.identifier
                &&& out.is_record == declaration.is_record
                &&& out.span == declaration.span
            },
            Err(_) => true,
        },
{
}

/// A function that comes out differs from the one that went in by the
/// statements of its two blocks alone: annotations, call type, identifier,
/// inputs, outputs, output type and the places in the source are the same,
/// for the function and for its finalize block.
pub proof fn theorem_function_kept(state: RenameState, function: FunctionView)
    ensures
        match renamed_function(state, function) {
            Ok((_, out)) => {
                &&& out.annotations == function.annotations
                &&& out.call_type == function.call_type
                &&& out.identifier == function.identifier
                &&& out.input == function.input
                &&& out.output == function.output
                &&& out.output_type == function.output_type
                &&& out.span == function.span
                &&& out.block.span == function.block.span
                &&& match (function.finalize, out.finalize) {
                    (Some(before), Some(after)) => {
                        &&& after.identifier == before.identifier
                        &&& after.input == before.input
                        &&& after.output == before.output
                        &&& after.output_type == before.output_type
                        &&& after.span == before.span
                        &&& after.block.span == before.block.span
                    },
                    (None, None) => true,
                    _ => false,
                }
            },
            Err(_) => true,
        },
{
}

/// Structs come out as many as they went in, each under its name and as
/// `normalized` leaves it.
proof fn lemma_structs_kept(structs: Seq<(Symbol, StructView)>)
    ensures
        match renamed_structs(structs) {
            Ok(out) => out.len() == structs.len() && forall|i: int|
                0 <= i < structs.len() ==> (#[trigger] out[i]).0 == structs[i].0 && normalized(structs[i].1) == Ok::<
                    StructView,
                    crate::error::SsaError,
                >(out[i].1),
            Err(_) => true,
        },
    decreases structs.len(),
{
    if structs.len() > 0 {
        lemma_structs_kept(structs.drop_last());
    }
}

/// Functions come out as many as they went in, each under its name and as
/// `renamed_function` leaves it from some count of versions.
proof fn lemma_functions_kept(state: RenameState, functions: Seq<(Symbol, FunctionView)>)
    ensures
        match renamed_functions(state, functions) {
            Ok((counter, out)) => out.len() == functions.len() && counter >= state.counter && forall|i: int|
                0 <= i < functions.len() ==> (#[trigger] out[i]).0
                    == functions[i].0 && exists|before: u64, after: u64|
                    state.counter <= before <= after <= counter && renamed_function(
                        RenameState { frames: state.frames, counter: before },
                        functions[i].1,
                    ) == FunctionRenaming::Ok((after, out[i].1)),
            Err(_) => true,
        },
    decreases functions.len(),
{
    if functions.len() > 0 {
        let front = functions.drop_last();
        lemma_functions_kept(state, front);
        match renamed_functions(state, front) {
            Ok((middle, front_out)) => {
                let start = RenameState { frames: state.frames, counter: middle };
                lemma_function_counts_up(start, functions.last().1);
                match renamed_function(start, functions.last().1) {
                    Ok((counter, last)) => {
                        let out = front_out.push((functions.last().0, last));
                        assert forall|i: int| 0 <= i < functions.len() implies (#[trigger] out[i]).0
                            == functions[i].0 && exists|before: u64, after: u64|
                            state.counter <= before <= after <= counter && renamed_function(
                                RenameState { frames: state.frames, counter: before },
                                functions[i].1,
                            ) == FunctionRenaming::Ok((after, out[i].1)) by {
                            if i < front.len() {
                                assert(out[i] == front_out[i]);
                                assert(functions[i] == front[i]);
                                let (before, after) = choose|before: u64, after: u64|
                                    state.counter <= before <= after <= middle && renamed_function(
                                        RenameState { frames: state.frames, counter: before },
                                        front[i].1,
                                    ) == FunctionRenaming::Ok((after, front_out[i].1));
                                assert(state.counter <= before <= after <= counter && renamed_function(
                                    RenameState { frames: state.frames, counter: before },
                                    functions[i].1,
                                ) == FunctionRenaming::Ok((after, out[i].1)));
                            } else {
                                assert(state.counter <= middle <= counter <= counter && renamed_function(
                                    RenameState { frames: state.frames, counter: middle },
                                    functions[i].1,
                                ) == FunctionRenaming::Ok((counter, out[i].1)));
                            }
                        }
                    },
                    Err(_) => {},
                }
            },
            Err(_) => {},
        }
    }
}

/// Renaming a body hands out versions and takes none back.
pub(crate) proof fn lemma_body_counts_up(state: RenameState, inputs: Seq<Input>, block: BlockView)
    ensures
        match renamed_body(state, inputs, block) {
            Ok((counter, _)) => counter >= state.counter,
            Err(_) => true,
        },
{
    lemma_statements_count_up(
        RenameState { frames: registered(state.frames.push(Seq::empty()), inputs), counter: state.counter },
        block.statements,
    );
}

/// Rebuilding a function hands out versions and takes none back.
pub(crate) proof fn lemma_function_counts_up(state: RenameState, function: FunctionView)
    ensures
        match renamed_function(state, function) {
            Ok((counter, _)) => counter >= state.counter,
            Err(_) => true,
        },
{
    lemma_body_counts_up(state, function.input, function.block);
    match renamed_body(state, function.input, function.block) {
        Ok((counter, _)) => {
            match function.finalize {
                Some(finalize) => {
                    lemma_body_counts_up(
                        RenameState { frames: state.frames, counter },
                        finalize.input,
                        finalize.block,
                    );
                },
                None => {},
            }
        },
        Err(_) => {},
    }
}

/// A scope that comes out has the name, the mappings and the place in the
/// source that it had. Its structs and its functions are as many as before,
/// stand in the order they had and under the names they had; each struct is
/// what `normalized` makes of the one in its place, each function what
/// `renamed_function` makes of the one in its place from some count of
/// versions.
pub proof fn theorem_scope_kept(state: RenameState, scope: ProgramScopeView)
    ensures
        match renamed_scope(state, scope) {
            Ok((counter, out)) => {
                &&& out.program_id == scope.program_id
                &&& out.mappings == scope.mappings
                &&& out.span == scope.span
                &&& out.structs.len() == scope.structs.len()
                &&& out.functions.len() == scope.functions.len()
                &&& forall|i: int|
                    0 <= i < scope.structs.len() ==> (#[trigger] out.structs[i]).0 == scope.structs[i].0
                        && normalized(scope.structs[i].1) == Ok::<StructView, crate::error::SsaError>(
                        out.structs[i].1,
                    )
                &&& forall|i: int|
                    0 <= i < scope.functions.len() ==> (#[trigger] out.functions[i]).0 == scope.functions[i].0
                        && exists|before: u64, after: u64|
                        state.counter <= before <= after <= counter && renamed_function(
                            RenameState { frames: state.frames, counter: before },
                            scope.functions[i].1,
                        ) == FunctionRenaming::Ok((after, out.functions[i].1))
            },
            Err(_) => true,
        },
{
    lemma_structs_kept(scope.structs);
    lemma_functions_kept(state, scope.functions);
    match renamed_scope(state, scope) {
        Ok((counter, out)) => {
            let structs = renamed_structs(scope.structs).unwrap();
            let functions = renamed_functions(state, scope.functions).unwrap().1;
            assert(out.structs == structs);
            assert(out.functions == functions);
            assert forall|i: int| 0 <= i < scope.structs.len() implies (#[trigger] out.structs[i]).0
                == scope.structs[i].0 && normalized(scope.structs[i].1) == Ok::<StructView, crate::error::SsaError>(
                out.structs[i].1,
            ) by {
                assert(structs[i].0 == scope.structs[i].0);
            }
            assert forall|i: int| 0 <= i < scope.functions.len() implies (#[trigger] out.functions[i]).0
                == scope.functions[i].0 && exists|before: u64, after: u64|
                state.counter <= before <= after <= counter && renamed_function(
                    RenameState { frames: state.frames, counter: before },
                    scope.functions[i].1,
                ) == FunctionRenaming::Ok((after, out.functions[i].1)) by {
                assert(functions[i].0 == scope.functions[i].0);
            }
        },
        Err(_) => {},
    }
}

/// The names of the inputs.
pub open spec fn input_names(inputs: Seq<Input>) -> Set<Symbol>
    decreases inputs.len(),
{
    if inputs.len() == 0 {
        Set::empty()
    } else {
        input_names(inputs.drop_last()).insert(inputs.last().name())
    }
}

/// The names that the frames bind variables to.
pub open spec fn bound_names(frames: Seq<Seq<(Symbol, Symbol)>>) -> Set<Symbol> {
    Set::new(
        |name: Symbol|
            exists|i: int, j: int|
                0 <= i < frames.len() && 0 <= j < frames[i].len() && (#[trigger] frames[i][j]).1 == name,
    )
}

/// No input has a name with a version above `counter`.
pub open spec fn inputs_below(inputs: Seq<Input>, counter: u64) -> bool {
    forall|i: int| 0 <= i < inputs.len() ==> (#[trigger] inputs[i]).name().version <= counter
}

/// Frames seeded with inputs bind what they bound and the names of the inputs.
pub(crate) proof fn lemma_registered_within(frames: Seq<Seq<(Symbol, Symbol)>>, inputs: Seq<Input>,
    known: Set<Symbol>)
    requires
        frames.len() >= 1,
        table_within(frames, known),
    ensures
        table_within(registered(frames, inputs), known.union(input_names(inputs))),
        registered(frames, inputs).len() == frames.len(),
    decreases inputs.len(),
{
    if inputs.len() == 0 {
        assert(known.union(input_names(inputs)) =~= known);
    } else {
        let front = inputs.drop_last();
        let name = inputs.last().name();
        lemma_registered_within(frames, front, known);
        lemma_bound_within(registered(frames, front), name, name, known.union(input_names(front)));
        assert(known.union(input_names(front)).insert(name) =~= known.union(input_names(inputs)));
    }
}

/// A name is among the names of the inputs exactly where an input has it.
pub(crate) proof fn lemma_input_names(inputs: Seq<Input>, name: Symbol)
    ensures
        input_names(inputs).contains(name) <==> exists|i: int| 0 <= i < inputs.len()
            && (#[trigger] inputs[i]).name() == name,
    decreases inputs.len(),
{
    if inputs.len() > 0 {
        let front = inputs.drop_last();
        lemma_input_names(front, name);
        if input_names(inputs).contains(name) {
            if inputs.last().name() == name {
                assert(inputs[inputs.len() - 1].name() == name);
            } else {
                let i = choose|i: int| 0 <= i < front.len() && (#[trigger] front[i]).name() == name;
                assert(inputs[i].name() == name);
            }
        }
        if exists|i: int| 0 <= i < inputs.len() && (#[trigger] inputs[i]).name() == name {
            let i = choose|i: int| 0 <= i < inputs.len() && (#[trigger] inputs[i]).name() == name;
            if i < front.len() {
                assert(front[i].name() == name);
            }
        }
    }
}

/// In a scope entered from `frames` and seeded with inputs, an input resolves
/// to itself, and every other name to what it resolved to before the scope
/// was entered.
pub proof fn theorem_inputs_resolve(frames: Seq<Seq<(Symbol, Symbol)>>, inputs: Seq<Input>, name: Symbol)
    ensures
        resolve(registered(frames.push(Seq::empty()), inputs), name) == if input_names(inputs).contains(name) {
            Some(name)
        } else {
            resolve(frames, name)
        },
        registered(frames.push(Seq::empty()), inputs).len() == frames.len() + 1,
        registered(frames.push(Seq::empty()), inputs).drop_last() == frames,
    decreases inputs.len(),
{
    let entered = frames.push(Seq::empty());
    if inputs.len() == 0 {
        assert(entered.drop_last() =~= frames);
        assert(find_key(entered.last(), name) is None);
    } else {
        let front = inputs.drop_last();
        let last = inputs.last().name();
        theorem_inputs_resolve(frames, front, name);
        let before = registered(entered, front);
        let after = bound(before, last, last);
        lemma_value_after_insert(before.last(), last, last, name);
        assert(after.drop_last() =~= before.drop_last());
    }
}

/// The statements of the function's blocks are in static single assignment
/// form after the names that the frames around the function bind and the
/// inputs of the block.
pub open spec fn function_single_assignment(outer: Set<Symbol>, function: FunctionView) -> bool {
    &&& single_assignment(outer.union(input_names(function.input)), function.block.statements)
    &&& match function.finalize {
        Some(finalize) => single_assignment(outer.union(input_names(finalize.input)), finalize.block.statements),
        None => true,
    }
}

/// The names that the two blocks of the function bind.
pub open spec fn function_definitions(function: FunctionView) -> Set<Symbol> {
    definitions(function.block.statements).union(
        match function.finalize {
            Some(finalize) => definitions(finalize.block.statements),
            None => Set::empty(),
        },
    )
}

/// No input of the function or of its finalize block has a name with a
/// version above `counter`.
pub open spec fn function_inputs_below(function: FunctionView, counter: u64) -> bool {
    &&& inputs_below(function.input, counter)
    &&& match function.finalize {
        Some(finalize) => inputs_below(finalize.input, counter),
        None => true,
    }
}

/// A body that comes out is in static single assignment form after the
/// names that the frames bind and its inputs.
proof fn lemma_body_single_assignment(state: RenameState, inputs: Seq<Input>, block: BlockView)
    requires
        versions_below(bound_names(state.frames), state.counter),
        inputs_below(inputs, state.counter),
    ensures
        match renamed_body(state, inputs, block) {
            Ok((counter, out)) => {
                &&& single_assignment(bound_names(state.frames).union(input_names(inputs)), out.statements)
                &&& versions_between(definitions(out.statements), state.counter, counter)
                &&& counter >= state.counter
            },
            Err(_) => true,
        },
{
    let outer = bound_names(state.frames);
    let entered = state.frames.push(Seq::empty());
    assert forall|i: int, j: int| 0 <= i < entered.len() && 0 <= j < entered[i].len() implies outer.contains(
        (#[trigger] entered[i][j]).1,
    ) by {
        if i < state.frames.len() {
            assert(entered[i] == state.frames[i]);
            assert(state.frames[i][j].1 == entered[i][j].1);
        }
    }
    lemma_registered_within(entered, inputs, outer);
    let known = outer.union(input_names(inputs));
    assert forall|name: Symbol| #[trigger] known.contains(name) implies name.version <= state.counter by {
        if !outer.contains(name) {
            lemma_input_names(inputs, name);
            let i = choose|i: int| 0 <= i < inputs.len() && (#[trigger] inputs[i]).name() == name;
            assert(inputs[i].name().version <= state.counter);
        }
    }
    lemma_renamed_statements_within(
        RenameState { frames: registered(entered, inputs), counter: state.counter },
        block.statements,
        known,
    );
}

/// In a function that comes out, every variable that is read has exactly
/// one definition: the statements of each block read only names that the
/// frames around the function bind, inputs of the block, and names that an
/// earlier statement of the block binds; each statement that binds a name
/// binds one that none of these is. The names that the blocks bind have
/// versions that were handed out during the call, and no name is bound in
/// both blocks.
///
/// This holds where no name that the frames bind and no input has a version
/// above the count that the call starts from, as is the case for a tree that
/// the pass has not seen before.
pub proof fn theorem_single_assignment(state: RenameState, function: FunctionView)
    requires
        versions_below(bound_names(state.frames), state.counter),
        function_inputs_below(function, state.counter),
    ensures
        match renamed_function(state, function) {
            Ok((counter, out)) => {
                &&& function_single_assignment(bound_names(state.frames), out)
                &&& versions_between(function_definitions(out), state.counter, counter)
                &&& match out.finalize {
                    Some(finalize) => definitions(out.block.statements).disjoint(
                        definitions(finalize.block.statements),
                    ),
                    None => true,
                }
            },
            Err(_) => true,
        },
{
    lemma_body_single_assignment(state, function.input, function.block);
    match renamed_body(state, function.input, function.block) {
        Ok((middle, block)) => {
            match function.finalize {
                Some(finalize) => {
                    let second = RenameState { frames: state.frames, counter: middle };
                    lemma_body_single_assignment(second, finalize.input, finalize.block);
                },
                None => {},
            }
        },
        Err(_) => {},
    }
}

/// In the block, every variable that is read has one definition. The block
/// binds no name twice, and none that the frames around it bind or that is
/// an input; what it reads is a name that the frames around it bind, an
/// input, or a name that it binds.
pub open spec fn one_definition_each(outer: Set<Symbol>, inputs: Seq<Input>, block: BlockView) -> bool {
    let bound_here = bindings(block.statements);
    &&& bound_here.no_duplicates()
    &&& forall|i: int|
        0 <= i < bound_here.len() ==> !outer.contains(#[trigger] bound_here[i]) && !input_names(inputs).contains(
            bound_here[i],
        )
    &&& statements_read(block.statements).subset_of(
        outer.union(input_names(inputs)).union(bound_here.to_set()),
    )
}

/// A block in static single assignment form has one definition for every
/// variable that is read in it.
pub proof fn theorem_one_definition_each(outer: Set<Symbol>, inputs: Seq<Input>, block: BlockView)
    requires
        single_assignment(outer.union(input_names(inputs)), block.statements),
    ensures
        one_definition_each(outer, inputs, block),
{
    let known = outer.union(input_names(inputs));
    let bound_here = bindings(block.statements);
    lemma_bindings(known, block.statements);
    assert forall|i: int| 0 <= i < bound_here.len() implies !outer.contains(#[trigger] bound_here[i])
        && !input_names(inputs).contains(bound_here[i]) by {
        assert(bound_here.to_set().contains(bound_here[i]));
        assert(!known.contains(bound_here[i]));
    }
}

/// In a function that comes out, every variable that is read in a block has
/// one definition, as `one_definition_each` says it, under what
/// `theorem_single_assignment` asks for.
pub proof fn theorem_one_definition(state: RenameState, function: FunctionView)
    requires
        versions_below(bound_names(state.frames), state.counter),
        function_inputs_below(function, state.counter),
    ensures
        match renamed_function(state, function) {
            Ok((_, out)) => {
                &&& one_definition_each(bound_names(state.frames), out.input, out.block)
                &&& match out.finalize {
                    Some(finalize) => one_definition_each(bound_names(state.frames), finalize.input, finalize.block),
                    None => true,
                }
            },
            Err(_) => true,
        },
{
    theorem_single_assignment(state, function);
    match renamed_function(state, function) {
        Ok((_, out)) => {
            theorem_one_definition_each(bound_names(state.frames), out.input, out.block);
            match out.finalize {
                Some(finalize) => {
                    theorem_one_definition_each(bound_names(state.frames), finalize.input, finalize.block);
                },
                None => {},
            }
        },
        Err(_) => {},
    }
}

/// The finalize block is renamed from the frames that were open before the
/// function, seeded with its own inputs: of the renaming of the body it takes
/// over the count of versions and nothing else. The body is renamed before
/// it, from the same frames, and knows nothing of the finalize block.
pub proof fn theorem_finalize_apart(state: RenameState, function: FunctionView)
    ensures
        match renamed_function(state, function) {
            Ok((counter, out)) => match (function.finalize, out.finalize) {
                (Some(before), Some(after)) => exists|middle: u64|
                    {
                        &&& renamed_body(state, function.input, function.block)
                            == BodyRenaming::Ok((middle, out.block))
                        &&& renamed_body(#[trigger] state.at(middle), before.input, before.block)
                            == BodyRenaming::Ok((counter, after.block))
                    },
                (None, None) => renamed_body(state, function.input, function.block)
                    == BodyRenaming::Ok((counter, out.block)),
                _ => false,
            },
            Err(_) => true,
        },
{
    match renamed_body(state, function.input, function.block) {
        Ok((middle, block)) => {
            assert(state.at(middle) == RenameState { frames: state.frames, counter: middle });
        },
        Err(_) => {},
    }
}

/// The scopes of a program are rebuilt from the frames that were open before
/// the program, as what it imports was: of the rebuilding of the imports they
/// take over the count of versions and nothing else.
pub proof fn theorem_imports_apart(state: RenameState, program: ProgramView)
    ensures
        match renamed_program(state, program) {
            Ok((counter, out)) => exists|middle: u64|
                {
                    &&& renamed_imports(state, program.imports) == ImportsRenaming::Ok((middle, out.imports))
                    &&& renamed_scopes(#[trigger] state.at(middle), program.program_scopes) == ScopesRenaming::Ok(
                        (counter, out.program_scopes),
                    )
                },
            Err(_) => true,
        },
{
    match renamed_imports(state, program.imports) {
        Ok((middle, imports)) => {
            assert(state.at(middle) == RenameState { frames: state.frames, counter: middle });
        },
        Err(_) => {},
    }
}

/// A function of the scope binds the name in one of its blocks.
pub open spec fn scope_binds(scope: ProgramScopeView, name: Symbol) -> bool {
    exists|i: int|
        0 <= i < scope.functions.len() && function_definitions((#[trigger] scope.functions[i]).1).contains(name)
}

/// A function of the program, or of a program that it imports, binds the
/// name in one of its blocks.
pub open spec fn program_binds(program: ProgramView, name: Symbol) -> bool
    decreases program,
{
    ||| exists|i: int|
        0 <= i < program.imports.len() && program_binds((#[trigger] program.imports[i]).program, name)
    ||| exists|i: int|
        0 <= i < program.program_scopes.len() && scope_binds((#[trigger] program.program_scopes[i]).1, name)
}

/// Every function of the scope is in static single assignment form.
pub open spec fn scope_single_assignment(outer: Set<Symbol>, scope: ProgramScopeView) -> bool {
    forall|i: int| 0 <= i < scope.functions.len()
        ==> function_single_assignment(outer, (#[trigger] scope.functions[i]).1)
}

/// Every function of the program, and of every program that it imports, is
/// in static single assignment form.
pub open spec fn program_single_assignment(outer: Set<Symbol>, program: ProgramView) -> bool
    decreases program,
{
    &&& forall|i: int|
        0 <= i < program.imports.len() ==> program_single_assignment(outer, (#[trigger] program.imports[i]).program)
    &&& forall|i: int|
        0 <= i < program.program_scopes.len() ==> scope_single_assignment(
            outer,
            (#[trigger] program.program_scopes[i]).1,
        )
}

/// No input of a function of the scope has a name with a version above
/// `counter`.
pub open spec fn scope_inputs_below(scope: ProgramScopeView, counter: u64) -> bool {
    forall|i: int| 0 <= i < scope.functions.len()
        ==> function_inputs_below((#[trigger] scope.functions[i]).1, counter)
}

/// No input of a function of the program, or of a program that it imports,
/// has a name with a version above `counter`.
pub open spec fn program_inputs_below(program: ProgramView, counter: u64) -> bool
    decreases program,
{
    &&& forall|i: int|
        0 <= i < program.imports.len() ==> program_inputs_below((#[trigger] program.imports[i]).program, counter)
    &&& forall|i: int|
        0 <= i < program.program_scopes.len()
            ==> scope_inputs_below((#[trigger] program.program_scopes[i]).1, counter)
}

/// Inputs below a count are below a higher one.
proof fn lemma_function_inputs_below_more(function: FunctionView, counter: u64, more: u64)
    requires
        function_inputs_below(function, counter),
        counter <= more,
    ensures
        function_inputs_below(function, more),
{
    assert forall|i: int| 0 <= i < function.input.len() implies (#[trigger] function.input[i]).name().version
        <= more by {
        assert(function.input[i].name().version <= counter);
    }
    match function.finalize {
        Some(finalize) => {
            assert forall|i: int| 0 <= i < finalize.input.len() implies (#[trigger] finalize.input[i]).name().version
                <= more by {
                assert(finalize.input[i].name().version <= counter);
            }
        },
        None => {},
    }
}

/// Inputs below a count are below a higher one.
proof fn lemma_scope_inputs_below_more(scope: ProgramScopeView, counter: u64, more: u64)
    requires
        scope_inputs_below(scope, counter),
        counter <= more,
    ensures
        scope_inputs_below(scope, more),
{
    assert forall|i: int| 0 <= i < scope.functions.len() implies function_inputs_below(
        (#[trigger] scope.functions[i]).1,
        more,
    ) by {
        lemma_function_inputs_below_more(scope.functions[i].1, counter, more);
    }
}

/// Inputs below a count are below a higher one.
proof fn lemma_program_inputs_below_more(program: ProgramView, counter: u64, more: u64)
    requires
        program_inputs_below(program, counter),
        counter <= more,
    ensures
        program_inputs_below(program, more),
    decreases program,
{
    assert forall|i: int| 0 <= i < program.imports.len() implies program_inputs_below(
        (#[trigger] program.imports[i]).program,
        more,
    ) by {
        lemma_program_inputs_below_more(program.imports[i].program, counter, more);
    }
    assert forall|i: int| 0 <= i < program.program_scopes.len() implies scope_inputs_below(
        (#[trigger] program.program_scopes[i]).1,
        more,
    ) by {
        lemma_scope_inputs_below_more(program.program_scopes[i].1, counter, more);
    }
}

/// What `theorem_program_single_assignment` says of a program, of one scope.
proof fn lemma_scope_single_assignment(state: RenameState, scope: ProgramScopeView)
    requires
        versions_below(bound_names(state.frames), state.counter),
        scope_inputs_below(scope, state.counter),
    ensures
        match renamed_scope(state, scope) {
            Ok((counter, out)) => {
                &&& scope_single_assignment(bound_names(state.frames), out)
                &&& counter >= state.counter
                &&& forall|name: Symbol| #[trigger]
                    scope_binds(out, name) ==> state.counter < name.version <= counter
            },
            Err(_) => true,
        },
{
    lemma_functions_kept(state, scope.functions);
    match renamed_scope(state, scope) {
        Ok((counter, out)) => {
            assert forall|name: Symbol| #[trigger] scope_binds(out, name) implies state.counter < name.version
                <= counter by {
                let i = choose|i: int|
                    0 <= i < out.functions.len() && function_definitions((#[trigger] out.functions[i]).1).contains(
                        name,
                    );
                let (before, after) = choose|before: u64, after: u64|
                    state.counter <= before <= after <= counter && renamed_function(
                        RenameState { frames: state.frames, counter: before },
                        scope.functions[i].1,
                    ) == FunctionRenaming::Ok((after, out.functions[i].1));
                lemma_function_inputs_below_more(scope.functions[i].1, state.counter, before);
                theorem_single_assignment(
                    RenameState { frames: state.frames, counter: before },
                    scope.functions[i].1,
                );
            }
            assert forall|i: int| 0 <= i < out.functions.len() implies function_single_assignment(
                bound_names(state.frames),
                (#[trigger] out.functions[i]).1,
            ) by {
                let (before, after) = choose|before: u64, after: u64|
                    state.counter <= before <= after <= counter && renamed_function(
                        RenameState { frames: state.frames, counter: before },
                        scope.functions[i].1,
                    ) == FunctionRenaming::Ok((after, out.functions[i].1));
                lemma_function_inputs_below_more(scope.functions[i].1, state.counter, before);
                theorem_single_assignment(
                    RenameState { frames: state.frames, counter: before },
                    scope.functions[i].1,
                );
            }
        },
        Err(_) => {},
    }
}

/// What `theorem_program_single_assignment` says of a program, of scopes
/// in a row.
proof fn lemma_scopes_single_assignment(state: RenameState, scopes: Seq<(leo_ast::ProgramId, ProgramScopeView)>)
    requires
        versions_below(bound_names(state.frames), state.counter),
        forall|i: int| 0 <= i < scopes.len() ==> scope_inputs_below((#[trigger] scopes[i]).1, state.counter),
    ensures
        match renamed_scopes(state, scopes) {
            Ok((counter, out)) => {
                &&& counter >= state.counter
                &&& out.len() == scopes.len()
                &&& forall|i: int|
                    0 <= i < out.len() ==> scope_single_assignment(bound_names(state.frames), (#[trigger] out[i]).1)
                &&& forall|i: int, name: Symbol|
                    0 <= i < out.len() && #[trigger] scope_binds(out[i].1, name) ==> state.counter < name.version
                        <= counter
            },
            Err(_) => true,
        },
    decreases scopes.len(),
{
    if scopes.len() > 0 {
        let front = scopes.drop_last();
        assert forall|i: int| 0 <= i < front.len()
            implies scope_inputs_below((#[trigger] front[i]).1, state.counter) by {
            assert(front[i] == scopes[i]);
        }
        lemma_scopes_single_assignment(state, front);
        match renamed_scopes(state, front) {
            Ok((middle, front_out)) => {
                let start = RenameState { frames: state.frames, counter: middle };
                assert(scopes.last() == scopes[scopes.len() - 1]);
                lemma_scope_inputs_below_more(scopes.last().1, state.counter, middle);
                lemma_scope_single_assignment(start, scopes.last().1);
                match renamed_scope(start, scopes.last().1) {
                    Ok((counter, last)) => {
                        let out = front_out.push((scopes.last().0, last));
                        assert forall|i: int| 0 <= i < out.len() implies scope_single_assignment(
                            bound_names(state.frames),
                            (#[trigger] out[i]).1,
                        ) by {
                            if i < front_out.len() {
                                assert(out[i] == front_out[i]);
                            }
                        }
                        assert forall|i: int, name: Symbol|
                            0 <= i < out.len() && #[trigger] scope_binds(out[i].1, name) implies state.counter
                            < name.version <= counter by {
                            if i < front_out.len() {
                                assert(out[i] == front_out[i]);
                                assert(scope_binds(front_out[i].1, name));
                            }
                        }
                    },
                    Err(_) => {},
                }
            },
            Err(_) => {},
        }
    }
}

/// What `theorem_program_single_assignment` says of a program, of imports
/// in a row.
proof fn lemma_imports_single_assignment(state: RenameState, imports: Seq<crate::tree::ImportView>)
    requires
        versions_below(bound_names(state.frames), state.counter),
        forall|i: int| 0 <= i < imports.len()
            ==> program_inputs_below((#[trigger] imports[i]).program, state.counter),
    ensures
        match renamed_imports(state, imports) {
            Ok((counter, out)) => {
                &&& counter >= state.counter
                &&& out.len() == imports.len()
                &&& forall|i: int|
                    0 <= i < out.len() ==> program_single_assignment(
                        bound_names(state.frames),
                        (#[trigger] out[i]).program,
                    )
                &&& forall|i: int, name: Symbol|
                    0 <= i < out.len() && #[trigger] program_binds(out[i].program, name) ==> state.counter
                        < name.version <= counter
            },
            Err(_) => true,
        },
    decreases imports,
{
    if imports.len() > 0 {
        let front = imports.drop_last();
        assert forall|i: int| 0 <= i < front.len() implies program_inputs_below(
            (#[trigger] front[i]).program,
            state.counter,
        ) by {
            assert(front[i] == imports[i]);
        }
        lemma_imports_single_assignment(state, front);
        match renamed_imports(state, front) {
            Ok((middle, front_out)) => {
                let start = RenameState { frames: state.frames, counter: middle };
                assert(imports.last() == imports[imports.len() - 1]);
                lemma_program_inputs_below_more(imports.last().program, state.counter, middle);
                theorem_program_single_assignment(start, imports.last().program);
                match renamed_program(start, imports.last().program) {
                    Ok((counter, program)) => {
                        let out = front_out.push(crate::tree::ImportView { program, ..imports.last() });
                        assert forall|i: int| 0 <= i < out.len() implies program_single_assignment(
                            bound_names(state.frames),
                            (#[trigger] out[i]).program,
                        ) by {
                            if i < front_out.len() {
                                assert(out[i] == front_out[i]);
                            }
                        }
                        assert forall|i: int, name: Symbol|
                            0 <= i < out.len() && #[trigger] program_binds(out[i].program, name) implies state.counter
                            < name.version <= counter by {
                            if i < front_out.len() {
                                assert(out[i] == front_out[i]);
                                assert(program_binds(front_out[i].program, name));
                            }
                        }
                    },
                    Err(_) => {},
                }
            },
            Err(_) => {},
        }
    }
}

/// In a program that comes out, and in every program that it imports, every
/// function is in static single assignment form, as `theorem_single_assignment`
/// says of one function. Every name that a function binds has a version that
/// was handed out during the call, and no name is bound both in a program
/// that is imported and in a scope of the program that imports it.
///
/// This holds where no name that the frames bind and no input of a function
/// has a version above the count that the call starts from, as is the case
/// for a tree that the pass has not seen before, handed to a pass that has
/// done nothing yet.
pub proof fn theorem_program_single_assignment(state: RenameState, program: ProgramView)
    requires
        versions_below(bound_names(state.frames), state.counter),
        program_inputs_below(program, state.counter),
    ensures
        match renamed_program(state, program) {
            Ok((counter, out)) => {
                &&& program_single_assignment(bound_names(state.frames), out)
                &&& counter >= state.counter
                &&& forall|name: Symbol| #[trigger]
                    program_binds(out, name) ==> state.counter < name.version <= counter
                &&& forall|i: int, j: int, name: Symbol|
                    0 <= i < out.imports.len() && 0 <= j < out.program_scopes.len() && #[trigger] program_binds(
                        out.imports[i].program,
                        name,
                    ) ==> !#[trigger] scope_binds(out.program_scopes[j].1, name)
            },
            Err(_) => true,
        },
    decreases program,
{
    lemma_imports_single_assignment(state, program.imports);
    match renamed_imports(state, program.imports) {
        Ok((middle, imports)) => {
            let second = RenameState { frames: state.frames, counter: middle };
            assert forall|i: int| 0 <= i < program.program_scopes.len() implies scope_inputs_below(
                (#[trigger] program.program_scopes[i]).1,
                middle,
            ) by {
                lemma_scope_inputs_below_more(program.program_scopes[i].1, state.counter, middle);
            }
            lemma_scopes_single_assignment(second, program.program_scopes);
            match renamed_scopes(second, program.program_scopes) {
                Ok((counter, scopes)) => {
                    let out = ProgramView { imports, program_scopes: scopes };
                    assert forall|name: Symbol| #[trigger] program_binds(out, name) implies state.counter
                        < name.version <= counter by {
                        if exists|i: int|
                            0 <= i < out.imports.len() && program_binds((#[trigger] out.imports[i]).program, name) {
                            let i = choose|i: int|
                                0 <= i < out.imports.len() && program_binds(
                                    (#[trigger] out.imports[i]).program,
                                    name,
                                );
                            assert(program_binds(imports[i].program, name));
                        } else {
                            let j = choose|j: int|
                                0 <= j < out.program_scopes.len() && scope_binds(
                                    (#[trigger] out.program_scopes[j]).1,
                                    name,
                                );
                            assert(scope_binds(scopes[j].1, name));
                        }
                    }
                    assert forall|i: int, j: int, name: Symbol|
                        0 <= i < out.imports.len() && 0 <= j < out.program_scopes.len() && #[trigger] program_binds(
                            out.imports[i].program,
                            name,
                        ) implies !#[trigger] scope_binds(out.program_scopes[j].1, name) by {
                        assert(program_binds(imports[i].program, name));
                        if scope_binds(out.program_scopes[j].1, name) {
                            assert(scope_binds(scopes[j].1, name));
                        }
                    }
                },
                Err(_) => {},
            }
        },
        Err(_) => {},
    }
}

/// No two of the entries stand under one name.
pub open spec fn names_distinct<T>(entries: Seq<(Symbol, T)>) -> bool {
    forall|i: int, j: int| 0 <= i < j < entries.len() ==> (#[trigger] entries[i]).0 != (#[trigger] entries[j]).0
}

/// In a scope, no two structs and no two functions have one name.
pub open spec fn scope_well_formed(scope: ProgramScopeView) -> bool {
    names_distinct(scope.structs) && names_distinct(scope.functions)
}

/// A scope in which no two structs and no two functions have one name comes
/// out as such a scope.
pub proof fn theorem_scope_stays_well_formed(state: RenameState, scope: ProgramScopeView)
    requires
        scope_well_formed(scope),
    ensures
        match renamed_scope(state, scope) {
            Ok((_, out)) => scope_well_formed(out),
            Err(_) => true,
        },
{
    theorem_scope_kept(state, scope);
    match renamed_scope(state, scope) {
        Ok((_, out)) => {
            assert forall|i: int, j: int| 0 <= i < j < out.structs.len() implies (#[trigger] out.structs[i]).0 != (
            #[trigger] out.structs[j]).0 by {
                assert(scope.structs[i].0 != scope.structs[j].0);
            }
            assert forall|i: int, j: int| 0 <= i < j < out.functions.len() implies (#[trigger] out.functions[i]).0
                != (#[trigger] out.functions[j]).0 by {
                assert(scope.functions[i].0 != scope.functions[j].0);
            }
        },
        Err(_) => {},
    }
}

/// What the finalize block becomes does not depend on the body: two
/// functions with one finalize block, rebuilt from the same frames, whose
/// bodies leave the same count of versions, come out with one finalize block.
pub proof fn theorem_finalize_ignores_body(state: RenameState, first: FunctionView, second: FunctionView)
    requires
        first.finalize == second.finalize,
        renamed_function(state, first) is Ok,
        renamed_function(state, second) is Ok,
        renamed_body(state, first.input, first.block).unwrap().0 == renamed_body(
            state,
            second.input,
            second.block,
        ).unwrap().0,
    ensures
        renamed_function(state, first).unwrap().1.finalize == renamed_function(state, second).unwrap().1.finalize,
        renamed_function(state, first).unwrap().0 == renamed_function(state, second).unwrap().0,
{
}

/// What the scopes of a program become does not depend on what it imports:
/// two programs with the same scopes, rebuilt from the same frames, whose
/// imports leave the same count of versions, come out with the same scopes.
pub proof fn theorem_scopes_ignore_imports(state: RenameState, first: ProgramView, second: ProgramView)
    requires
        first.program_scopes == second.program_scopes,
        renamed_program(state, first) is Ok,
        renamed_program(state, second) is Ok,
        renamed_imports(state, first.imports).unwrap().0 == renamed_imports(state, second.imports).unwrap().0,
    ensures
        renamed_program(state, first).unwrap().1.program_scopes == renamed_program(
            state,
            second,
        ).unwrap().1.program_scopes,
        renamed_program(state, first).unwrap().0 == renamed_program(state, second).unwrap().0,
{
}

} // verus!
