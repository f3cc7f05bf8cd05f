//! Functions: the body and the finalize block are renamed in two scopes,
//! each opened for it alone and seeded with its own inputs.
use crate::assigner::{RenameState, StaticSingleAssigner};
use crate::error::{RenameError, SsaError};
use crate::rename_table::bound;
use crate::statement::renamed_statements;
use crate::single_assignment::versions_below;
use crate::symbol::Symbol;
use crate::theorems::{bound_names, function_inputs_below, function_single_assignment, theorem_single_assignment};
use crate::tree::{Block, BlockView, Finalize, FinalizeView, Function, FunctionView, Input};
use vstd::prelude::*;

verus! {

/// What renaming a body comes to: the count of versions after it and the
/// body it has become, or the count at the failure and the failure.
pub type BodyRenaming = Result<(u64, BlockView), (u64, RenameError)>;

/// What rebuilding a function comes to: the count of versions after it and
/// the function it has become, or the count at the failure and the failure.
pub type FunctionRenaming = Result<(u64, FunctionView), (u64, SsaError)>;

/// `frames` after each input was bound to its own name in the innermost
/// frame, in order.
pub open spec fn registered(frames: Seq<Seq<(Symbol, Symbol)>>, inputs: Seq<Input>) -> Seq<Seq<(Symbol, Symbol)>>
    decreases inputs.len(),
{
    if inputs.len() == 0 {
        frames
    } else {
        bound(registered(frames, inputs.drop_last()), inputs.last().name(), inputs.last().name())
    }
}

/// A body renamed in a scope of its own, entered from `state` and seeded
/// with `inputs`: the highest version handed out after it, and the body.
pub open spec fn renamed_body(state: RenameState, inputs: Seq<Input>, block: BlockView) -> BodyRenaming {
    match renamed_statements(
        RenameState { frames: registered(state.frames.push(Seq::empty()), inputs), counter: state.counter },
        block.statements,
    ) {
        Err((after, error)) => Err((after.counter, error)),
        Ok((after, statements)) => Ok((after.counter, BlockView { statements, span: block.span })),
    }
}

/// A function rebuilt from `state`: its body, then its finalize block where
/// it has one, each renamed by `renamed_body`; everything else as it was.
/// With it, the highest version handed out after it.
pub open spec fn renamed_function(state: RenameState, function: FunctionView) -> FunctionRenaming {
    match renamed_body(state, function.input, function.block) {
        Err((counter, error)) => Err((counter, error.within(function.identifier.name))),
        Ok((counter, block)) => match function.finalize {
            None => Ok((counter, FunctionView { block, ..function })),
            Some(finalize) => match renamed_body(
                RenameState { frames: state.frames, counter },
                finalize.input,
                finalize.block,
            ) {
                Err((counter, error)) => Err((counter, error.within(function.identifier.name))),
                Ok((counter, finalize_block)) => Ok(
                    (
                        counter,
                        FunctionView {
                            block,
                            finalize: Some(FinalizeView { block: finalize_block, ..finalize }),
                            ..function
                        },
                    ),
                ),
            },
        },
    }
}

impl StaticSingleAssigner {
    /// Binds each input to its own name in the innermost scope.
    pub fn register_inputs(&mut self, inputs: &Vec<Input>)
        ensures
            final(self)@ == (RenameState { frames: registered(old(self)@.frames, inputs@), ..old(self)@ }),
            final(self)@.frames.len() == old(self)@.frames.len(),
            final(self)@.frames.drop_last() == old(self)@.frames.drop_last(),
    {
        proof {
            self.rename_table.lemma_has_frame();
        }
        let mut i: usize = 0;
        while i < inputs.len()
            invariant
                i <= inputs.len(),
                self@.counter == old(self)@.counter,
                self@.frames == registered(old(self)@.frames, inputs@.take(i as int)),
                self@.frames.len() == old(self)@.frames.len(),
                self@.frames.len() >= 1,
                self@.frames.drop_last() == old(self)@.frames.drop_last(),
            decreases inputs.len() - i,
        {
            let ghost frames = self@.frames;
            let name = inputs[i].identifier().name;
            self.rename_table.update(name, name);
            proof {
                assert(inputs@.take(i + 1).drop_last() =~= inputs@.take(i as int));
                assert(self@.frames.drop_last() =~= frames.drop_last());
            }
            i = i + 1;
        }
        proof {
            assert(inputs@.take(i as int) =~= inputs@);
        }
    }

    /// Renames a body in a scope of its own: enters the scope, binds the
    /// inputs, rebuilds the block, and leaves the scope, whether the block
    /// was rebuilt or not.
    pub fn consume_body(&mut self, inputs: &Vec<Input>, block: Block) -> (rebuilt: Result<Block, RenameError>)
        ensures
            match rebuilt {
                Ok(out) => renamed_body(old(self)@, inputs@, block@) == BodyRenaming::Ok(
                    (final(self)@.counter, out@),
                ),
                Err(error) => renamed_body(old(self)@, inputs@, block@)
                    == BodyRenaming::Err((final(self)@.counter, error)),
            },
            final(self)@.frames == old(self)@.frames,
            final(self)@.counter >= old(self)@.counter,
    {
        proof {
            self.rename_table.lemma_has_frame();
        }
        let span = block.span;
        self.push();
        self.register_inputs(inputs);
        let renamed = self.consume_block(block);
        self.pop();
        assert(self@.frames =~= old(self)@.frames);
        match renamed {
            Err(error) => Err(error),
            Ok(statements) => Ok(Block { statements, span }),
        }
    }

    /// Rebuilds a function. The body is renamed in a scope that holds the
    /// inputs of the function; the finalize block, where there is one, in
    /// another that holds its own inputs and nothing of the body. The rest of
    /// the function is handed on as it was, and so is the rename table.
    pub fn consume_function(&mut self, function: Function) -> (rebuilt: Result<Function, SsaError>)
        ensures
            match rebuilt {
                Ok(out) => renamed_function(old(self)@, function@) == FunctionRenaming::Ok(
                    (final(self)@.counter, out@),
                ),
                Err(error) => renamed_function(old(self)@, function@)
                    == FunctionRenaming::Err((final(self)@.counter, error)),
            },
            final(self)@.frames == old(self)@.frames,
            final(self)@.counter >= old(self)@.counter,
            versions_below(bound_names(old(self)@.frames), old(self)@.counter) && function_inputs_below(
                function@,
                old(self)@.counter,
            ) ==> match rebuilt {
                Ok(out) => function_single_assignment(bound_names(old(self)@.frames), out@),
                Err(_) => true,
            },
    {
        proof {
            if versions_below(bound_names(self@.frames), self@.counter) && function_inputs_below(
                function@,
                self@.counter,
            ) {
                theorem_single_assignment(self@, function@);
            }
        }
        let Function { annotations, call_type, identifier, input, output, output_type, block, finalize, span } =
            function;
        let block = match self.consume_body(&input, block) {
            Err(error) => {
                return Err(error.in_function(identifier.name));
            },
            Ok(block) => block,
        };
        let finalize = match finalize {
            None => None,
            Some(finalize) => {
                let Finalize {
                    identifier: finalize_identifier,
                    input: finalize_input,
                    output: finalize_output,
                    output_type: finalize_output_type,
                    block: finalize_block,
                    span: finalize_span,
                } = finalize;
                let finalize_block = match self.consume_body(&finalize_input, finalize_block) {
                    Err(error) => {
                        return Err(error.in_function(identifier.name));
                    },
                    Ok(block) => block,
                };
                Some(
                    Finalize {
                        identifier: finalize_identifier,
                        input: finalize_input,
                        output: finalize_output,
                        output_type: finalize_output_type,
                        block: finalize_block,
                        span: finalize_span,
                    },
                )
            },
        };
        Ok(Function { annotations, call_type, identifier, input, output, output_type, block, finalize, span })
    }
}

} // verus!
