//! Programs: what a program imports is rebuilt first, then its own scopes;
//! in a scope the structs first, then the functions. Every sequence keeps
//! its order and its names.
use crate::assigner::{RenameState, StaticSingleAssigner};
use crate::error::SsaError;
use crate::function::{renamed_function, FunctionRenaming};
use crate::record::normalized;
use crate::single_assignment::versions_below;
use crate::symbol::Symbol;
use crate::theorems::{bound_names, program_inputs_below, program_single_assignment,
    theorem_program_single_assignment};
use crate::tree::{
    import_views, Function, FunctionView, Import, ImportView, Program, ProgramScope, ProgramScopeView, ProgramView,
    Struct, StructView,
};
use leo_ast::ProgramId;
use vstd::prelude::*;

verus! {

/// What rebuilding the functions of a scope comes to.
pub type FunctionsRenaming = Result<(u64, Seq<(Symbol, FunctionView)>), (u64, SsaError)>;

/// What rebuilding a scope comes to.
pub type ScopeRenaming = Result<(u64, ProgramScopeView), (u64, SsaError)>;

/// What rebuilding the scopes of a program comes to.
pub type ScopesRenaming = Result<(u64, Seq<(ProgramId, ProgramScopeView)>), (u64, SsaError)>;

/// What rebuilding the imports of a program comes to.
pub type ImportsRenaming = Result<(u64, Seq<ImportView>), (u64, SsaError)>;

/// What rebuilding a program comes to: the count of versions after it and
/// the program it has become, or the count at the failure and the failure.
pub type ProgramRenaming = Result<(u64, ProgramView), (u64, SsaError)>;

/// The declarations rebuilt one by one, each under its name; the failure of
/// the first that fails.
pub open spec fn renamed_structs(structs: Seq<(Symbol, StructView)>) -> Result<Seq<(Symbol, StructView)>, SsaError>
    decreases structs.len(),
{
    if structs.len() == 0 {
        Ok(Seq::empty())
    } else {
        match renamed_structs(structs.drop_last()) {
            Err(error) => Err(error),
            Ok(front) => match normalized(structs.last().1) {
                Err(error) => Err(error),
                Ok(last) => Ok(front.push((structs.last().0, last))),
            },
        }
    }
}

/// The functions rebuilt in order, each under its name and from the version
/// count that the one before it has left; with them, the count after the last.
pub open spec fn renamed_functions(state: RenameState, functions: Seq<(Symbol, FunctionView)>) -> FunctionsRenaming
    decreases functions.len(),
{
    if functions.len() == 0 {
        Ok((state.counter, Seq::empty()))
    } else {
        match renamed_functions(state, functions.drop_last()) {
            Err(error) => Err(error),
            Ok((counter, front)) => match renamed_function(
                RenameState { frames: state.frames, counter },
                functions.last().1,
            ) {
                Err(error) => Err(error),
                Ok((counter, last)) => Ok((counter, front.push((functions.last().0, last)))),
            },
        }
    }
}

/// A scope rebuilt from `state`: its structs, then its functions; the
/// mappings and the rest as they were.
pub open spec fn renamed_scope(state: RenameState, scope: ProgramScopeView) -> ScopeRenaming {
    match renamed_structs(scope.structs) {
        Err(error) => Err((state.counter, error)),
        Ok(structs) => match renamed_functions(state, scope.functions) {
            Err(error) => Err(error),
            Ok((counter, functions)) => Ok((counter, ProgramScopeView { structs, functions, ..scope })),
        },
    }
}

/// The scopes rebuilt in order, each under its name.
pub open spec fn renamed_scopes(state: RenameState, scopes: Seq<(ProgramId, ProgramScopeView)>) -> ScopesRenaming
    decreases scopes.len(),
{
    if scopes.len() == 0 {
        Ok((state.counter, Seq::empty()))
    } else {
        match renamed_scopes(state, scopes.drop_last()) {
            Err(error) => Err(error),
            Ok((counter, front)) => match renamed_scope(
                RenameState { frames: state.frames, counter },
                scopes.last().1,
            ) {
                Err(error) => Err(error),
                Ok((counter, last)) => Ok((counter, front.push((scopes.last().0, last)))),
            },
        }
    }
}

/// The imports rebuilt in order, each under its name.
pub open spec fn renamed_imports(state: RenameState, imports: Seq<ImportView>) -> ImportsRenaming
    decreases imports,
{
    if imports.len() == 0 {
        Ok((state.counter, Seq::empty()))
    } else {
        match renamed_imports(state, imports.drop_last()) {
            Err(error) => Err(error),
            Ok((counter, front)) => match renamed_program(
                RenameState { frames: state.frames, counter },
                imports.last().program,
            ) {
                Err(error) => Err(error),
                Ok((counter, program)) => Ok(
                    (counter, front.push(ImportView { program, ..imports.last() })),
                ),
            },
        }
    }
}

/// A program rebuilt from `state`: what it imports, then its own scopes.
pub open spec fn renamed_program(state: RenameState, program: ProgramView) -> ProgramRenaming
    decreases program,
{
    match renamed_imports(state, program.imports) {
        Err(error) => Err(error),
        Ok((counter, imports)) => match renamed_scopes(
            RenameState { frames: state.frames, counter },
            program.program_scopes,
        ) {
            Err(error) => Err(error),
            Ok((counter, program_scopes)) => Ok((counter, ProgramView { imports, program_scopes })),
        },
    }
}

/// The structs of a scope, each as its view.
pub open spec fn struct_views(structs: Seq<(Symbol, Struct)>) -> Seq<(Symbol, StructView)> {
    structs.map_values(|entry: (Symbol, Struct)| (entry.0, entry.1@))
}

/// The functions of a scope, each as its view.
pub open spec fn function_views(functions: Seq<(Symbol, Function)>) -> Seq<(Symbol, FunctionView)> {
    functions.map_values(|entry: (Symbol, Function)| (entry.0, entry.1@))
}

/// The scopes of a program, each as its view.
pub open spec fn scope_views(scopes: Seq<(ProgramId, ProgramScope)>) -> Seq<(ProgramId, ProgramScopeView)> {
    scopes.map_values(|entry: (ProgramId, ProgramScope)| (entry.0, entry.1@))
}

/// Where a front part of the structs fails, the whole fails alike.
pub(crate) proof fn lemma_renamed_structs_fail_early(structs: Seq<(Symbol, StructView)>, n: int)
    requires
        0 <= n <= structs.len(),
        renamed_structs(structs.take(n)) is Err,
    ensures
        renamed_structs(structs) == renamed_structs(structs.take(n)),
    decreases structs.len() - n,
{
    if n < structs.len() {
        assert(structs.take(n + 1).drop_last() =~= structs.take(n));
        lemma_renamed_structs_fail_early(structs, n + 1);
    } else {
        assert(structs.take(n) =~= structs);
    }
}

/// Where a front part of the functions fails, the whole fails alike.
pub(crate) proof fn lemma_renamed_functions_fail_early(state: RenameState, functions: Seq<(Symbol,
    FunctionView)>, n: int)
    requires
        0 <= n <= functions.len(),
        renamed_functions(state, functions.take(n)) is Err,
    ensures
        renamed_functions(state, functions) == renamed_functions(state, functions.take(n)),
    decreases functions.len() - n,
{
    if n < functions.len() {
        assert(functions.take(n + 1).drop_last() =~= functions.take(n));
        lemma_renamed_functions_fail_early(state, functions, n + 1);
    } else {
        assert(functions.take(n) =~= functions);
    }
}

/// Where a front part of the scopes fails, the whole fails alike.
pub(crate) proof fn lemma_renamed_scopes_fail_early(state: RenameState, scopes: Seq<(ProgramId,
    ProgramScopeView)>, n: int)
    requires
        0 <= n <= scopes.len(),
        renamed_scopes(state, scopes.take(n)) is Err,
    ensures
        renamed_scopes(state, scopes) == renamed_scopes(state, scopes.take(n)),
    decreases scopes.len() - n,
{
    if n < scopes.len() {
        assert(scopes.take(n + 1).drop_last() =~= scopes.take(n));
        lemma_renamed_scopes_fail_early(state, scopes, n + 1);
    } else {
        assert(scopes.take(n) =~= scopes);
    }
}

/// Where a front part of the imports fails, the whole fails alike.
pub(crate) proof fn lemma_renamed_imports_fail_early(state: RenameState, imports: Seq<ImportView>, n: int)
    requires
        0 <= n <= imports.len(),
        renamed_imports(state, imports.take(n)) is Err,
    ensures
        renamed_imports(state, imports) == renamed_imports(state, imports.take(n)),
    decreases imports.len() - n,
{
    if n < imports.len() {
        assert(imports.take(n + 1).drop_last() =~= imports.take(n));
        lemma_renamed_imports_fail_early(state, imports, n + 1);
    } else {
        assert(imports.take(n) =~= imports);
    }
}

/// The views of imports are as many, and each is the view of its own.
pub(crate) proof fn lemma_import_views(imports: Seq<Import>)
    ensures
        import_views(imports).len() == imports.len(),
        forall|i: int| 0 <= i < imports.len() ==> (#[trigger] import_views(imports)[i]) == imports[i]@,
    decreases imports.len(),
{
    if imports.len() > 0 {
        let front = imports.drop_last();
        lemma_import_views(front);
        assert(import_views(imports) == import_views(front).push(imports.last()@));
        assert forall|i: int| 0 <= i < imports.len() implies (#[trigger] import_views(imports)[i]) == imports[i]@ by {
            if i < front.len() {
                assert(import_views(front)[i] == front[i]@);
            }
        }
    }
}

impl StaticSingleAssigner {
    /// Rebuilds the structs of a scope in order, each under its name.
    pub fn consume_structs(&self, structs: Vec<(Symbol, Struct)>)
        -> (rebuilt: Result<Vec<(Symbol, Struct)>, SsaError>)
        ensures
            match rebuilt {
                Ok(out) => renamed_structs(struct_views(structs@)) == Ok::<Seq<(Symbol, StructView)>, SsaError>(
                    struct_views(out@),
                ),
                Err(error) => renamed_structs(struct_views(structs@)) == Err::<Seq<(Symbol, StructView)>, SsaError>(
                    error,
                ),
            },
    {
        let ghost before = structs@;
        let ghost views = struct_views(before);
        let mut out: Vec<(Symbol, Struct)> = Vec::new();
        proof {
            assert(views.take(0) =~= Seq::empty());
            assert(struct_views(out@) =~= Seq::empty());
        }
        for entry in it: structs
            invariant
                it.seq() == before,
                views == struct_views(before),
                renamed_structs(views.take(it.index() as int)) == Ok::<Seq<(Symbol, StructView)>, SsaError>(
                    struct_views(out@),
                ),
        {
            let ghost k = it.index() as int;
            proof {
                assert(views.take(k + 1).drop_last() =~= views.take(k));
            }
            let (name, declaration) = entry;
            match self.consume_struct(declaration) {
                Err(error) => {
                    proof {
                        lemma_renamed_structs_fail_early(views, k + 1);
                    }
                    return Err(error);
                },
                Ok(rebuilt) => {
                    proof {
                        assert(struct_views(out@.push((name, rebuilt))) =~= struct_views(out@).push(
                            (name, rebuilt@),
                        ));
                    }
                    out.push((name, rebuilt));
                },
            }
        }
        proof {
            assert(views.take(views.len() as int) =~= views);
        }
        Ok(out)
    }

    /// Rebuilds the functions of a scope in order, each under its name.
    pub fn consume_functions(&mut self, functions: Vec<(Symbol, Function)>) -> (rebuilt: Result<
        Vec<(Symbol, Function)>,
        SsaError,
    >)
        ensures
            match rebuilt {
                Ok(out) => renamed_functions(old(self)@, function_views(functions@))
                    == FunctionsRenaming::Ok((final(self)@.counter, function_views(out@))),
                Err(error) => renamed_functions(old(self)@, function_views(functions@))
                    == FunctionsRenaming::Err((final(self)@.counter, error)),
            },
            final(self)@.frames == old(self)@.frames,
            final(self)@.counter >= old(self)@.counter,
    {
        let ghost before = functions@;
        let ghost views = function_views(before);
        let mut out: Vec<(Symbol, Function)> = Vec::new();
        proof {
            assert(views.take(0) =~= Seq::empty());
            assert(function_views(out@) =~= Seq::empty());
        }
        for entry in it: functions
            invariant
                it.seq() == before,
                views == function_views(before),
                renamed_functions(old(self)@, views.take(it.index() as int))
                    == FunctionsRenaming::Ok((self@.counter, function_views(out@))),
                self@.frames == old(self)@.frames,
                self@.counter >= old(self)@.counter,
        {
            let ghost k = it.index() as int;
            proof {
                assert(views.take(k + 1).drop_last() =~= views.take(k));
            }
            let (name, function) = entry;
            match self.consume_function(function) {
                Err(error) => {
                    proof {
                        lemma_renamed_functions_fail_early(old(self)@, views, k + 1);
                    }
                    return Err(error);
                },
                Ok(rebuilt) => {
                    proof {
                        assert(function_views(out@.push((name, rebuilt))) =~= function_views(out@).push(
                            (name, rebuilt@),
                        ));
                    }
                    out.push((name, rebuilt));
                },
            }
        }
        proof {
            assert(views.take(views.len() as int) =~= views);
        }
        Ok(out)
    }

    /// Rebuilds a scope: its structs, then its functions. The mappings, the
    /// name and the place in the source are handed on as they were, and so is
    /// the rename table.
    pub fn consume_program_scope(&mut self, scope: ProgramScope) -> (rebuilt: Result<ProgramScope, SsaError>)
        ensures
            match rebuilt {
                Ok(out) => renamed_scope(old(self)@, scope@) == ScopeRenaming::Ok(
                    (final(self)@.counter, out@),
                ),
                Err(error) => renamed_scope(old(self)@, scope@) == ScopeRenaming::Err((final(self)@.counter, error)),
            },
            final(self)@.frames == old(self)@.frames,
            final(self)@.counter >= old(self)@.counter,
    {
        let ProgramScope { program_id, structs, mappings, functions, span } = scope;
        let structs = match self.consume_structs(structs) {
            Err(error) => {
                return Err(error);
            },
            Ok(structs) => structs,
        };
        let functions = match self.consume_functions(functions) {
            Err(error) => {
                return Err(error);
            },
            Ok(functions) => functions,
        };
        Ok(ProgramScope { program_id, structs, mappings, functions, span })
    }

    /// Rebuilds a program: each program that it imports, to the end, before
    /// its own scopes. The rename table is afterwards what it was before.
    pub fn consume_program(&mut self, program: Program) -> (rebuilt: Result<Program, SsaError>)
        ensures
            match rebuilt {
                Ok(out) => renamed_program(old(self)@, program@) == ProgramRenaming::Ok(
                    (final(self)@.counter, out@),
                ),
                Err(error) => renamed_program(old(self)@, program@)
                    == ProgramRenaming::Err((final(self)@.counter, error)),
            },
            final(self)@.frames == old(self)@.frames,
            final(self)@.counter >= old(self)@.counter,
            versions_below(bound_names(old(self)@.frames), old(self)@.counter) && program_inputs_below(
                program@,
                old(self)@.counter,
            ) ==> match rebuilt {
                Ok(out) => program_single_assignment(bound_names(old(self)@.frames), out@),
                Err(_) => true,
            },
        decreases program,
    {
        proof {
            if versions_below(bound_names(self@.frames), self@.counter) && program_inputs_below(
                program@,
                self@.counter,
            ) {
                theorem_program_single_assignment(self@, program@);
            }
        }
        let Program { imports, program_scopes } = program;
        let ghost imports_before = imports@;
        let ghost import_views_before = import_views(imports_before);
        let mut rebuilt_imports: Vec<Import> = Vec::new();
        for import in it: imports
            invariant
                it.seq() == imports_before,
                import_views_before == import_views(imports_before),
                import_views_before == program@.imports,
                decreases_to!(program => imports_before),
                renamed_imports(old(self)@, import_views_before.take(it.index() as int))
                    == ImportsRenaming::Ok((self@.counter, import_views(rebuilt_imports@))),
                self@.frames == old(self)@.frames,
                self@.counter >= old(self)@.counter,
        {
            let ghost k = it.index() as int;
            proof {
                assert(decreases_to!(imports_before => imports_before[k]));
                lemma_import_views(imports_before);
                assert(import_views_before.take(k + 1).drop_last() =~= import_views_before.take(k));
            }
            let Import { name, program: imported, span } = import;
            proof {
                assert(import == imports_before[k]);
                assert(import_views_before.take(k + 1).last() == import@);
                assert(import@ == ImportView { name, program: imported@, span });
            }
            let ghost counter_before = self@.counter;
            match self.consume_program(imported) {
                Err(error) => {
                    proof {
                        lemma_renamed_imports_fail_early(old(self)@, import_views_before, k + 1);
                    }
                    return Err(error);
                },
                Ok(rebuilt) => {
                    let rebuilt_import = Import { name, program: rebuilt, span };
                    proof {
                        assert(rebuilt_imports@.push(rebuilt_import).drop_last() =~= rebuilt_imports@);
                        assert(rebuilt_import@ == ImportView { name, program: rebuilt@, span });
                        assert(import_views(rebuilt_imports@.push(rebuilt_import)) == import_views(
                            rebuilt_imports@,
                        ).push(rebuilt_import@));
                    }
                    rebuilt_imports.push(rebuilt_import);
                },
            }
        }
        proof {
            assert(import_views_before.take(import_views_before.len() as int) =~= import_views_before);
            lemma_import_views(imports_before);
        }
        let ghost after_imports = self@;
        let ghost scopes_before = program_scopes@;
        let ghost scope_views_before = scope_views(scopes_before);
        let mut rebuilt_scopes: Vec<(ProgramId, ProgramScope)> = Vec::new();
        proof {
            assert(scope_views_before.take(0) =~= Seq::empty());
            assert(scope_views(rebuilt_scopes@) =~= Seq::empty());
        }
        for entry in it: program_scopes
            invariant
                it.seq() == scopes_before,
                scope_views_before == scope_views(scopes_before),
                scope_views_before == program@.program_scopes,
                renamed_imports(old(self)@, program@.imports) == ImportsRenaming::Ok(
                    (after_imports.counter, import_views(rebuilt_imports@)),
                ),
                after_imports.frames == old(self)@.frames,
                renamed_scopes(after_imports, scope_views_before.take(it.index() as int))
                    == ScopesRenaming::Ok((self@.counter, scope_views(rebuilt_scopes@))),
                self@.frames == old(self)@.frames,
                self@.counter >= old(self)@.counter,
        {
            let ghost k = it.index() as int;
            proof {
                assert(scope_views_before.take(k + 1).drop_last() =~= scope_views_before.take(k));
            }
            let (program_id, scope) = entry;
            match self.consume_program_scope(scope) {
                Err(error) => {
                    proof {
                        lemma_renamed_scopes_fail_early(after_imports, scope_views_before, k + 1);
                    }
                    return Err(error);
                },
                Ok(rebuilt) => {
                    proof {
                        assert(scope_views(rebuilt_scopes@.push((program_id, rebuilt))) =~= scope_views(
                            rebuilt_scopes@,
                        ).push((program_id, rebuilt@)));
                    }
                    rebuilt_scopes.push((program_id, rebuilt));
                },
            }
        }
        proof {
            assert(scope_views_before.take(scope_views_before.len() as int) =~= scope_views_before);
        }
        Ok(Program { imports: rebuilt_imports, program_scopes: rebuilt_scopes })
    }

    /// Rebuilds a program with a pass made for it alone. Where no input of a
    /// function has a version above 0, as in a tree that no pass has seen, every
    /// function that comes out is in static single assignment form.
    pub fn do_pass(program: Program) -> (rebuilt: Result<Program, SsaError>)
        ensures
            match rebuilt {
                Ok(out) => renamed_program(RenameState::initial(), program@) is Ok && renamed_program(
                    RenameState::initial(),
                    program@,
                ).unwrap().1 == out@,
                Err(error) => renamed_program(RenameState::initial(), program@) matches Err((_, failure))
                    && failure == error,
            },
            program_inputs_below(program@, 0) ==> match rebuilt {
                Ok(out) => program_single_assignment(Set::empty(), out@),
                Err(_) => true,
            },
    {
        let mut assigner = StaticSingleAssigner::new();
        proof {
            assert(bound_names(assigner@.frames) =~= Set::<Symbol>::empty());
        }
        assigner.consume_program(program)
    }
}

} // verus!
