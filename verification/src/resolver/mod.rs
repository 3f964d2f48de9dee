//! Name resolution.
use vstd::prelude::*;

pub mod error;
pub mod table;
pub mod env;
pub mod scope;
pub mod prelude;
pub mod exports;
pub mod imports;
pub mod collect;
pub mod graph;
pub mod refs;
pub mod walk;
pub mod leaks;

pub use env::{DefKind, Exports, ModuleEnv, ModuleId, ResolvedRef, TopLevelDef, Visibility};
pub use error::{Namespace, ResolveError, ResolveErrorKind};
pub use refs::{References, Resolution};

use self::collect::{collect_top_level, decl_registered, defs_unique, visibility_agrees};
use self::env::{copy_strings, first_def};
use self::exports::{compute_exports, exports_exactly, list_exports};
use self::graph::{detect_cycles, edges_in_range, is_cycle};
use self::imports::{apply_import, builtin_prelude_exports, should_add_implicit_prelude, synthetic_prelude_import};
use self::leaks::check_private_leaks;
use self::prelude::PRELUDE_MODULE;
use self::table::keys_unique;
use self::walk::Walker;
use crate::ast::Module;
use crate::lexer::scan::text_is;
use crate::span::Span;
use crate::text::{join_strings, join_text, string_views};

verus! {

/// The resolution of a whole program: each input module with its
/// environment and the table of its reference sites.
#[derive(Debug)]
pub struct ResolvedProgram {
    pub modules: Vec<ResolvedModule>,
}

/// One module's resolution.
#[derive(Debug)]
pub struct ResolvedModule {
    pub id: ModuleId,
    pub ast: Module,
    pub env: ModuleEnv,
    /// Every reference site's span with what it resolves to.
    pub references: References,
}

/// A module's identity: its header's dotted name, or `Main` for a
/// script without a header.
pub open spec fn module_id_view(m: Module) -> Seq<Seq<char>> {
    match m.header {
        Some(h) => string_views(h.name.segments@),
        None => seq!["Main"@],
    }
}

/// The module's export list, if it has one.
pub open spec fn export_list_of(m: Module) -> Option<Vec<crate::ast::ExportItem>> {
    match m.header {
        Some(h) => h.exports,
        None => None,
    }
}

/// What a module with identity `id` and definitions `top` exports, as
/// `compute_exports` builds it: everything when there is no export
/// list, else what the list names.
pub open spec fn exports_match(m: Module, id: Seq<Seq<char>>, top: Seq<TopLevelDef>, ex: Exports) -> bool {
    match export_list_of(m) {
        Some(items) => exports_exactly(
            ex,
            id,
            |q: Seq<char>, ns: Namespace| list_exports(top, items@, q, ns),
        ),
        None => exports_exactly(ex, id, |q: Seq<char>, ns: Namespace| first_def(top, q, ns) is Some),
    }
}

/// The module environment's exports are those of its export list.
pub open spec fn exports_agree(m: Module, env: ModuleEnv) -> bool {
    exports_match(m, env.id@, env.top_level@, env.exports)
}

/// A module's environment as the first two phases leave it: its
/// identity, its definitions (each declared name registered once per
/// namespace) and their visibility.
pub open spec fn env_agrees(m: Module, env: ModuleEnv) -> bool {
    &&& env.id@ == module_id_view(m)
    &&& defs_unique(env.top_level@)
    &&& forall|j: int| 0 <= j < m.decls@.len() ==> decl_registered(env.top_level@, #[trigger] m.decls@[j])
    &&& visibility_agrees(m, env.top_level@)
}

/// The module's dotted name.
fn module_name(m: &Module) -> (r: String)
    ensures
        r@ == join_text(module_id_view(*m), "."@),
{
    match &m.header {
        Some(h) => join_strings(&h.name.segments, "."),
        None => {
            let r = String::from_str("Main");
            proof {
                reveal_strlit("Main");
                assert(join_text(seq!["Main"@], "."@) == "Main"@);
            }
            r
        },
    }
}

/// The module's identity.
fn module_id(m: &Module) -> (r: ModuleId)
    ensures
        r@ == module_id_view(*m),
{
    match &m.header {
        Some(h) => ModuleId::from_segments(h.name.segments.as_slice()),
        None => {
            let mut segs: Vec<String> = Vec::new();
            segs.push(String::from_str("Main"));
            assert(string_views(segs@) =~= seq!["Main"@]);
            ModuleId { segments: segs }
        },
    }
}

/// Where to point at a whole module: its header, or the module.
fn span_of_module(m: &Module) -> (r: Span)
    ensures
        r == match m.header {
            Some(h) => h.span,
            None => m.span,
        },
{
    match &m.header {
        Some(h) => h.span,
        None => m.span,
    }
}

/// The last module of the given name, as a table keyed by name keeps it.
fn module_index(names: &Vec<String>, name: &String) -> (r: Option<usize>)
    ensures
        r matches Some(i) ==> i < names@.len() && names@[i as int]@ == name@ && forall|j: int|
            i < j < names@.len() ==> names@[j]@ != name@,
        r is None ==> forall|j: int| 0 <= j < names@.len() ==> names@[j]@ != name@,
{
    let mut i = names.len();
    while i > 0
        invariant
            i <= names@.len(),
            forall|j: int| i <= j < names@.len() ==> names@[j]@ != name@,
        decreases i,
    {
        i = i - 1;
        if names[i].eq(name) {
            return Some(i);
        }
    }
    None
}

/// Import `k` of module `u` names neither the prelude nor any module
/// of the program.
pub open spec fn bad_import(ms: Seq<Module>, u: int, k: int) -> bool {
    &&& 0 <= u < ms.len()
    &&& 0 <= k < ms[u].imports@.len()
    &&& join_text(string_views(ms[u].imports@[k].name.segments@), "."@) != PRELUDE_MODULE@
    &&& forall|t: int|
        0 <= t < ms.len() ==> join_text(module_id_view(ms[t]), "."@) != join_text(
            string_views(ms[u].imports@[k].name.segments@),
            "."@,
        )
}

/// Some module imports a module that the program does not have.
pub open spec fn imports_unknown_module(ms: Seq<Module>) -> bool {
    exists|u: int, k: int| #[trigger] bad_import(ms, u, k)
}

/// Resolve a list of parsed modules together.
///
/// Each module's top-level definitions are collected and its exports
/// computed; imports are checked against the modules present and for
/// cycles, and applied (with the prelude imported implicitly unless a
/// module names it itself); then every body is walked and every
/// exported signature checked for private types. Errors of all modules
/// are gathered; the program resolves only when there are none.
pub fn resolve_program(modules: Vec<Module>) -> (r: Result<ResolvedProgram, Vec<ResolveError>>)
    ensures
        r matches Err(es) ==> es@.len() > 0,
        imports_unknown_module(modules@) ==> r is Err,
        r matches Ok(p) ==> p.modules@.len() == modules@.len() && forall|i: int|
            0 <= i < modules@.len() ==> {
                let rm = #[trigger] p.modules@[i];
                &&& rm.ast == modules@[i]
                &&& rm.id@ == module_id_view(modules@[i])
                &&& env_agrees(modules@[i], rm.env)
                &&& exports_agree(modules@[i], rm.env)
                &&& rm.references.wf()
            },
{
    let ghost input = modules@;
    let n = modules.len();
    let mut errors: Vec<ResolveError> = Vec::new();

    let mut names: Vec<String> = Vec::new();
    let mut ids: Vec<ModuleId> = Vec::new();
    let mut envs: Vec<ModuleEnv> = Vec::new();
    let mut all_exports: Vec<Exports> = Vec::new();
    let mut exports_ok: Vec<bool> = Vec::new();
    let mut i: usize = 0;
    while i < n
        invariant
            i <= n,
            n == modules@.len(),
            modules@ == input,
            names@.len() == i,
            ids@.len() == i,
            envs@.len() == i,
            all_exports@.len() == i,
            exports_ok@.len() == i,
            forall|k: int| 0 <= k < i ==> (#[trigger] names@[k])@ == join_text(module_id_view(input[k]), "."@),
            forall|k: int| 0 <= k < i ==> (#[trigger] ids@[k])@ == module_id_view(input[k]),
            forall|k: int| 0 <= k < i ==> env_agrees(input[k], #[trigger] envs@[k]),
            forall|k: int| 0 <= k < i ==> keys_unique((#[trigger] envs@[k]).qualified_aliases@),
            forall|k: int| 0 <= k < i ==> (#[trigger] envs@[k]).unqualified@.len() == 0,
            forall|k: int| 0 <= k < i ==> (#[trigger] all_exports@[k]).wf(),
            forall|k: int| 0 <= k < i && #[trigger] exports_ok@[k] ==> exports_match(
                input[k],
                envs@[k].id@,
                envs@[k].top_level@,
                all_exports@[k],
            ),
            errors@.len() == 0 ==> forall|k: int| 0 <= k < i ==> #[trigger] exports_ok@[k],
            forall|k: int| 0 <= k < i ==> (#[trigger] envs@[k]).id@ == ids@[k]@,
        decreases n - i,
    {
        let m = &modules[i];
        names.push(module_name(m));
        ids.push(module_id(m));
        let mut env = ModuleEnv::new(module_id(m));
        collect_top_level(m, &mut env, &mut errors);
        let export_list = match &m.header {
            Some(h) => match &h.exports {
                Some(items) => Some(items),
                None => None,
            },
            None => None,
        };
        assert(export_list matches Some(items) ==> export_list_of(*m) == Some(*items));
        assert(export_list is None ==> export_list_of(*m) is None);
        let ghost e_before = errors@.len();
        match compute_exports(&env, export_list) {
            Ok(ex) => {
                all_exports.push(ex);
                exports_ok.push(true);
            },
            Err(errs) => {
                let mut k: usize = 0;
                while k < errs.len()
                    invariant
                        k <= errs@.len(),
                        errs@.len() > 0,
                        errors@.len() >= e_before,
                        k > 0 ==> errors@.len() > 0,
                    decreases errs.len() - k,
                {
                    errors.push(errs[k].clone());
                    k = k + 1;
                }
                all_exports.push(Exports::empty());
                exports_ok.push(false);
            },
        }
        assert(keys_unique(env.qualified_aliases@));
        envs.push(env);
        i = i + 1;
    }
    let ghost n_after_collect = errors@.len();

    let mut imports_of: Vec<Vec<usize>> = Vec::new();
    let mut i: usize = 0;
    while i < n
        invariant
            i <= n,
            n == modules@.len(),
            names@.len() == n,
            imports_of@.len() == i,
            forall|u: int, k: int|
                0 <= u < i && 0 <= k < imports_of@[u]@.len() ==> (#[trigger] imports_of@[u]@[k]) < n,
            errors@.len() >= n_after_collect,
            modules@ == input,
            forall|k: int| 0 <= k < n ==> (#[trigger] names@[k])@ == join_text(module_id_view(input[k]), "."@),
            (exists|u: int, k: int| 0 <= u < i && #[trigger] bad_import(input, u, k)) ==> errors@.len() > 0,
        decreases n - i,
    {
        let m = &modules[i];
        let mut targets: Vec<usize> = Vec::new();
        let mut k: usize = 0;
        while k < m.imports.len()
            invariant
                k <= m.imports@.len(),
                names@.len() == n,
                n == modules@.len(),
                forall|x: int| 0 <= x < targets@.len() ==> (#[trigger] targets@[x]) < n,
                errors@.len() >= n_after_collect,
                i < n,
                modules@ == input,
                *m == input[i as int],
                forall|k: int| 0 <= k < n ==> (#[trigger] names@[k])@ == join_text(module_id_view(input[k]), "."@),
                (exists|u: int, k2: int| 0 <= u < i && #[trigger] bad_import(input, u, k2)) ==> errors@.len() > 0,
                (exists|k2: int| 0 <= k2 < k && #[trigger] bad_import(input, i as int, k2)) ==> errors@.len() > 0,
            decreases m.imports.len() - k,
        {
            let imp = &m.imports[k];
            let name = join_strings(&imp.name.segments, ".");
            if !text_is(&name, PRELUDE_MODULE) {
                match module_index(&names, &name) {
                    None => {
                        errors.push(
                            ResolveError::new(ResolveErrorKind::ImportOfUnknownModule { module: name }, imp.span),
                        );
                    },
                    Some(t) => {
                        if modules[t].header.is_none() {
                            errors.push(
                                ResolveError::new(
                                    ResolveErrorKind::MainSugarNotImportable { module: name },
                                    imp.span,
                                ),
                            );
                        } else {
                            targets.push(t);
                        }
                    },
                }
            }
            k = k + 1;
        }
        imports_of.push(targets);
        i = i + 1;
    }
    match detect_cycles(&imports_of) {
        Err(cycle) => {
            let mut cycle_names: Vec<String> = Vec::new();
            let mut k: usize = 0;
            while k < cycle.len()
                invariant
                    k <= cycle@.len(),
                    names@.len() == n,
                    forall|x: int| 0 <= x < cycle@.len() ==> (#[trigger] cycle@[x]) < n,
                decreases cycle.len() - k,
            {
                cycle_names.push(names[cycle[k]].clone());
                k = k + 1;
            }
            let first = cycle[0];
            let at = match module_index(&names, &names[first]) {
                Some(t) => t,
                None => first,
            };
            errors.push(
                ResolveError::new(
                    ResolveErrorKind::CyclicImports { cycle: cycle_names },
                    span_of_module(&modules[at]),
                ),
            );
        },
        Ok(()) => {},
    }

    let (prelude_id, prelude_exports) = builtin_prelude_exports();
    let mut done: Vec<ModuleEnv> = Vec::new();
    let mut i: usize = 0;
    while i < n
        invariant
            i <= n,
            n == modules@.len(),
            modules@ == input,
            names@.len() == n,
            ids@.len() == n,
            forall|k: int| 0 <= k < n ==> (#[trigger] ids@[k])@ == module_id_view(input[k]),
            all_exports@.len() == n,
            forall|k: int| 0 <= k < n ==> (#[trigger] all_exports@[k]).wf(),
            prelude_exports.wf(),
            envs@.len() == n - i,
            done@.len() == i,
            forall|k: int| 0 <= k < n - i ==> env_agrees(input[i + k], #[trigger] envs@[k]),
            forall|k: int| 0 <= k < n - i ==> keys_unique((#[trigger] envs@[k]).qualified_aliases@),
            forall|k: int| 0 <= k < i ==> env_agrees(input[k], #[trigger] done@[k]),
            forall|k: int| 0 <= k < i ==> keys_unique((#[trigger] done@[k]).qualified_aliases@),
            forall|k: int| 0 <= k < n - i ==> (#[trigger] envs@[k]).id@ == ids@[i + k]@,
            forall|k: int| 0 <= k < i ==> (#[trigger] done@[k]).id@ == ids@[k]@,
            exports_ok@.len() == n,
            forall|k: int| 0 <= k < n && #[trigger] exports_ok@[k] ==> exports_match(
                input[k],
                ids@[k]@,
                if k < i { done@[k].top_level@ } else { envs@[k - i].top_level@ },
                all_exports@[k],
            ),
            errors@.len() >= n_after_collect,
            imports_unknown_module(input) ==> errors@.len() > 0,
            n_after_collect == 0 ==> forall|k: int| 0 <= k < n ==> #[trigger] exports_ok@[k],
        decreases n - i,
    {
        let mut env = envs.remove(0);
        let m = &modules[i];
        let ghost e0 = env;
        if should_add_implicit_prelude(m) {
            let synth = synthetic_prelude_import(Span::empty(0));
            match apply_import(&mut env, &synth, prelude_id.clone(), &prelude_exports) {
                Err(errs) => {
                    let mut k: usize = 0;
                    while k < errs.len()
                        invariant
                            k <= errs@.len(),
                            errors@.len() >= n_after_collect,
                            imports_unknown_module(input) ==> errors@.len() > 0,
                        decreases errs.len() - k,
                    {
                        errors.push(errs[k].clone());
                        k = k + 1;
                    }
                },
                Ok(()) => {},
            }
        }
        let mut k: usize = 0;
        while k < m.imports.len()
            invariant
                k <= m.imports@.len(),
                names@.len() == n,
                ids@.len() == n,
                all_exports@.len() == n,
                forall|x: int| 0 <= x < n ==> (#[trigger] all_exports@[x]).wf(),
                prelude_exports.wf(),
                keys_unique(env.qualified_aliases@),
                env.id == e0.id,
                env.top_level == e0.top_level,
                env.exports == e0.exports,
                errors@.len() >= n_after_collect,
                imports_unknown_module(input) ==> errors@.len() > 0,
            decreases m.imports.len() - k,
        {
            let imp = &m.imports[k];
            let name = join_strings(&imp.name.segments, ".");
            let res = if text_is(&name, PRELUDE_MODULE) {
                apply_import(&mut env, imp, prelude_id.clone(), &prelude_exports)
            } else {
                match module_index(&names, &name) {
                    Some(t) => apply_import(&mut env, imp, ids[t].clone(), &all_exports[t]),
                    None => Ok(()),
                }
            };
            match res {
                Err(errs) => {
                    let mut x: usize = 0;
                    while x < errs.len()
                        invariant
                            x <= errs@.len(),
                            errors@.len() >= n_after_collect,
                            imports_unknown_module(input) ==> errors@.len() > 0,
                        decreases errs.len() - x,
                    {
                        errors.push(errs[x].clone());
                        x = x + 1;
                    }
                },
                Ok(()) => {},
            }
            k = k + 1;
        }
        let own = env.id.display();
        let own_id = env.id.clone();
        env.add_qualifier(own, own_id);
        done.push(env);
        i = i + 1;
    }

    let ghost n_after_imports = errors@.len();
    let mut modules = modules;
    let mut resolved: Vec<ResolvedModule> = Vec::new();
    let mut i: usize = 0;
    while i < n
        invariant
            i <= n,
            input.len() == n,
            modules@ == input.skip(i as int),
            done@.len() == n - i,
            all_exports@.len() == n - i,
            exports_ok@.len() == n,
            resolved@.len() == i,
            forall|k: int| 0 <= k < n - i ==> env_agrees(input[i + k], #[trigger] done@[k]),
            forall|k: int| 0 <= k < n - i ==> keys_unique((#[trigger] done@[k]).qualified_aliases@),
            forall|k: int| 0 <= k < n - i && #[trigger] exports_ok@[i + k] ==> exports_match(
                input[i + k],
                done@[k].id@,
                done@[k].top_level@,
                all_exports@[k],
            ),
            forall|k: int| 0 <= k < i ==> {
                let rm = #[trigger] resolved@[k];
                &&& rm.ast == input[k]
                &&& rm.id@ == module_id_view(input[k])
                &&& env_agrees(input[k], rm.env)
                &&& (exports_ok@[k] ==> exports_agree(input[k], rm.env))
                &&& rm.references.wf()
            },
            errors@.len() >= n_after_collect,
            imports_unknown_module(input) ==> errors@.len() > 0,
            n_after_collect == 0 ==> forall|k: int| 0 <= k < n ==> #[trigger] exports_ok@[k],
        decreases n - i,
    {
        let mut env = done.remove(0);
        env.exports = all_exports.remove(0);
        let module = modules.remove(0);
        proof {
            assert(modules@ =~= input.skip(i + 1));
            assert(module == input[i as int]);
        }
        let mut walker = Walker::new(&env);
        walker.walk_module(&module);
        let Walker { references, errors: found, .. } = walker;
        let mut k: usize = 0;
        while k < found.len()
            invariant
                k <= found@.len(),
                errors@.len() >= n_after_collect,
                imports_unknown_module(input) ==> errors@.len() > 0,
            decreases found.len() - k,
        {
            errors.push(found[k].clone());
            k = k + 1;
        }
        let mut leaks: Vec<ResolveError> = Vec::new();
        check_private_leaks(&module, &env, &mut leaks);
        let mut k: usize = 0;
        while k < leaks.len()
            invariant
                k <= leaks@.len(),
                errors@.len() >= n_after_collect,
                imports_unknown_module(input) ==> errors@.len() > 0,
            decreases leaks.len() - k,
        {
            errors.push(leaks[k].clone());
            k = k + 1;
        }
        let id = env.id.clone();
        resolved.push(ResolvedModule { id, ast: module, env, references });
        i = i + 1;
    }
    if errors.len() == 0 {
        Ok(ResolvedProgram { modules: resolved })
    } else {
        Err(errors)
    }
}

/// Resolve a single module on its own.
pub fn resolve(module: Module) -> (r: Result<ResolvedModule, Vec<ResolveError>>)
    ensures
        r matches Err(es) ==> es@.len() > 0,
        r matches Ok(rm) ==> {
            &&& rm.ast == module
            &&& rm.id@ == module_id_view(module)
            &&& env_agrees(module, rm.env)
            &&& exports_agree(module, rm.env)
            &&& rm.references.wf()
        },
        imports_unknown_module(seq![module]) ==> r is Err,
{
    let ghost m = module;
    let mut v: Vec<Module> = Vec::new();
    v.push(module);
    proof {
        assert(v@ =~= seq![m]);
    }
    match resolve_program(v) {
        Ok(mut program) => {
            let rm = program.modules.remove(0);
            Ok(rm)
        },
        Err(es) => Err(es),
    }
}

} // verus!
