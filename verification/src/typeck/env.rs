//! The type environment and the class environment.
//!
//! Globals are keyed by module and name, so that re-exports and aliased
//! imports share one entry. Locals live in a stack of frames, the
//! innermost last. Classes record their superclasses and the schemes of
//! their methods; instances record their head type and context.
use vstd::prelude::*;

use super::ty::{Constraint, Scheme, Ty, TyVar};
use crate::resolver::table::{
    keys_unique, lemma_table_get_some, table_get, table_insert, table_keys, table_lookup,
};
use crate::text::string_views;

verus! {

/// A global's identity: its module and its name.
#[derive(Debug, PartialEq, Eq, Hash)]
pub struct GlobalId {
    pub module: String,
    pub name: String,
}

impl GlobalId {
    /// The global `name` of `module`.
    pub fn new(module: String, name: String) -> (r: GlobalId)
        ensures
            r.module == module,
            r.name == name,
    {
        GlobalId { module, name }
    }
}

impl View for Scheme {
    type V = Scheme;

    open spec fn view(&self) -> Scheme {
        *self
    }
}

impl View for TyVar {
    type V = TyVar;

    open spec fn view(&self) -> TyVar {
        *self
    }
}

/// A data constructor: the type it builds, its scheme, and how many
/// arguments it takes.
#[derive(Debug)]
pub struct CtorInfo {
    pub data_type: String,
    pub scheme: Scheme,
    pub arity: usize,
}

/// A data type: its name, parameters, constructors, and the module that
/// declares it.
#[derive(Debug)]
pub struct DataInfo {
    pub name: String,
    pub params: Vec<String>,
    pub ctor_names: Vec<String>,
    pub home_module: String,
}

impl View for DataInfo {
    type V = DataInfo;

    open spec fn view(&self) -> DataInfo {
        *self
    }
}

impl View for CtorInfo {
    type V = CtorInfo;

    open spec fn view(&self) -> CtorInfo {
        *self
    }
}

/// A type alias: its parameters and the type it stands for, in which the
/// parameters appear as variables of id 0 named after them.
#[derive(Debug)]
pub struct AliasInfo {
    pub name: String,
    pub params: Vec<String>,
    pub body: Ty,
}

impl View for AliasInfo {
    type V = AliasInfo;

    open spec fn view(&self) -> AliasInfo {
        *self
    }
}

/// A class: its variable, superclasses, method schemes (without the
/// class's own constraint), the methods with defaults, and the module
/// that declares it.
#[derive(Debug)]
pub struct ClassInfo {
    pub name: String,
    pub type_var: String,
    pub superclasses: Vec<String>,
    pub methods: Vec<(String, Scheme)>,
    pub defaults: Vec<String>,
    pub home_module: String,
}

impl View for ClassInfo {
    type V = ClassInfo;

    open spec fn view(&self) -> ClassInfo {
        *self
    }
}

/// An instance: the class, its context, its head type with the head's
/// variables, and the methods it defines.
#[derive(Debug)]
pub struct InstanceInfo {
    pub class: String,
    pub context: Vec<Constraint>,
    pub head: Ty,
    pub vars: Vec<TyVar>,
    pub methods: Vec<String>,
}

/// The classes by name, and the instances in the order registered.
#[derive(Debug)]
pub struct ClassEnv {
    pub classes: Vec<(String, ClassInfo)>,
    pub instances: Vec<InstanceInfo>,
}

/// The superclasses of class `c` by name, none when it is unknown.
pub open spec fn supers_of(classes: Seq<(String, ClassInfo)>, c: Seq<char>) -> Seq<Seq<char>> {
    match table_get(classes, c) {
        Some(info) => string_views(info.superclasses@),
        None => Seq::empty(),
    }
}

/// Entry `j` of `out` is a superclass of an earlier entry.
pub open spec fn has_parent(classes: Seq<(String, ClassInfo)>, out: Seq<String>, j: int) -> bool {
    exists|i: int| 0 <= i < j && supers_of(classes, #[trigger] out[i]@).contains(out[j]@)
}

/// Class `c` is a superclass of some entry of `out`.
pub open spec fn below(classes: Seq<(String, ClassInfo)>, out: Seq<String>, c: Seq<char>) -> bool {
    exists|i: int| 0 <= i < out.len() && supers_of(classes, #[trigger] out[i]@).contains(c)
}

/// The instances of class `class`, in order.
pub open spec fn instances_of(insts: Seq<InstanceInfo>, class: Seq<char>) -> Seq<InstanceInfo> {
    insts.filter(|i: InstanceInfo| i.class@ == class)
}

impl ClassEnv {
    /// One entry per class name.
    pub open spec fn wf(&self) -> bool {
        keys_unique(self.classes@)
    }

    /// No classes, no instances.
    pub fn new() -> (r: ClassEnv)
        ensures
            r.wf(),
            r.classes@.len() == 0,
            r.instances@.len() == 0,
    {
        ClassEnv { classes: Vec::new(), instances: Vec::new() }
    }

    /// Register a class under its name, replacing an earlier one.
    pub fn register_class(&mut self, c: ClassInfo)
        requires
            old(self).wf(),
        ensures
            final(self).wf(),
            final(self).instances@ == old(self).instances@,
            forall|q: Seq<char>|
                #[trigger] table_get(final(self).classes@, q) == if q == c.name@ {
                    Some(c)
                } else {
                    table_get(old(self).classes@, q)
                },
            !table_keys(old(self).classes@).contains(c.name@) ==> (final(self).classes@.drop_last()
                == old(self).classes@ && final(self).classes@.len() == old(self).classes@.len() + 1),
            !table_keys(old(self).classes@).contains(c.name@) ==> (final(self).classes@.last().1 == c
                && final(self).classes@.last().0@ == c.name@),
    {
        let key = c.name.clone();
        table_insert(&mut self.classes, key, c);
    }

    /// The class named `name`.
    pub fn class(&self, name: &str) -> (r: Option<&ClassInfo>)
        requires
            self.wf(),
        ensures
            r matches Some(c) ==> table_get(self.classes@, name@) == Some(*c),
            r is None ==> table_get(self.classes@, name@) is None,
    {
        table_lookup(&self.classes, name)
    }

    /// Register an instance after the others.
    pub fn register_instance(&mut self, i: InstanceInfo)
        ensures
            final(self).classes@ == old(self).classes@,
            final(self).instances@ == old(self).instances@.push(i),
    {
        self.instances.push(i);
    }

    /// The instances of class `class`, in the order registered.
    pub fn instances_for(&self, class: &str) -> (r: Vec<&InstanceInfo>)
        ensures
            r@.map_values(|x: &InstanceInfo| *x) == instances_of(self.instances@, class@),
    {
        let mut out: Vec<&InstanceInfo> = Vec::new();
        let mut i: usize = 0;
        let ghost all = self.instances@;
        while i < self.instances.len()
            invariant
                all == self.instances@,
                i <= all.len(),
                out@.map_values(|x: &InstanceInfo| *x) == instances_of(all.take(i as int), class@),
            decreases self.instances.len() - i,
        {
            let ghost before = out@;
            proof {
                assert(all.take(i + 1) =~= all.take(i as int).push(all[i as int]));
                all.take(i as int).lemma_filter_push(
                    all[i as int],
                    |x: InstanceInfo| x.class@ == class@,
                );
            }
            if crate::lexer::scan::text_is(&self.instances[i].class, class) {
                out.push(&self.instances[i]);
                assert(out@.map_values(|x: &InstanceInfo| *x) =~= before.map_values(
                    |x: &InstanceInfo| *x,
                ).push(all[i as int]));
            }
            i = i + 1;
        }
        assert(all.take(all.len() as int) =~= all);
        out
    }

    /// The class and all its superclasses, transitively, each once: the
    /// class first, then each entry a superclass of an earlier one.
    pub fn super_closure(&self, class: &str) -> (r: Vec<String>)
        requires
            self.wf(),
        ensures
            r@.len() > 0,
            r@[0]@ == class@,
            forall|j: int| 0 < j < r@.len() ==> #[trigger] has_parent(self.classes@, r@, j),
            forall|i: int, s: Seq<char>|
                0 <= i < r@.len() && #[trigger] supers_of(self.classes@, r@[i]@).contains(s) ==> string_views(r@).contains(s),
            forall|i: int, j: int| 0 <= i < j < r@.len() ==> (#[trigger] r@[i])@ != (#[trigger] r@[j])@,
    {
        let ghost keys = table_keys(self.classes@).to_set();
        let mut out: Vec<String> = Vec::new();
        let mut stack: Vec<String> = Vec::new();
        stack.push(String::from_str(class));
        let ghost mut started = false;
        while stack.len() > 0
            invariant
                self.wf(),
                keys == table_keys(self.classes@).to_set(),
                !started ==> out@.len() == 0 && stack@.len() == 1 && stack@[0]@ == class@,
                started ==> out@.len() > 0 && out@[0]@ == class@,
                forall|j: int| 0 < j < out@.len() ==> #[trigger] has_parent(self.classes@, out@, j),
                started ==> forall|k: int| 0 <= k < stack@.len() ==> below(self.classes@, out@, #[trigger] stack@[k]@),
                forall|i: int, s: Seq<char>|
                    0 <= i < out@.len() && #[trigger] supers_of(self.classes@, out@[i]@).contains(s)
                        ==> string_views(out@).contains(s) || string_views(stack@).contains(s),
                forall|i: int, j: int| 0 <= i < j < out@.len() ==> (#[trigger] out@[i])@ != (#[trigger] out@[j])@,
            decreases keys.difference(string_views(out@).to_set()).len(), stack@.len(),
        {
            let ghost stack0 = stack@;
            let ghost out0 = out@;
            let c = stack.pop().unwrap();
            proof {
                assert(stack0 =~= stack@.push(c));
                assert forall|s: Seq<char>| string_views(stack0).contains(s) && s != c@ implies string_views(stack@).contains(s) by {
                    let k = choose|k: int| 0 <= k < stack0.len() && string_views(stack0)[k] == s;
                    assert(k < stack@.len());
                    assert(string_views(stack@)[k] == s);
                }
            }
            let mut seen = false;
            let mut k: usize = 0;
            while k < out.len()
                invariant
                    k <= out@.len(),
                    seen == exists|i: int| 0 <= i < k && out@[i]@ == c@,
                decreases out.len() - k,
            {
                if out[k].eq(&c) {
                    seen = true;
                }
                k = k + 1;
            }
            if seen {
                proof {
                    let i = choose|i: int| 0 <= i < out@.len() && out@[i]@ == c@;
                    assert(string_views(out@)[i] == c@);
                    assert(started);
                    assert(out@ == out0);
                    assert(stack@.len() < stack0.len());
                    assert forall|k2: int| 0 <= k2 < stack@.len() implies below(self.classes@, out@, #[trigger] stack@[k2]@) by {
                        assert(stack@[k2] == stack0[k2]);
                    }
                }
                continue;
            }
            let ghost parent = if started {
                choose|i: int| 0 <= i < out0.len() && supers_of(self.classes@, #[trigger] out0[i]@).contains(c@)
            } else {
                0
            };
            proof {
                if started {
                    assert(stack0[stack0.len() - 1] == c);
                }
            }
            let ghost stack1 = stack@;
            match self.class(c.as_str()) {
                Some(info) => {
                    let mut m: usize = 0;
                    while m < info.superclasses.len()
                        invariant
                            m <= info.superclasses@.len(),
                            stack@.len() == stack1.len() + m,
                            forall|x: int| 0 <= x < stack1.len() ==> stack@[x] == stack1[x],
                            forall|x: int| 0 <= x < m ==> stack@[stack1.len() + x]@ == info.superclasses@[x]@,
                        decreases info.superclasses.len() - m,
                    {
                        stack.push(info.superclasses[m].clone());
                        m = m + 1;
                    }
                },
                None => {},
            }
            let ghost pushed = supers_of(self.classes@, c@);
            proof {
                lemma_table_get_some_supers(self.classes@, c@);
                assert(stack@.len() == stack1.len() + pushed.len());
                assert forall|x: int| 0 <= x < pushed.len() implies stack@[stack1.len() + x]@ == pushed[x] by {}
            }
            out.push(c);
            proof {
                let o = out@;
                let cv = o[o.len() - 1]@;
                assert(cv == c@);
                assert(string_views(o).to_set() =~= string_views(out0).to_set().insert(c@)) by {
                    assert forall|x: Seq<char>| #[trigger] string_views(o).to_set().contains(x) <==> string_views(out0).to_set().insert(c@).contains(x) by {
                        if string_views(o).contains(x) {
                            let j = choose|j: int| 0 <= j < o.len() && string_views(o)[j] == x;
                            if j < out0.len() {
                                assert(string_views(out0)[j] == x);
                            }
                        }
                        if string_views(out0).contains(x) {
                            let j = choose|j: int| 0 <= j < out0.len() && string_views(out0)[j] == x;
                            assert(string_views(o)[j] == x);
                        }
                        if x == c@ {
                            assert(string_views(o)[o.len() - 1] == x);
                        }
                    }
                }
                assert(!string_views(out0).to_set().contains(c@)) by {
                    if string_views(out0).contains(c@) {
                        let j = choose|j: int| 0 <= j < out0.len() && string_views(out0)[j] == c@;
                        assert(out0[j]@ == c@);
                    }
                }
                if keys.contains(c@) {
                    keys.lemma_set_insert_diff_decreases(string_views(out0).to_set(), c@);
                } else {
                    assert(keys.difference(string_views(o).to_set()) =~= keys.difference(
                        string_views(out0).to_set(),
                    ));
                    lemma_table_get_some(self.classes@, c@);
                    if table_get(self.classes@, c@) is Some {
                        let i = choose|i: int| 0 <= i < self.classes@.len() && self.classes@[i].0@ == c@;
                        assert(table_keys(self.classes@)[i] == c@);
                    }
                    assert(pushed.len() == 0);
                    assert(stack@.len() < stack0.len());
                }
                assert forall|j: int| 0 < j < o.len() implies #[trigger] has_parent(self.classes@, o, j) by {
                    if j < out0.len() {
                        assert(has_parent(self.classes@, out0, j));
                        let i = choose|i: int| 0 <= i < j && supers_of(self.classes@, #[trigger] out0[i]@).contains(out0[j]@);
                        assert(o[i] == out0[i] && o[j] == out0[j]);
                        assert(supers_of(self.classes@, o[i]@).contains(o[j]@));
                    } else {
                        assert(started);
                        assert(o[parent] == out0[parent]);
                        assert(supers_of(self.classes@, o[parent]@).contains(o[j]@));
                    }
                }
                assert forall|k2: int| 0 <= k2 < stack@.len() implies below(self.classes@, o, #[trigger] stack@[k2]@) by {
                    if k2 < stack1.len() {
                        assert(stack@[k2] == stack0[k2]);
                        assert(started);
                        assert(below(self.classes@, out0, stack0[k2]@));
                        let i = choose|i: int| 0 <= i < out0.len() && supers_of(self.classes@, #[trigger] out0[i]@).contains(stack0[k2]@);
                        assert(o[i] == out0[i]);
                        assert(supers_of(self.classes@, o[i]@).contains(stack@[k2]@));
                    } else {
                        let x = k2 - stack1.len();
                        assert(stack@[k2]@ == pushed[x]);
                        assert(supers_of(self.classes@, o[o.len() - 1]@).contains(stack@[k2]@));
                    }
                }
                assert forall|i: int, sv: Seq<char>|
                    0 <= i < o.len() && #[trigger] supers_of(self.classes@, o[i]@).contains(sv) implies string_views(o).contains(sv) || string_views(stack@).contains(sv) by {
                    if i < out0.len() {
                        assert(o[i] == out0[i]);
                        if string_views(out0).contains(sv) {
                            let j = choose|j: int| 0 <= j < out0.len() && string_views(out0)[j] == sv;
                            assert(string_views(o)[j] == sv);
                        } else if sv == c@ {
                            assert(string_views(o)[o.len() - 1] == sv);
                        } else {
                            let k2 = choose|k2: int| 0 <= k2 < stack1.len() && string_views(stack1)[k2] == sv;
                            assert(string_views(stack@)[k2] == sv);
                        }
                    } else {
                        let x = choose|x: int| 0 <= x < pushed.len() && pushed[x] == sv;
                        assert(string_views(stack@)[stack1.len() + x] == sv);
                    }
                }
                assert forall|a: int, b: int| 0 <= a < b < o.len() implies (#[trigger] o[a])@ != (#[trigger] o[b])@ by {
                    if b == o.len() - 1 {
                        assert(o[a] == out0[a]);
                    } else {
                        assert(o[a] == out0[a] && o[b] == out0[b]);
                    }
                }
                started = true;
            }
        }
        proof {
            assert(started);
        }
        out
    }
}


/// The superclasses of a class with an entry are those of the entry.
proof fn lemma_table_get_some_supers(classes: Seq<(String, ClassInfo)>, c: Seq<char>)
    ensures
        supers_of(classes, c) == match table_get(classes, c) {
            Some(info) => string_views(info.superclasses@),
            None => Seq::empty(),
        },
{
}


/// The binding of `k` in a stack of frames, innermost (last) first.
pub open spec fn frames_get<V: View>(fs: Seq<Vec<(String, V)>>, k: Seq<char>) -> Option<V::V>
    decreases fs.len(),
{
    if fs.len() == 0 {
        None
    } else {
        match table_get(fs.last()@, k) {
            Some(v) => Some(v),
            None => frames_get(fs.drop_last(), k),
        }
    }
}

/// Every frame has one entry per name.
pub open spec fn frames_wf<V>(fs: Seq<Vec<(String, V)>>) -> bool {
    forall|i: int| 0 <= i < fs.len() ==> keys_unique(#[trigger] fs[i]@)
}

/// The binding of `k` in the frames, innermost first.
fn frames_lookup<'a, V: View>(fs: &'a Vec<Vec<(String, V)>>, k: &str) -> (r: Option<&'a V>)
    requires
        frames_wf(fs@),
    ensures
        r matches Some(v) ==> frames_get(fs@, k@) == Some(v@),
        r is None ==> frames_get(fs@, k@) is None,
{
    let mut i = fs.len();
    assert(fs@.take(fs@.len() as int) =~= fs@);
    while i > 0
        invariant
            i <= fs@.len(),
            frames_wf(fs@),
            frames_get(fs@, k@) == frames_get(fs@.take(i as int), k@),
        decreases i,
    {
        let ghost pre = fs@.take(i as int);
        assert(pre.drop_last() =~= fs@.take(i - 1));
        assert(pre.last() == fs@[i - 1]);
        assert(keys_unique(fs@[i - 1]@));
        match table_lookup(&fs[i - 1], k) {
            Some(v) => {
                return Some(v);
            },
            None => {},
        }
        i = i - 1;
    }
    None
}

/// Bind `k` to `v` in the innermost frame; with no frame open, open one.
fn frames_bind<V: View>(fs: &mut Vec<Vec<(String, V)>>, k: String, v: V)
    requires
        frames_wf(old(fs)@),
    ensures
        frames_wf(final(fs)@),
        frames_get(final(fs)@, k@) == Some(v@),
        forall|q: Seq<char>| q != k@ ==> #[trigger] frames_get(final(fs)@, q) == frames_get(old(fs)@, q),
        final(fs)@.len() == if old(fs)@.len() > 0 {
            old(fs)@.len()
        } else {
            1
        },
        old(fs)@.len() > 0 ==> final(fs)@.drop_last() == old(fs)@.drop_last(),
{
    let ghost f0 = fs@;
    let ghost kv = k@;
    let ghost vv = v@;
    let mut top = match fs.pop() {
        Some(t) => t,
        None => Vec::new(),
    };
    let ghost t0 = top@;
    proof {
        if f0.len() > 0 {
            assert(fs@ =~= f0.drop_last());
            assert(keys_unique(f0[f0.len() - 1]@));
        }
    }
    table_insert(&mut top, k, v);
    fs.push(top);
    proof {
        let f = fs@;
        assert(f.drop_last() =~= f0.drop_last() || f0.len() == 0);
        assert forall|i: int| 0 <= i < f.len() implies keys_unique(#[trigger] f[i]@) by {
            if i < f.len() - 1 {
                assert(f[i] == f0[i]);
            }
        }
        assert(table_get(f.last()@, kv) == Some(vv));
        assert forall|q: Seq<char>| q != kv implies #[trigger] frames_get(f, q) == frames_get(f0, q) by {
            assert(table_get(f.last()@, q) == table_get(t0, q));
            if f0.len() > 0 {
                assert(f.drop_last() =~= f0.drop_last());
            } else {
                assert(f.drop_last() =~= f0);
                assert(t0.len() == 0);
            }
        }
    }
}

/// Entry `id` of the globals, by module and name.
pub open spec fn globals_get(gs: Seq<(GlobalId, Scheme)>, module: Seq<char>, name: Seq<char>) -> Option<Scheme>
    decreases gs.len(),
{
    if gs.len() == 0 {
        None
    } else if gs.last().0.module@ == module && gs.last().0.name@ == name {
        Some(gs.last().1)
    } else {
        globals_get(gs.drop_last(), module, name)
    }
}

/// No global has two entries.
pub open spec fn globals_unique(gs: Seq<(GlobalId, Scheme)>) -> bool {
    forall|i: int, j: int|
        0 <= i < j < gs.len() ==> !((#[trigger] gs[i]).0.module@ == (#[trigger] gs[j]).0.module@
            && gs[i].0.name@ == gs[j].0.name@)
}

/// Globals, locals, data types, constructors, aliases, type-variable
/// scopes and type-constructor arities.
#[derive(Debug)]
pub struct TypeEnv {
    pub globals: Vec<(GlobalId, Scheme)>,
    pub locals: Vec<Vec<(String, Scheme)>>,
    pub datas: Vec<(String, DataInfo)>,
    pub ctors: Vec<(String, CtorInfo)>,
    pub aliases: Vec<(String, AliasInfo)>,
    pub type_locals: Vec<Vec<(String, TyVar)>>,
    pub type_kinds: Vec<(String, u32)>,
}

impl TypeEnv {
    /// Every table and frame has one entry per key.
    pub open spec fn wf(&self) -> bool {
        &&& globals_unique(self.globals@)
        &&& frames_wf(self.locals@)
        &&& frames_wf(self.type_locals@)
        &&& keys_unique(self.datas@)
        &&& keys_unique(self.ctors@)
        &&& keys_unique(self.aliases@)
        &&& keys_unique(self.type_kinds@)
    }

    /// An empty environment.
    pub fn new() -> (r: TypeEnv)
        ensures
            r.wf(),
            r.globals@.len() == 0,
            r.locals@.len() == 0,
            r.datas@.len() == 0,
            r.ctors@.len() == 0,
            r.aliases@.len() == 0,
            r.type_locals@.len() == 0,
            r.type_kinds@.len() == 0,
    {
        TypeEnv {
            globals: Vec::new(),
            locals: Vec::new(),
            datas: Vec::new(),
            ctors: Vec::new(),
            aliases: Vec::new(),
            type_locals: Vec::new(),
            type_kinds: Vec::new(),
        }
    }

    /// Open a frame of locals.
    pub fn push_locals(&mut self)
        requires
            old(self).wf(),
        ensures
            final(self).wf(),
            final(self).locals@.len() == old(self).locals@.len() + 1,
            final(self).locals@.drop_last() == old(self).locals@,
            final(self).locals@.last()@.len() == 0,
            final(self).globals == old(self).globals,
            final(self).type_locals == old(self).type_locals,
    {
        self.locals.push(Vec::new());
        proof {
            assert(self.locals@.drop_last() =~= old(self).locals@);
            assert forall|i: int| 0 <= i < self.locals@.len() implies keys_unique(#[trigger] self.locals@[i]@) by {
                if i < old(self).locals@.len() {
                    assert(self.locals@[i] == old(self).locals@[i]);
                }
            }
        }
    }

    /// Close the innermost frame of locals, if any.
    pub fn pop_locals(&mut self)
        requires
            old(self).wf(),
        ensures
            final(self).wf(),
            final(self).locals@ == if old(self).locals@.len() > 0 {
                old(self).locals@.drop_last()
            } else {
                old(self).locals@
            },
            final(self).globals == old(self).globals,
            final(self).type_locals == old(self).type_locals,
    {
        let _ = self.locals.pop();
        proof {
            assert forall|i: int| 0 <= i < self.locals@.len() implies keys_unique(#[trigger] self.locals@[i]@) by {
                assert(self.locals@[i] == old(self).locals@[i]);
            }
        }
    }

    /// Bind a local in the innermost frame, opening one when none is.
    pub fn bind_local(&mut self, name: String, scheme: Scheme)
        requires
            old(self).wf(),
        ensures
            final(self).wf(),
            frames_get(final(self).locals@, name@) == Some(scheme),
            forall|q: Seq<char>| q != name@ ==> #[trigger] frames_get(final(self).locals@, q)
                == frames_get(old(self).locals@, q),
            final(self).locals@.len() == if old(self).locals@.len() > 0 {
                old(self).locals@.len()
            } else {
                1
            },
            old(self).locals@.len() > 0 ==> final(self).locals@.drop_last() == old(self).locals@.drop_last(),
            final(self).globals == old(self).globals,
            final(self).type_locals == old(self).type_locals,
    {
        frames_bind(&mut self.locals, name, scheme);
    }

    /// The innermost local named `name`.
    pub fn lookup_local(&self, name: &str) -> (r: Option<&Scheme>)
        requires
            self.wf(),
        ensures
            r matches Some(s) ==> frames_get(self.locals@, name@) == Some(*s),
            r is None ==> frames_get(self.locals@, name@) is None,
    {
        frames_lookup(&self.locals, name)
    }

    /// Open a frame of type variables.
    pub fn push_type_locals(&mut self)
        requires
            old(self).wf(),
        ensures
            final(self).wf(),
            final(self).type_locals@.len() == old(self).type_locals@.len() + 1,
            final(self).type_locals@.drop_last() == old(self).type_locals@,
            final(self).type_locals@.last()@.len() == 0,
            final(self).locals == old(self).locals,
            final(self).globals == old(self).globals,
    {
        let ghost t0 = self.type_locals@;
        let fresh: Vec<(String, TyVar)> = Vec::new();
        self.type_locals.push(fresh);
        proof {
            assert(self.type_locals@.drop_last() =~= t0);
            assert forall|i: int| 0 <= i < self.type_locals@.len() implies keys_unique(#[trigger] self.type_locals@[i]@) by {
                if i < t0.len() {
                    assert(self.type_locals@[i] == t0[i]);
                }
            }
        }
    }

    /// Close the innermost frame of type variables, if any.
    pub fn pop_type_locals(&mut self)
        requires
            old(self).wf(),
        ensures
            final(self).wf(),
            final(self).type_locals@ == if old(self).type_locals@.len() > 0 {
                old(self).type_locals@.drop_last()
            } else {
                old(self).type_locals@
            },
            final(self).locals == old(self).locals,
            final(self).globals == old(self).globals,
    {
        let _ = self.type_locals.pop();
        proof {
            assert forall|i: int| 0 <= i < self.type_locals@.len() implies keys_unique(#[trigger] self.type_locals@[i]@) by {
                assert(self.type_locals@[i] == old(self).type_locals@[i]);
            }
        }
    }

    /// Bind a type variable in the innermost frame; with none open,
    /// nothing changes.
    pub fn bind_type_local(&mut self, name: String, v: TyVar)
        requires
            old(self).wf(),
        ensures
            final(self).wf(),
            old(self).type_locals@.len() > 0 ==> frames_get(final(self).type_locals@, name@) == Some(v),
            old(self).type_locals@.len() > 0 ==> forall|q: Seq<char>|
                q != name@ ==> #[trigger] frames_get(final(self).type_locals@, q)
                    == frames_get(old(self).type_locals@, q),
            old(self).type_locals@.len() == 0 ==> final(self).type_locals@ == old(self).type_locals@,
            final(self).type_locals@.len() == old(self).type_locals@.len(),
            old(self).type_locals@.len() > 0 ==> final(self).type_locals@.drop_last() == old(
                self,
            ).type_locals@.drop_last(),
            final(self).locals == old(self).locals,
            final(self).globals == old(self).globals,
    {
        if self.type_locals.len() > 0 {
            frames_bind(&mut self.type_locals, name, v);
        }
    }

    /// The innermost type variable named `name`.
    pub fn lookup_type_local(&self, name: &str) -> (r: Option<&TyVar>)
        requires
            self.wf(),
        ensures
            r matches Some(v) ==> frames_get(self.type_locals@, name@) == Some(*v),
            r is None ==> frames_get(self.type_locals@, name@) is None,
    {
        frames_lookup(&self.type_locals, name)
    }

    /// The global `name` of `module`.
    pub fn global(&self, module: &str, name: &str) -> (r: Option<&Scheme>)
        ensures
            r matches Some(s) ==> globals_get(self.globals@, module@, name@) == Some(*s),
            r is None ==> globals_get(self.globals@, module@, name@) is None,
    {
        let mut i = self.globals.len();
        assert(self.globals@.take(self.globals@.len() as int) =~= self.globals@);
        while i > 0
            invariant
                i <= self.globals@.len(),
                globals_get(self.globals@, module@, name@) == globals_get(
                    self.globals@.take(i as int),
                    module@,
                    name@,
                ),
            decreases i,
        {
            let ghost pre = self.globals@.take(i as int);
            assert(pre.drop_last() =~= self.globals@.take(i - 1));
            let g = &self.globals[i - 1];
            if crate::lexer::scan::text_is(&g.0.module, module) && crate::lexer::scan::text_is(
                &g.0.name,
                name,
            ) {
                return Some(&g.1);
            }
            i = i - 1;
        }
        None
    }

    /// Set the global `id` to `scheme`, replacing an earlier entry.
    pub fn insert_global(&mut self, id: GlobalId, scheme: Scheme)
        requires
            old(self).wf(),
        ensures
            final(self).wf(),
            globals_get(final(self).globals@, id.module@, id.name@) == Some(scheme),
            forall|m: Seq<char>, n: Seq<char>|
                !(m == id.module@ && n == id.name@) ==> #[trigger] globals_get(final(self).globals@, m, n)
                    == globals_get(old(self).globals@, m, n),
            final(self).locals == old(self).locals,
            final(self).type_locals == old(self).type_locals,
            final(self).datas == old(self).datas,
            final(self).ctors == old(self).ctors,
            final(self).aliases == old(self).aliases,
            final(self).type_kinds == old(self).type_kinds,
    {
        let ghost g0 = self.globals@;
        let ghost idv = id;
        let ghost sv = scheme;
        let mut i: usize = 0;
        let mut found = false;
        while i < self.globals.len() && !found
            invariant
                i <= g0.len(),
                self.globals@ == g0,
                idv == id,
                found ==> i < g0.len() && g0[i as int].0.module@ == idv.module@ && g0[i as int].0.name@ == idv.name@,
                !found ==> forall|j: int| 0 <= j < i ==> !(#[trigger] g0[j].0.module@ == idv.module@ && g0[j].0.name@ == idv.name@),
            decreases self.globals.len() - i, if found { 0int } else { 1int },
        {
            if self.globals[i].0.module.eq(&id.module) && self.globals[i].0.name.eq(&id.name) {
                found = true;
            } else {
                i = i + 1;
            }
        }
        if found {
            self.globals.set(i, (id, scheme));
            proof {
                let g = self.globals@;
                lemma_globals_update(g0, i as int, idv, sv);
            }
        } else {
            self.globals.push((id, scheme));
            proof {
                assert(self.globals@.drop_last() =~= g0);
                let g = self.globals@;
                assert forall|a: int, b: int| 0 <= a < b < g.len() implies !((#[trigger] g[a]).0.module@ == (#[trigger] g[b]).0.module@
                    && g[a].0.name@ == g[b].0.name@) by {
                    if b < g0.len() {
                        assert(g[a] == g0[a] && g[b] == g0[b]);
                    } else {
                        assert(g[a] == g0[a]);
                    }
                }
            }
        }
    }
}

/// Replacing the entry at `i` by one of the same key changes only that
/// key's binding.
proof fn lemma_globals_update(g0: Seq<(GlobalId, Scheme)>, i: int, id: GlobalId, s: Scheme)
    requires
        globals_unique(g0),
        0 <= i < g0.len(),
        g0[i].0.module@ == id.module@,
        g0[i].0.name@ == id.name@,
    ensures
        globals_unique(g0.update(i, (id, s))),
        globals_get(g0.update(i, (id, s)), id.module@, id.name@) == Some(s),
        forall|m: Seq<char>, n: Seq<char>|
            !(m == id.module@ && n == id.name@) ==> #[trigger] globals_get(g0.update(i, (id, s)), m, n)
                == globals_get(g0, m, n),
    decreases g0.len(),
{
    let g = g0.update(i, (id, s));
    assert forall|a: int, b: int| 0 <= a < b < g.len() implies !((#[trigger] g[a]).0.module@ == (#[trigger] g[b]).0.module@
        && g[a].0.name@ == g[b].0.name@) by {
        if a != i && b != i {
            assert(g[a] == g0[a] && g[b] == g0[b]);
        } else if a == i {
            assert(g[b] == g0[b]);
        } else {
            assert(g[a] == g0[a]);
        }
    }
    if i == g0.len() - 1 {
        assert(g.drop_last() =~= g0.drop_last());
        assert(g.last() == (id, s));
        assert(g0.last() == g0[i]);
        assert forall|m: Seq<char>, n: Seq<char>|
            !(m == id.module@ && n == id.name@) implies #[trigger] globals_get(g, m, n) == globals_get(g0, m, n) by {
            assert(!(g.last().0.module@ == m && g.last().0.name@ == n));
            assert(!(g0.last().0.module@ == m && g0.last().0.name@ == n));
        }
    } else {
        let d0 = g0.drop_last();
        assert(g.drop_last() =~= d0.update(i, (id, s)));
        assert forall|a: int, b: int| 0 <= a < b < d0.len() implies !((#[trigger] d0[a]).0.module@ == (#[trigger] d0[b]).0.module@
            && d0[a].0.name@ == d0[b].0.name@) by {
            assert(d0[a] == g0[a] && d0[b] == g0[b]);
        }
        lemma_globals_update(d0, i, id, s);
        assert(g.last() == g0.last());
        assert(g0[g0.len() - 1] == g0.last());
        assert(!(g0.last().0.module@ == id.module@ && g0.last().0.name@ == id.name@)) by {
            assert(g0[i].0.module@ == id.module@);
        }
        assert(globals_get(g, id.module@, id.name@) == globals_get(g.drop_last(), id.module@, id.name@));
        assert forall|m: Seq<char>, n: Seq<char>|
            !(m == id.module@ && n == id.name@) implies #[trigger] globals_get(g, m, n) == globals_get(g0, m, n) by {
            if g.last().0.module@ == m && g.last().0.name@ == n {
            } else {
                assert(globals_get(g, m, n) == globals_get(g.drop_last(), m, n));
                assert(globals_get(g0, m, n) == globals_get(d0, m, n));
                assert(globals_get(d0.update(i, (id, s)), m, n) == globals_get(d0, m, n));
            }
        }
    }
}


/// Each class of the path is a superclass of the one before it.
pub open spec fn super_path(classes: Seq<(String, ClassInfo)>, p: Seq<Seq<char>>) -> bool {
    forall|k: int| 0 <= k < p.len() - 1 ==> supers_of(classes, #[trigger] p[k]).contains(p[k + 1])
}

/// `to` is `from` or one of its superclasses, transitively.
pub open spec fn super_reaches(classes: Seq<(String, ClassInfo)>, from: Seq<char>, to: Seq<char>) -> bool {
    exists|p: Seq<Seq<char>>|
        #![trigger super_path(classes, p), p.last()]
        p.len() > 0 && p[0] == from && p.last() == to && super_path(classes, p)
}

/// What the closure holds is exactly what the class reaches.
pub proof fn lemma_closure_exact(classes: Seq<(String, ClassInfo)>, class: Seq<char>, r: Seq<String>, to: Seq<char>)
    requires
        r.len() > 0,
        r[0]@ == class,
        forall|j: int| 0 < j < r.len() ==> #[trigger] has_parent(classes, r, j),
        forall|i: int, s: Seq<char>|
            0 <= i < r.len() && #[trigger] supers_of(classes, r[i]@).contains(s) ==> string_views(r).contains(s),
    ensures
        string_views(r).contains(to) <==> super_reaches(classes, class, to),
{
    if string_views(r).contains(to) {
        let j = choose|j: int| 0 <= j < r.len() && string_views(r)[j] == to;
        let p = lemma_closure_path(classes, class, r, j);
        assert(p.last() == to);
    }
    if super_reaches(classes, class, to) {
        let p = choose|p: Seq<Seq<char>>|
            #![trigger super_path(classes, p), p.last()]
            p.len() > 0 && p[0] == class && p.last() == to && super_path(classes, p);
        assert(string_views(r)[0] == class);
        lemma_path_stays(classes, r, p, p.len() - 1);
    }
}

/// Each entry of the closure is reached by a path from the class.
proof fn lemma_closure_path(classes: Seq<(String, ClassInfo)>, class: Seq<char>, r: Seq<String>, j: int) -> (p: Seq<Seq<char>>)
    requires
        0 <= j < r.len(),
        r[0]@ == class,
        forall|k: int| 0 < k < r.len() ==> #[trigger] has_parent(classes, r, k),
    ensures
        p.len() > 0,
        p[0] == class,
        p.last() == r[j]@,
        super_path(classes, p),
    decreases j,
{
    if j == 0 {
        seq![class]
    } else {
        assert(has_parent(classes, r, j));
        let i = choose|i: int| 0 <= i < j && supers_of(classes, #[trigger] r[i]@).contains(r[j]@);
        let q = lemma_closure_path(classes, class, r, i);
        let p = q.push(r[j]@);
        assert forall|k: int| 0 <= k < p.len() - 1 implies supers_of(classes, #[trigger] p[k]).contains(p[k + 1]) by {
            if k < q.len() - 1 {
                assert(p[k] == q[k] && p[k + 1] == q[k + 1]);
            } else {
                assert(p[k] == q.last());
            }
        }
        p
    }
}

/// A path that starts inside the closure stays inside it.
proof fn lemma_path_stays(classes: Seq<(String, ClassInfo)>, r: Seq<String>, p: Seq<Seq<char>>, k: int)
    requires
        0 <= k < p.len(),
        string_views(r).contains(p[0]),
        super_path(classes, p),
        forall|i: int, s: Seq<char>|
            0 <= i < r.len() && #[trigger] supers_of(classes, r[i]@).contains(s) ==> string_views(r).contains(s),
    ensures
        string_views(r).contains(p[k]),
    decreases k,
{
    if k > 0 {
        lemma_path_stays(classes, r, p, k - 1);
        let j = choose|j: int| 0 <= j < r.len() && string_views(r)[j] == p[k - 1];
        assert(supers_of(classes, p[k - 1]).contains(p[k - 1 + 1]));
        assert(supers_of(classes, r[j]@).contains(p[k]));
    }
}

} // verus!
