//! Resolved references and module environments.
//!
//! An identifier resolves to a local binding (lambda, `let`, pattern or
//! `do` bind), or to a top-level binding of some module, written as a
//! `ResolvedRef`. Built-in names are exports of the prelude module, so
//! they take the same path.
use vstd::prelude::*;

use super::error::Namespace;
use super::table::{keys_unique, table_get, table_insert, table_lookup};
use crate::lexer::scan::text_is;
use crate::span::Span;
use crate::text::{join_strings, join_text, string_views};

verus! {

/// A module's identity: its dotted name, segment by segment.
#[derive(Debug, PartialEq, Eq, Hash, PartialOrd, Ord)]
pub struct ModuleId {
    pub segments: Vec<String>,
}

impl View for ModuleId {
    type V = Seq<Seq<char>>;

    open spec fn view(&self) -> Seq<Seq<char>> {
        string_views(self.segments@)
    }
}

/// A copy of a vector of strings, element by element.
pub fn copy_strings(v: &[String]) -> (r: Vec<String>)
    ensures
        string_views(r@) == string_views(v@),
{
    let mut r: Vec<String> = Vec::new();
    let mut i: usize = 0;
    while i < v.len()
        invariant
            i <= v@.len(),
            string_views(r@) == string_views(v@.take(i as int)),
        decreases v.len() - i,
    {
        let ghost r0 = r@;
        let c = v[i].clone();
        r.push(c);
        proof {
            assert(r@ == r0.push(c));
            assert(v@.take(i + 1) =~= v@.take(i as int).push(v@[i as int]));
            assert(string_views(r@) =~= string_views(r0).push(c@));
            assert(string_views(v@.take(i + 1)) =~= string_views(v@.take(i as int)).push(
                v@[i as int]@,
            ));
        }
        i = i + 1;
    }
    proof {
        assert(v@.take(i as int) =~= v@);
    }
    r
}

/// Whether two sequences of strings read the same.
pub fn same_strings(a: &[String], b: &[String]) -> (r: bool)
    ensures
        r == (string_views(a@) == string_views(b@)),
{
    if a.len() != b.len() {
        proof {
            assert(string_views(a@).len() != string_views(b@).len());
        }
        return false;
    }
    let mut i: usize = 0;
    while i < a.len()
        invariant
            i <= a@.len(),
            a@.len() == b@.len(),
            forall|j: int| 0 <= j < i ==> a@[j]@ == b@[j]@,
        decreases a.len() - i,
    {
        if !a[i].eq(&b[i]) {
            proof {
                assert(string_views(a@)[i as int] != string_views(b@)[i as int]);
            }
            return false;
        }
        i = i + 1;
    }
    proof {
        assert(string_views(a@) =~= string_views(b@));
    }
    true
}

impl ModuleId {
    /// The module of the given dotted-name segments.
    pub fn from_segments(segments: &[String]) -> (r: ModuleId)
        ensures
            r@ == string_views(segments@),
    {
        ModuleId { segments: copy_strings(segments) }
    }

    /// The dotted name, segments joined by `.`.
    pub fn display(&self) -> (r: String)
        ensures
            r@ == join_text(self@, "."@),
    {
        join_strings(&self.segments, ".")
    }

    /// Whether two identities name the same module.
    pub fn same(&self, other: &ModuleId) -> (r: bool)
        ensures
            r == (self@ == other@),
    {
        same_strings(self.segments.as_slice(), other.segments.as_slice())
    }
}

impl Clone for ModuleId {
    fn clone(&self) -> (r: ModuleId)
        ensures
            r@ == self@,
    {
        ModuleId { segments: copy_strings(self.segments.as_slice()) }
    }
}

/// A resolved reference: the defining module, the name, and the
/// namespace it was looked up in. Two references are the same iff they
/// point at the same definition.
#[derive(Debug, PartialEq, Eq, Hash)]
pub struct ResolvedRef {
    pub module: ModuleId,
    pub name: String,
    pub namespace: Namespace,
}

impl View for ResolvedRef {
    type V = (Seq<Seq<char>>, Seq<char>, Namespace);

    open spec fn view(&self) -> (Seq<Seq<char>>, Seq<char>, Namespace) {
        (self.module@, self.name@, self.namespace)
    }
}

impl ResolvedRef {
    /// The reference to `name` in `module`'s namespace `namespace`.
    pub fn new(module: ModuleId, name: String, namespace: Namespace) -> (r: ResolvedRef)
        ensures
            r@ == (module@, name@, namespace),
    {
        ResolvedRef { module, name, namespace }
    }

    /// Whether two references point at the same definition.
    pub fn same(&self, other: &ResolvedRef) -> (r: bool)
        ensures
            r == (self@ == other@),
    {
        self.namespace == other.namespace && self.name.eq(&other.name) && self.module.same(
            &other.module,
        )
    }
}

impl Clone for ResolvedRef {
    fn clone(&self) -> (r: ResolvedRef)
        ensures
            r@ == self@,
    {
        ResolvedRef { module: self.module.clone(), name: self.name.clone(), namespace: self.namespace }
    }
}

/// How a definition is visible outside its module.
#[derive(Debug, Clone, Copy, PartialEq, Eq, Structural)]
pub enum Visibility {
    Exported,
    Private,
}

/// One top-level definition of a module.
///
/// `data T = C a` gives the type `T` (namespace `Type`) and the
/// constructor `C` (namespace `Value`); a class gives its name (`Type`)
/// and its methods (`Value`).
#[derive(Debug, PartialEq, Eq)]
pub struct TopLevelDef {
    pub name: String,
    pub namespace: Namespace,
    pub visibility: Visibility,
    pub kind: DefKind,
    /// The declaration's span, for duplicate reports.
    pub span: Span,
}

/// What declaration produced a top-level definition.
#[derive(Debug, PartialEq, Eq)]
pub enum DefKind {
    /// A value binding or signature.
    Value,
    /// A constructor of a `data` declaration.
    Ctor { parent_type: String },
    /// A method of a class.
    ClassMethod { parent_class: String },
    /// A Ruby-embedded binding (`name x := "..."`).
    RubyEmbed,
    /// A `data` type.
    DataType,
    /// A `type T = t` alias.
    TypeAlias,
    /// A class name.
    Class,
}

impl Clone for DefKind {
    fn clone(&self) -> (r: DefKind)
        ensures
            r == *self,
    {
        match self {
            DefKind::Value => DefKind::Value,
            DefKind::Ctor { parent_type } => DefKind::Ctor { parent_type: parent_type.clone() },
            DefKind::ClassMethod { parent_class } => DefKind::ClassMethod {
                parent_class: parent_class.clone(),
            },
            DefKind::RubyEmbed => DefKind::RubyEmbed,
            DefKind::DataType => DefKind::DataType,
            DefKind::TypeAlias => DefKind::TypeAlias,
            DefKind::Class => DefKind::Class,
        }
    }
}

impl Clone for TopLevelDef {
    fn clone(&self) -> (r: TopLevelDef)
        ensures
            r == *self,
    {
        TopLevelDef {
            name: self.name.clone(),
            namespace: self.namespace,
            visibility: self.visibility,
            kind: self.kind.clone(),
            span: self.span,
        }
    }
}

/// A module's export surface: exported names by namespace, each with
/// the definition it stands for.
#[derive(Debug)]
pub struct Exports {
    pub values: Vec<(String, ResolvedRef)>,
    pub types: Vec<(String, ResolvedRef)>,
    /// Exported constructor to its data type.
    pub ctor_parents: Vec<(String, String)>,
    /// Exported method to its class.
    pub method_parents: Vec<(String, String)>,
}

impl Exports {
    /// No name occurs twice in a table.
    pub open spec fn wf(&self) -> bool {
        keys_unique(self.values@) && keys_unique(self.types@)
    }

    /// What `name` is exported as in namespace `ns`.
    pub open spec fn entry(&self, name: Seq<char>, ns: Namespace) -> Option<
        (Seq<Seq<char>>, Seq<char>, Namespace),
    > {
        match ns {
            Namespace::Value => table_get(self.values@, name),
            Namespace::Type => table_get(self.types@, name),
        }
    }

    /// No exports at all.
    pub fn empty() -> (r: Exports)
        ensures
            r.wf(),
            r.values@.len() == 0,
            r.types@.len() == 0,
            r.ctor_parents@.len() == 0,
            r.method_parents@.len() == 0,
            forall|q: Seq<char>, ns: Namespace| #[trigger] r.entry(q, ns) is None,
    {
        Exports {
            values: Vec::new(),
            types: Vec::new(),
            ctor_parents: Vec::new(),
            method_parents: Vec::new(),
        }
    }

    /// The export of `name` in namespace `ns`.
    pub fn lookup(&self, name: &str, ns: Namespace) -> (r: Option<&ResolvedRef>)
        requires
            self.wf(),
        ensures
            r matches Some(v) ==> self.entry(name@, ns) == Some(v@),
            r is None ==> self.entry(name@, ns) is None,
    {
        match ns {
            Namespace::Value => table_lookup(&self.values, name),
            Namespace::Type => table_lookup(&self.types, name),
        }
    }

    /// Export `name` in namespace `ns` as `r`, replacing an earlier
    /// export of the same name there.
    pub fn insert(&mut self, name: String, ns: Namespace, r: ResolvedRef)
        requires
            old(self).wf(),
        ensures
            final(self).wf(),
            forall|q: Seq<char>, n: Namespace|
                #[trigger] final(self).entry(q, n) == if q == name@ && n == ns {
                    Some(r@)
                } else {
                    old(self).entry(q, n)
                },
            final(self).ctor_parents == old(self).ctor_parents,
            final(self).method_parents == old(self).method_parents,
    {
        let ghost v0 = self.values@;
        let ghost t0 = self.types@;
        match ns {
            Namespace::Value => {
                table_insert(&mut self.values, name, r);
                assert(self.types@ == t0);
            },
            Namespace::Type => {
                table_insert(&mut self.types, name, r);
                assert(self.values@ == v0);
            },
        }
    }
}

/// A module's environment: its top-level definitions, what its imports
/// bring into scope, and what it exports.
#[derive(Debug)]
pub struct ModuleEnv {
    pub id: ModuleId,
    /// Every top-level definition, in declaration order; no name occurs
    /// twice in one namespace.
    pub top_level: Vec<TopLevelDef>,
    /// Names imported unqualified, in import order. A name brought by
    /// two imports appears twice; a use site of it is then ambiguous
    /// unless both stand for the same definition.
    pub unqualified: Vec<(String, Namespace, ResolvedRef)>,
    /// Each qualifier in scope (a module's dotted name or an `as`
    /// alias) with the module it stands for.
    pub qualified_aliases: Vec<(String, ModuleId)>,
    /// What this module exports.
    pub exports: Exports,
}

/// `d` is the definition of `name` in namespace `ns`.
pub open spec fn defines(d: TopLevelDef, name: Seq<char>, ns: Namespace) -> bool {
    d.name@ == name && d.namespace == ns
}

/// The first definition of `name` in namespace `ns`.
pub open spec fn first_def(t: Seq<TopLevelDef>, name: Seq<char>, ns: Namespace) -> Option<
    TopLevelDef,
>
    decreases t.len(),
{
    if t.len() == 0 {
        None
    } else if defines(t[0], name, ns) {
        Some(t[0])
    } else {
        first_def(t.drop_first(), name, ns)
    }
}

/// `first_def` finds a definition exactly when one exists, and it is
/// one of the table's entries.
pub proof fn lemma_first_def(t: Seq<TopLevelDef>, name: Seq<char>, ns: Namespace)
    ensures
        first_def(t, name, ns) is Some <==> exists|i: int| 0 <= i < t.len() && defines(t[i], name, ns),
        first_def(t, name, ns) matches Some(d) ==> t.contains(d) && defines(d, name, ns),
    decreases t.len(),
{
    if t.len() > 0 {
        lemma_first_def(t.drop_first(), name, ns);
        if !defines(t[0], name, ns) {
            assert forall|i: int| 0 <= i < t.len() && defines(t[i], name, ns) implies 0 <= i - 1 < t.len()
                - 1 && defines(t.drop_first()[i - 1], name, ns) by {}
            assert forall|i: int| 0 <= i < t.len() - 1 && defines(t.drop_first()[i], name, ns) implies 0
                <= i + 1 < t.len() && defines(t[i + 1], name, ns) by {}
            if first_def(t, name, ns) is Some {
                let d = first_def(t, name, ns)->0;
                let j = choose|j: int| 0 <= j < t.len() - 1 && t.drop_first()[j] == d;
                assert(t[j + 1] == d);
            }
        } else {
            assert(t[0] == t[0]);
            assert(t.contains(t[0]));
        }
    }
}

impl ModuleEnv {
    /// An empty environment for module `id`.
    pub fn new(id: ModuleId) -> (r: ModuleEnv)
        ensures
            r.id == id,
            r.top_level@.len() == 0,
            r.unqualified@.len() == 0,
            r.qualified_aliases@.len() == 0,
            r.exports.wf(),
            r.exports.values@.len() == 0 && r.exports.types@.len() == 0,
    {
        ModuleEnv {
            id,
            top_level: Vec::new(),
            unqualified: Vec::new(),
            qualified_aliases: Vec::new(),
            exports: Exports::empty(),
        }
    }

    /// The top-level definition of `name` in namespace `ns`.
    pub fn top_lookup(&self, name: &str, ns: Namespace) -> (r: Option<&TopLevelDef>)
        ensures
            r matches Some(d) ==> first_def(self.top_level@, name@, ns) == Some(*d),
            r is None ==> first_def(self.top_level@, name@, ns) is None,
    {
        let mut i: usize = 0;
        assert(self.top_level@.subrange(0, self.top_level@.len() as int) =~= self.top_level@);
        while i < self.top_level.len()
            invariant
                i <= self.top_level@.len(),
                first_def(self.top_level@, name@, ns) == first_def(
                    self.top_level@.subrange(i as int, self.top_level@.len() as int),
                    name@,
                    ns,
                ),
            decreases self.top_level.len() - i,
        {
            let ghost rest = self.top_level@.subrange(i as int, self.top_level@.len() as int);
            assert(rest[0] == self.top_level@[i as int]);
            if self.top_level[i].namespace == ns && text_is(&self.top_level[i].name, name) {
                return Some(&self.top_level[i]);
            }
            assert(rest.drop_first() =~= self.top_level@.subrange(
                i + 1,
                self.top_level@.len() as int,
            ));
            i = i + 1;
        }
        None
    }

    /// The module a qualifier stands for.
    pub fn qualifier_target(&self, qualifier: &str) -> (r: Option<&ModuleId>)
        requires
            keys_unique(self.qualified_aliases@),
        ensures
            r matches Some(m) ==> table_get(self.qualified_aliases@, qualifier@) == Some(m@),
            r is None ==> table_get(self.qualified_aliases@, qualifier@) is None,
    {
        table_lookup(&self.qualified_aliases, qualifier)
    }

    /// Put `module` in scope under the qualifier `qualifier`, replacing
    /// what that qualifier stood for before.
    pub fn add_qualifier(&mut self, qualifier: String, module: ModuleId)
        requires
            keys_unique(old(self).qualified_aliases@),
        ensures
            keys_unique(final(self).qualified_aliases@),
            forall|q: Seq<char>|
                #[trigger] table_get(final(self).qualified_aliases@, q) == if q == qualifier@ {
                    Some(module@)
                } else {
                    table_get(old(self).qualified_aliases@, q)
                },
            final(self).id == old(self).id,
            final(self).top_level == old(self).top_level,
            final(self).unqualified == old(self).unqualified,
            final(self).exports == old(self).exports,
    {
        table_insert(&mut self.qualified_aliases, qualifier, module);
    }
}

} // verus!
