//! Resolver errors.
//!
//! Each kind is one of the static errors of name resolution: duplicate
//! top-level names, undefined references, ambiguous imports, private
//! leaks, unknown imports, cycles, and so on.
use vstd::prelude::*;

use crate::span::Span;
use crate::text::{decimal_text, join_strings, join_text, string_views, usize_text};

verus! {

/// One name-resolution error, with the span of the erroring site.
#[derive(Debug, Clone, PartialEq, Eq)]
pub struct ResolveError {
    pub kind: ResolveErrorKind,
    pub span: Span,
}

impl ResolveError {
    /// An error of the given kind at the given span.
    pub fn new(kind: ResolveErrorKind, span: Span) -> (r: ResolveError)
        ensures
            r.kind == kind,
            r.span == span,
    {
        ResolveError { kind, span }
    }

    /// `resolve error at bytes S..E: <message>`.
    pub fn render(&self) -> (r: String)
        ensures
            r@ == "resolve error at bytes "@ + decimal_text(self.span.start as nat) + ".."@
                + decimal_text(self.span.end as nat) + ": "@ + self.kind.message_text(),
    {
        let mut r = String::from_str("resolve error at bytes ");
        let a = usize_text(self.span.start);
        r.append(a.as_str());
        r.append("..");
        let b = usize_text(self.span.end);
        r.append(b.as_str());
        r.append(": ");
        let m = self.kind.message();
        r.append(m.as_str());
        r
    }
}

/// The classification of resolver errors. String payloads carry the
/// affected identifier and, where it applies, the modules involved.
#[derive(Debug, Clone, PartialEq, Eq)]
pub enum ResolveErrorKind {
    /// A top-level declaration re-uses a name already bound at the
    /// module's top level in the same namespace.
    DuplicateTopLevel { name: String, namespace: Namespace },
    /// A bare identifier that no scope binds.
    UndefinedName { name: String, namespace: Namespace },
    /// A `M.x` reference whose module is not in scope.
    UnknownModule { name: String },
    /// A `M.x` reference whose module does not export `x`.
    NotExported { module: String, name: String, namespace: Namespace },
    /// Two unqualified imports expose the same name, used bare.
    Ambiguous { name: String, namespace: Namespace, modules: Vec<String> },
    /// The export list names something the module does not define.
    ExportOfUnknown { name: String, namespace: Namespace },
    /// An import item names something the module does not export.
    ImportOfUnknown { module: String, name: String, namespace: Namespace },
    /// An `import M` of a module not in the compilation.
    ImportOfUnknownModule { module: String },
    /// An exported binding whose signature mentions a private type.
    PrivateLeak { public: String, leak: String, namespace: Namespace },
    /// A header-less script (implicitly `Main`) named by an import.
    MainSugarNotImportable { module: String },
    /// The import graph has a cycle; `cycle` lists it, first module
    /// repeated at the end.
    CyclicImports { cycle: Vec<String> },
    /// An import declaration of a shape the parser should have refused.
    MalformedImport,
    /// A qualifier with no module or alias of that name in scope.
    QualifierNotInScope { qualifier: String },
}

/// The two namespaces names live in. Record fields are not names here.
#[derive(Debug, Clone, Copy, PartialEq, Eq, Hash, Structural)]
pub enum Namespace {
    /// Values, functions, constructors, class methods, Ruby bindings.
    Value,
    /// Type constructors, type aliases, class names.
    Type,
}

/// `value` or `type`.
pub open spec fn namespace_text(ns: Namespace) -> Seq<char> {
    match ns {
        Namespace::Value => "value"@,
        Namespace::Type => "type"@,
    }
}

impl Namespace {
    /// The namespace's name as messages write it.
    pub fn name(&self) -> (r: &'static str)
        ensures
            r@ == namespace_text(*self),
    {
        match self {
            Namespace::Value => "value",
            Namespace::Type => "type",
        }
    }
}

impl ResolveErrorKind {
    /// The message of each kind, with its payload written in.
    pub open spec fn message_text(&self) -> Seq<char> {
        match self {
            ResolveErrorKind::DuplicateTopLevel { name, namespace } => "duplicate "@
                + namespace_text(*namespace) + " binding `"@ + name@ + "` at top level"@,
            ResolveErrorKind::UndefinedName { name, namespace } => "undefined "@ + namespace_text(
                *namespace,
            ) + " name `"@ + name@ + "`"@,
            ResolveErrorKind::UnknownModule { name } => "no module named `"@ + name@
                + "` is in scope"@,
            ResolveErrorKind::NotExported { module, name, namespace } => "module `"@ + module@
                + "` does not export "@ + namespace_text(*namespace) + " name `"@ + name@ + "`"@,
            ResolveErrorKind::Ambiguous { name, namespace, modules } => namespace_text(*namespace)
                + " name `"@ + name@ + "` is ambiguous \u{2014} imported from "@ + join_text(
                string_views(modules@),
                ", "@,
            ),
            ResolveErrorKind::ExportOfUnknown { name, namespace } => "export list mentions "@
                + namespace_text(*namespace) + " name `"@ + name@
                + "` which is not declared in this module"@,
            ResolveErrorKind::ImportOfUnknown { module, name, namespace } => "import list mentions "@
                + namespace_text(*namespace) + " name `"@ + name@ + "` not exported by `"@
                + module@ + "`"@,
            ResolveErrorKind::ImportOfUnknownModule { module } => "cannot import `"@ + module@
                + "`: module not found"@,
            ResolveErrorKind::PrivateLeak { public, leak, namespace } => "exported binding `"@
                + public@ + "` leaks private "@ + namespace_text(*namespace) + " `"@ + leak@
                + "`"@,
            ResolveErrorKind::MainSugarNotImportable { module } => "`"@ + module@
                + "` is a header-less script and cannot be imported"@,
            ResolveErrorKind::CyclicImports { cycle } => "cyclic imports: "@ + join_text(
                string_views(cycle@),
                " -> "@,
            ),
            ResolveErrorKind::MalformedImport => "malformed import declaration"@,
            ResolveErrorKind::QualifierNotInScope { qualifier } => "module qualifier `"@
                + qualifier@ + "` is not in scope"@,
        }
    }

    /// A human-readable description of the error.
    pub fn message(&self) -> (r: String)
        ensures
            r@ == self.message_text(),
    {
        match self {
            ResolveErrorKind::DuplicateTopLevel { name, namespace } => {
                let mut r = String::from_str("duplicate ");
                r.append(namespace.name());
                r.append(" binding `");
                r.append(name.as_str());
                r.append("` at top level");
                r
            },
            ResolveErrorKind::UndefinedName { name, namespace } => {
                let mut r = String::from_str("undefined ");
                r.append(namespace.name());
                r.append(" name `");
                r.append(name.as_str());
                r.append("`");
                r
            },
            ResolveErrorKind::UnknownModule { name } => {
                let mut r = String::from_str("no module named `");
                r.append(name.as_str());
                r.append("` is in scope");
                r
            },
            ResolveErrorKind::NotExported { module, name, namespace } => {
                let mut r = String::from_str("module `");
                r.append(module.as_str());
                r.append("` does not export ");
                r.append(namespace.name());
                r.append(" name `");
                r.append(name.as_str());
                r.append("`");
                r
            },
            ResolveErrorKind::Ambiguous { name, namespace, modules } => {
                let mut r = String::from_str(namespace.name());
                r.append(" name `");
                r.append(name.as_str());
                r.append("` is ambiguous \u{2014} imported from ");
                let j = join_strings(modules, ", ");
                r.append(j.as_str());
                r
            },
            ResolveErrorKind::ExportOfUnknown { name, namespace } => {
                let mut r = String::from_str("export list mentions ");
                r.append(namespace.name());
                r.append(" name `");
                r.append(name.as_str());
                r.append("` which is not declared in this module");
                r
            },
            ResolveErrorKind::ImportOfUnknown { module, name, namespace } => {
                let mut r = String::from_str("import list mentions ");
                r.append(namespace.name());
                r.append(" name `");
                r.append(name.as_str());
                r.append("` not exported by `");
                r.append(module.as_str());
                r.append("`");
                r
            },
            ResolveErrorKind::ImportOfUnknownModule { module } => {
                let mut r = String::from_str("cannot import `");
                r.append(module.as_str());
                r.append("`: module not found");
                r
            },
            ResolveErrorKind::PrivateLeak { public, leak, namespace } => {
                let mut r = String::from_str("exported binding `");
                r.append(public.as_str());
                r.append("` leaks private ");
                r.append(namespace.name());
                r.append(" `");
                r.append(leak.as_str());
                r.append("`");
                r
            },
            ResolveErrorKind::MainSugarNotImportable { module } => {
                let mut r = String::from_str("`");
                r.append(module.as_str());
                r.append("` is a header-less script and cannot be imported");
                r
            },
            ResolveErrorKind::CyclicImports { cycle } => {
                let mut r = String::from_str("cyclic imports: ");
                let j = join_strings(cycle, " -> ");
                r.append(j.as_str());
                r
            },
            ResolveErrorKind::MalformedImport => String::from_str("malformed import declaration"),
            ResolveErrorKind::QualifierNotInScope { qualifier } => {
                let mut r = String::from_str("module qualifier `");
                r.append(qualifier.as_str());
                r.append("` is not in scope");
                r
            },
        }
    }
}

} // verus!
