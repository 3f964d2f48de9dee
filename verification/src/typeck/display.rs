//! How types, kinds, constraints and schemes read in diagnostics.
use vstd::prelude::*;

use super::ty::{Constraint, Kind, Scheme, Ty, TyVar};
use crate::text::{decimal_text, usize_text};

verus! {

/// A variable: its name and id, or `t` and its id when unnamed.
pub open spec fn tyvar_text(v: TyVar) -> Seq<char> {
    if v.name@.len() == 0 {
        "t"@ + decimal_text(v.id as nat)
    } else {
        v.name@ + "#"@ + decimal_text(v.id as nat)
    }
}

/// A kind; an arrow kind on the left of an arrow is parenthesised.
pub open spec fn kind_text(k: Kind) -> Seq<char>
    decreases k,
{
    match k {
        Kind::Star => "*"@,
        Kind::Arrow(a, b) => match *a {
            Kind::Arrow(..) => "("@ + kind_text(*a) + ") -> "@ + kind_text(*b),
            _ => kind_text(*a) + " -> "@ + kind_text(*b),
        },
        Kind::Var(i) => "k"@ + decimal_text(i as nat),
    }
}

/// A type at a position: 0 at the top, 1 left of an arrow (arrows get
/// parentheses), 2 as an argument (applications get them too).
pub open spec fn ty_text(t: Ty, ctx: int) -> Seq<char>
    decreases t, 0nat,
{
    match t {
        Ty::Var(v) => tyvar_text(v),
        Ty::Con { name, .. } => name@,
        Ty::App(g, x) => {
            let inner = ty_text(*g, 1) + " "@ + ty_text(*x, 2);
            if ctx >= 2 {
                "("@ + inner + ")"@
            } else {
                inner
            }
        },
        Ty::Fun(a, b) => {
            let inner = ty_text(*a, 1) + " -> "@ + ty_text(*b, 0);
            if ctx >= 1 {
                "("@ + inner + ")"@
            } else {
                inner
            }
        },
        Ty::Record(fs) => {
            proof {
                assert(decreases_to!(t => fs));
                assert(decreases_to!(fs => fs@));
            }
            "{ "@ + fields_text(fs@, fs@.len() as int) + " }"@
        },
    }
}

/// The first `n` fields, `name : type` each, separated by commas.
pub open spec fn fields_text(fs: Seq<(String, Ty)>, n: int) -> Seq<char>
    decreases fs, n,
{
    if n <= 0 || n > fs.len() {
        Seq::empty()
    } else {
        proof {
            assert(decreases_to!(fs => fs[n - 1]));
            assert(decreases_to!(fs[n - 1] => fs[n - 1].1));
        }
        let sep = if n > 1 {
            ", "@
        } else {
            Seq::empty()
        };
        fields_text(fs, n - 1) + sep + fs[n - 1].0@ + " : "@ + ty_text(fs[n - 1].1, 0)
    }
}

/// A constraint: the class, a space, the type.
pub open spec fn constraint_text(c: Constraint) -> Seq<char> {
    c.class@ + " "@ + ty_text(c.arg, 0)
}

/// The constraints of `cs` before `n`, separated by commas.
pub open spec fn constraints_text(cs: Seq<Constraint>, n: int) -> Seq<char>
    decreases n,
{
    if n <= 0 || n > cs.len() {
        Seq::empty()
    } else {
        let sep = if n > 1 {
            ", "@
        } else {
            Seq::empty()
        };
        constraints_text(cs, n - 1) + sep + constraint_text(cs[n - 1])
    }
}

/// The names of the variables before `n`, each after a space.
pub open spec fn var_names_text(vs: Seq<TyVar>, n: int) -> Seq<char>
    decreases n,
{
    if n <= 0 || n > vs.len() {
        Seq::empty()
    } else {
        var_names_text(vs, n - 1) + " "@ + vs[n - 1].name@
    }
}

/// A scheme: `forall a b. ` when it binds variables, the context and
/// ` => ` when it has one (in parentheses when more than one), the body.
pub open spec fn scheme_text(s: Scheme) -> Seq<char> {
    let quant = if s.vars@.len() == 0 {
        Seq::empty()
    } else {
        "forall"@ + var_names_text(s.vars@, s.vars@.len() as int) + ". "@
    };
    let ctx = if s.context@.len() == 0 {
        Seq::empty()
    } else if s.context@.len() == 1 {
        constraint_text(s.context@[0]) + " => "@
    } else {
        "("@ + constraints_text(s.context@, s.context@.len() as int) + ") => "@
    };
    quant + ctx + ty_text(s.body, 0)
}

impl TyVar {
    /// The variable as it reads in diagnostics.
    pub fn display(&self) -> (r: String)
        ensures
            r@ == tyvar_text(*self),
    {
        let mut r = String::new();
        if self.name.as_str().is_empty() {
            r.append("t");
        } else {
            r.append(self.name.as_str());
            r.append("#");
        }
        let n = usize_text(self.id as usize);
        r.append(n.as_str());
        proof {
            reveal_strlit("t");
            reveal_strlit("#");
        }
        r
    }
}

impl Kind {
    /// The kind as it reads in diagnostics.
    pub fn display(&self) -> (r: String)
        ensures
            r@ == kind_text(*self),
    {
        let mut r = String::new();
        self.display_into(&mut r);
        assert(r@ =~= kind_text(*self));
        r
    }

    fn display_into(&self, out: &mut String)
        ensures
            final(out)@ == old(out)@ + kind_text(*self),
        decreases self,
    {
        proof {
            reveal_strlit("*");
            reveal_strlit("(");
            reveal_strlit(") -> ");
            reveal_strlit(" -> ");
            reveal_strlit("k");
        }
        let ghost o = out@;
        match self {
            Kind::Star => {
                out.append("*");
            },
            Kind::Arrow(a, b) => {
                let paren = match &**a {
                    Kind::Arrow(..) => true,
                    _ => false,
                };
                if paren {
                    out.append("(");
                    a.display_into(out);
                    out.append(") -> ");
                } else {
                    a.display_into(out);
                    out.append(" -> ");
                }
                b.display_into(out);
            },
            Kind::Var(i) => {
                out.append("k");
                let n = usize_text(*i as usize);
                out.append(n.as_str());
            },
        }
        assert(out@ =~= o + kind_text(*self));
    }
}

impl Ty {
    /// The type as it reads in diagnostics.
    pub fn display(&self) -> (r: String)
        ensures
            r@ == ty_text(*self, 0),
    {
        let mut r = String::new();
        self.display_into(0, &mut r);
        assert(r@ =~= ty_text(*self, 0));
        r
    }

    fn display_into(&self, ctx: u8, out: &mut String)
        ensures
            final(out)@ == old(out)@ + ty_text(*self, ctx as int),
        decreases self,
    {
        proof {
            reveal_strlit("(");
            reveal_strlit(")");
            reveal_strlit(" ");
            reveal_strlit(" -> ");
            reveal_strlit("{ ");
            reveal_strlit(" }");
            reveal_strlit(", ");
            reveal_strlit(" : ");
        }
        let ghost o = out@;
        match self {
            Ty::Var(v) => {
                let s = v.display();
                out.append(s.as_str());
            },
            Ty::Con { name, .. } => {
                out.append(name.as_str());
            },
            Ty::App(g, x) => {
                if ctx >= 2 {
                    out.append("(");
                }
                g.display_into(1, out);
                out.append(" ");
                x.display_into(2, out);
                if ctx >= 2 {
                    out.append(")");
                }
            },
            Ty::Fun(a, b) => {
                if ctx >= 1 {
                    out.append("(");
                }
                a.display_into(1, out);
                out.append(" -> ");
                b.display_into(0, out);
                if ctx >= 1 {
                    out.append(")");
                }
            },
            Ty::Record(fs) => {
                proof {
                    assert(decreases_to!(self => fs));
                    assert(decreases_to!(fs => fs@));
                }
                out.append("{ ");
                let ghost o2 = out@;
                let mut i: usize = 0;
                while i < fs.len()
                    invariant
                        i <= fs@.len(),
                        decreases_to!(self => fs@),
                        out@ == o2 + fields_text(fs@, i as int),
                    decreases fs.len() - i,
                {
                    proof {
                        assert(decreases_to!(fs@ => fs@[i as int]));
                        assert(decreases_to!(fs@[i as int] => fs@[i as int].1));
                    }
                    let ghost before = out@;
                    if i > 0 {
                        out.append(", ");
                    }
                    out.append(fs[i].0.as_str());
                    out.append(" : ");
                    fs[i].1.display_into(0, out);
                    proof {
                        let sep = if i + 1 > 1 {
                            ", "@
                        } else {
                            Seq::<char>::empty()
                        };
                        assert(fields_text(fs@, i + 1) == fields_text(fs@, i as int) + sep + fs@[i as int].0@
                            + " : "@ + ty_text(fs@[i as int].1, 0));
                        assert(out@ =~= o2 + fields_text(fs@, i + 1));
                    }
                    i = i + 1;
                }
                out.append(" }");
            },
        }
        assert(out@ =~= o + ty_text(*self, ctx as int));
    }
}

impl Constraint {
    /// The constraint as it reads in diagnostics.
    pub fn display(&self) -> (r: String)
        ensures
            r@ == constraint_text(*self),
    {
        let mut r = self.class.clone();
        r.append(" ");
        let t = self.arg.display();
        r.append(t.as_str());
        proof {
            reveal_strlit(" ");
        }
        assert(r@ =~= constraint_text(*self));
        r
    }
}

impl Scheme {
    /// The scheme as it reads in diagnostics and dumps.
    pub fn pretty(&self) -> (r: String)
        ensures
            r@ == scheme_text(*self),
    {
        proof {
            reveal_strlit("forall");
            reveal_strlit(". ");
            reveal_strlit(" ");
            reveal_strlit(" => ");
            reveal_strlit("(");
            reveal_strlit(") => ");
            reveal_strlit(", ");
        }
        let mut s = String::new();
        let ghost quant = if self.vars@.len() == 0 {
            Seq::<char>::empty()
        } else {
            "forall"@ + var_names_text(self.vars@, self.vars@.len() as int) + ". "@
        };
        if self.vars.len() > 0 {
            s.append("forall");
            let mut i: usize = 0;
            while i < self.vars.len()
                invariant
                    i <= self.vars@.len(),
                    s@ == "forall"@ + var_names_text(self.vars@, i as int),
                decreases self.vars.len() - i,
            {
                s.append(" ");
                s.append(self.vars[i].name.as_str());
                proof {
                    assert(var_names_text(self.vars@, i + 1) == var_names_text(self.vars@, i as int) + " "@
                        + self.vars@[i as int].name@);
                    assert(s@ =~= "forall"@ + var_names_text(self.vars@, i + 1));
                }
                i = i + 1;
            }
            s.append(". ");
        }
        assert(s@ =~= quant);
        let ghost ctx = if self.context@.len() == 0 {
            Seq::<char>::empty()
        } else if self.context@.len() == 1 {
            constraint_text(self.context@[0]) + " => "@
        } else {
            "("@ + constraints_text(self.context@, self.context@.len() as int) + ") => "@
        };
        if self.context.len() == 1 {
            let c = self.context[0].display();
            s.append(c.as_str());
            s.append(" => ");
        } else if self.context.len() > 1 {
            s.append("(");
            let ghost base = s@;
            let mut i: usize = 0;
            while i < self.context.len()
                invariant
                    i <= self.context@.len(),
                    s@ == base + constraints_text(self.context@, i as int),
                decreases self.context.len() - i,
            {
                if i > 0 {
                    s.append(", ");
                }
                let c = self.context[i].display();
                s.append(c.as_str());
                proof {
                    let sep = if i + 1 > 1 {
                        ", "@
                    } else {
                        Seq::<char>::empty()
                    };
                    assert(constraints_text(self.context@, i + 1) == constraints_text(self.context@, i as int)
                        + sep + constraint_text(self.context@[i as int]));
                    assert(s@ =~= base + constraints_text(self.context@, i + 1));
                }
                i = i + 1;
            }
            s.append(") => ");
        }
        assert(s@ =~= quant + ctx);
        let b = self.body.display();
        s.append(b.as_str());
        assert(s@ =~= scheme_text(*self));
        s
    }
}

} // verus!
