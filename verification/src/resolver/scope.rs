//! The stack of local scopes used while walking expression bodies.
//!
//! Local bindings come and go with their lambda, `let`, `case` arm or
//! `do` block: entering a binder pushes a frame, leaving it pops it.
//! Shadowing is allowed everywhere.
use vstd::prelude::*;

use crate::lexer::scan::text_is;
use crate::text::string_views;

verus! {

/// The names bound together by one binder.
#[derive(Debug)]
pub struct Frame {
    names: Vec<String>,
}

impl View for Frame {
    type V = Set<Seq<char>>;

    closed spec fn view(&self) -> Set<Seq<char>> {
        string_views(self.names@).to_set()
    }
}

impl Frame {
    /// A frame that binds nothing.
    pub fn new() -> (r: Frame)
        ensures
            r@ == Set::<Seq<char>>::empty(),
    {
        let r = Frame { names: Vec::new() };
        proof {
            assert(string_views(r.names@).to_set() =~= Set::<Seq<char>>::empty());
        }
        r
    }

    /// Bind `name` in this frame.
    pub fn insert(&mut self, name: &str)
        ensures
            final(self)@ == old(self)@.insert(name@),
    {
        if !self.contains(name) {
            let ghost n0 = self.names@;
            self.names.push(String::from_str(name));
            proof {
                let sv = string_views(self.names@);
                let s0 = string_views(n0);
                assert(sv =~= s0.push(name@));
                assert forall|a: Seq<char>| sv.contains(a) <==> (s0.contains(a) || a == name@) by {
                    if s0.contains(a) {
                        let j = choose|j: int| 0 <= j < s0.len() && s0[j] == a;
                        assert(sv[j] == a);
                    }
                    if a == name@ {
                        assert(sv[s0.len() as int] == a);
                    }
                    if sv.contains(a) {
                        let j = choose|j: int| 0 <= j < sv.len() && sv[j] == a;
                        if j < s0.len() {
                            assert(s0[j] == a);
                        }
                    }
                }
                assert(sv.to_set() =~= s0.to_set().insert(name@));
            }
        } else {
            assert(old(self)@.insert(name@) =~= old(self)@);
        }
    }

    /// Whether `name` is bound in this frame.
    pub fn contains(&self, name: &str) -> (r: bool)
        ensures
            r == self@.contains(name@),
    {
        let mut i: usize = 0;
        while i < self.names.len()
            invariant
                i <= self.names@.len(),
                forall|j: int| 0 <= j < i ==> self.names@[j]@ != name@,
            decreases self.names.len() - i,
        {
            if text_is(&self.names[i], name) {
                proof {
                    assert(string_views(self.names@)[i as int] == name@);
                }
                return true;
            }
            i = i + 1;
        }
        proof {
            if string_views(self.names@).to_set().contains(name@) {
                let j = choose|j: int|
                    0 <= j < self.names@.len() && string_views(self.names@)[j] == name@;
                assert(self.names@[j]@ == name@);
            }
        }
        false
    }
}

/// A stack of frames, pushed and popped as binders open and close.
#[derive(Debug)]
pub struct ScopeStack {
    frames: Vec<Frame>,
}

impl View for ScopeStack {
    type V = Seq<Set<Seq<char>>>;

    closed spec fn view(&self) -> Seq<Set<Seq<char>>> {
        self.frames@.map_values(|f: Frame| f@)
    }
}

/// `name` is bound in some frame of the stack.
pub open spec fn scope_binds(s: Seq<Set<Seq<char>>>, name: Seq<char>) -> bool {
    exists|i: int| 0 <= i < s.len() && #[trigger] s[i].contains(name)
}

impl ScopeStack {
    /// An empty stack.
    pub fn new() -> (r: ScopeStack)
        ensures
            r@ == Seq::<Set<Seq<char>>>::empty(),
    {
        let r = ScopeStack { frames: Vec::new() };
        assert(r@ =~= Seq::<Set<Seq<char>>>::empty());
        r
    }

    /// Open a frame that binds nothing.
    pub fn push(&mut self)
        ensures
            final(self)@ == old(self)@.push(Set::<Seq<char>>::empty()),
    {
        let f = Frame::new();
        self.frames.push(f);
        assert(self@ =~= old(self)@.push(Set::<Seq<char>>::empty()));
    }

    /// Close the innermost frame; an empty stack stays empty.
    pub fn pop(&mut self)
        ensures
            final(self)@ == if old(self)@.len() > 0 {
                old(self)@.drop_last()
            } else {
                old(self)@
            },
    {
        if self.frames.len() > 0 {
            let _ = self.frames.pop();
            assert(self@ =~= old(self)@.drop_last());
        }
    }

    /// Bind `name` in the innermost frame; with no frame open, nothing
    /// changes.
    pub fn bind(&mut self, name: &str)
        ensures
            final(self)@ == if old(self)@.len() > 0 {
                old(self)@.update(old(self)@.len() - 1, old(self)@.last().insert(name@))
            } else {
                old(self)@
            },
    {
        let n = self.frames.len();
        if n > 0 {
            let mut f = self.frames.pop().unwrap();
            f.insert(name);
            self.frames.push(f);
            assert(self@ =~= old(self)@.update(n - 1, old(self)@.last().insert(name@)));
        }
    }

    /// Whether `name` is bound in some open frame.
    pub fn lookup(&self, name: &str) -> (r: bool)
        ensures
            r == scope_binds(self@, name@),
    {
        let mut i = self.frames.len();
        while i > 0
            invariant
                i <= self.frames@.len(),
                forall|j: int| i <= j < self.frames@.len() ==> !(#[trigger] self@[j]).contains(name@),
            decreases i,
        {
            i = i - 1;
            if self.frames[i].contains(name) {
                assert(self@[i as int].contains(name@));
                return true;
            }
        }
        false
    }

    /// The number of open frames.
    pub fn depth(&self) -> (r: usize)
        ensures
            r == self@.len(),
    {
        self.frames.len()
    }
}

} // verus!
