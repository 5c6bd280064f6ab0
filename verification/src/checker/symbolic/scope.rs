//! Lexical scopes.

use vstd::prelude::*;
use crate::name_map::NameMap;
use crate::text::texts;

verus! {

/// Single global symbol table and a stack of local frames.
#[derive(Debug)]
pub struct Scope {
    pub globals: NameMap<i64>,
    pub locals: Vec<NameMap<i64>>,
}

/// Mathematical model of [`Scope`].
pub struct ScopeV {
    pub globals: Map<Seq<char>, i64>,
    pub locals: Seq<Map<Seq<char>, i64>>,
}

/// The tables of a stack of frames.
pub open spec fn frames_of(s: Seq<NameMap<i64>>) -> Seq<Map<Seq<char>, i64>> {
    Seq::new(s.len(), |i: int| s[i]@)
}

impl View for Scope {
    type V = ScopeV;

    open spec fn view(&self) -> ScopeV {
        ScopeV { globals: self.globals@, locals: frames_of(self.locals@) }
    }
}

impl ScopeV {
    /// The scope with a new innermost frame.
    pub open spec fn pushed(self) -> ScopeV {
        ScopeV { locals: self.locals.push(Map::empty()), ..self }
    }

    /// The scope without its innermost frame.
    pub open spec fn popped(self) -> ScopeV {
        if self.locals.len() == 0 {
            self
        } else {
            ScopeV { locals: self.locals.drop_last(), ..self }
        }
    }

    /// The scope with a name bound in the innermost frame, or globally when there is none.
    pub open spec fn with_local(self, name: Seq<char>, id: i64) -> ScopeV {
        if self.locals.len() == 0 {
            self.with_global(name, id)
        } else {
            ScopeV {
                locals: self.locals.drop_last().push(self.locals.last().insert(name, id)),
                ..self
            }
        }
    }

    /// The scope with a name bound globally.
    pub open spec fn with_global(self, name: Seq<char>, id: i64) -> ScopeV {
        ScopeV { globals: self.globals.insert(name, id), ..self }
    }

    /// The binding of a name: inner frames before outer ones, then the globals.
    pub open spec fn resolve(self, name: Seq<char>) -> Option<i64>
        decreases self.locals.len(),
    {
        if self.locals.len() > 0 {
            if self.locals.last().contains_key(name) {
                Some(self.locals.last()[name])
            } else {
                self.popped().resolve(name)
            }
        } else if self.globals.contains_key(name) {
            Some(self.globals[name])
        } else {
            None
        }
    }

    /// The binding of a path, which is that of its last segment.
    pub open spec fn resolve_path(self, segs: Seq<Seq<char>>) -> Option<i64> {
        if segs.len() == 0 {
            None
        } else {
            self.resolve(segs.last())
        }
    }
}

/// A new binding shadows every earlier binding of the same name and hides no other name.
pub proof fn binding_shadows(s: ScopeV, name: Seq<char>, id: i64, other: Seq<char>)
    requires
        other != name,
    ensures
        s.locals.len() > 0 ==> s.with_local(name, id).resolve(name) == Some(id),
        s.with_local(name, id).resolve(other) == s.resolve(other),
{
    let t = s.with_local(name, id);
    if s.locals.len() > 0 {
        assert(t.popped().locals =~= s.popped().locals);
        assert(t.popped() == s.popped());
    }
}

/// Leaving a frame restores every binding that was visible before it was entered.
pub proof fn pop_restores(s: ScopeV, name: Seq<char>, id: i64)
    ensures
        s.pushed().popped() == s,
        s.pushed().with_local(name, id).popped() == s,
        forall|n: Seq<char>| s.pushed().resolve(n) == s.resolve(n),
{
    assert(s.pushed().popped().locals =~= s.locals);
    assert(s.pushed().with_local(name, id).popped().locals =~= s.locals);
    assert forall|n: Seq<char>| s.pushed().resolve(n) == s.resolve(n) by {
        assert(s.pushed().popped() == s);
    }
}

impl Scope {
    /// The scope without any name.
    pub fn new() -> (r: Self)
        ensures
            r@ == (ScopeV { globals: Map::empty(), locals: seq![] }),
    {
        let r = Scope { globals: NameMap::new(), locals: Vec::new() };
        proof {
            assert(r@.locals =~= seq![]);
        }
        r
    }

    /// Enters a frame.
    pub fn push(&mut self)
        ensures
            final(self)@ == old(self)@.pushed(),
    {
        self.locals.push(NameMap::new());
        proof {
            assert(self@.locals =~= old(self)@.locals.push(Map::empty()));
        }
    }

    /// Leaves a frame.
    pub fn pop(&mut self)
        ensures
            final(self)@ == old(self)@.popped(),
    {
        let n = self.locals.len();
        if n > 0 {
            let _frame = self.locals.pop();
            proof {
                assert(self@.locals =~= old(self)@.locals.drop_last());
            }
        }
    }

    /// Binds a name in the innermost frame.
    pub fn insert_local(&mut self, name: String, id: i64)
        ensures
            final(self)@ == old(self)@.with_local(name@, id),
    {
        if self.locals.len() > 0 {
            let ghost before = self@.locals;
            let n = self.locals.len();
            let mut top = self.locals.remove(n - 1);
            top.set(name, id);
            self.locals.push(top);
            proof {
                assert(self@.locals =~= before.drop_last().push(before.last().insert(name@, id)));
            }
        } else {
            self.globals.set(name, id);
        }
    }

    /// Binds a name globally.
    pub fn insert_global(&mut self, name: String, id: i64)
        ensures
            final(self)@ == old(self)@.with_global(name@, id),
    {
        self.globals.set(name, id);
    }

    /// Locals from inner to outer, then globals.
    pub fn resolve_name(&self, name: &str) -> (r: Option<i64>)
        ensures
            r == self@.resolve(name@),
    {
        let mut i: usize = self.locals.len();
        let ghost all = self@;
        proof {
            assert(all.locals.take(all.locals.len() as int) =~= all.locals);
        }
        #[verifier::loop_isolation(false)]
        while i > 0
            invariant
                i <= self.locals@.len(),
                all.resolve(name@) == (ScopeV { locals: all.locals.take(i as int), ..all }).resolve(
                    name@,
                ),
            decreases i,
        {
            i = i - 1;
            let ghost cur = ScopeV { locals: all.locals.take(i + 1), ..all };
            proof {
                assert(cur.locals.last() == self.locals@[i as int]@);
                assert(cur.locals.drop_last() =~= all.locals.take(i as int));
            }
            match self.locals[i].get(name) {
                Some(id) => return Some(*id),
                None => {},
            }
        }
        match self.globals.get(name) {
            Some(id) => Some(*id),
            None => None,
        }
    }

    /// Take the last path segment (e.g., `a::b::C` gives `C`) and resolve it.
    pub fn resolve_path(&self, segs: &Vec<String>) -> (r: Option<i64>)
        ensures
            r == self@.resolve_path(texts(segs@)),
    {
        if segs.len() == 0 {
            None
        } else {
            proof {
                assert(texts(segs@).last() == segs@[segs@.len() - 1]@);
            }
            self.resolve_name(segs[segs.len() - 1].as_str())
        }
    }
}

} // verus!
