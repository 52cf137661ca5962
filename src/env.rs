use vstd::prelude::*;

use crate::interp::{Fault, InterpError, InterpErrorReason};
use crate::value::{SpecValue, Value};

verus! {

/// One scope's bindings, as a map from name to value.
pub type Frame = Map<Seq<char>, SpecValue>;

/// A chain of scopes, the innermost first.
pub type Scopes = Seq<Frame>;

/// The bindings held in a list of pairs; a later pair with the same name wins.
pub open spec fn frame_map(f: Seq<(String, Value)>) -> Frame
    decreases f.len(),
{
    if f.len() == 0 {
        Map::empty()
    } else {
        frame_map(f.drop_last()).insert(f.last().0@, f.last().1@)
    }
}

/// A chain of lexical scopes: this scope's bindings and the scope that encloses it.
pub struct Env {
    enclosing: Option<Box<Env>>,
    values: Vec<(String, Value)>,
}

/// The model of a scope chain, the innermost scope first.
pub closed spec fn env_model(e: Env) -> Scopes
    decreases e,
{
    match e.enclosing {
        Some(outer) => seq![frame_map(e.values@)] + env_model(*outer),
        None => seq![frame_map(e.values@)],
    }
}

impl View for Env {
    type V = Scopes;

    open spec fn view(&self) -> Scopes {
        env_model(*self)
    }
}

/// The value bound to `name` in the innermost scope that binds it.
pub open spec fn scopes_lookup(s: Scopes, name: Seq<char>) -> Option<SpecValue>
    decreases s.len(),
{
    if s.len() == 0 {
        None
    } else if s[0].contains_key(name) {
        Some(s[0][name])
    } else {
        scopes_lookup(s.drop_first(), name)
    }
}

/// Overwrites `name` in the innermost scope that binds it; `None` where no
/// scope binds it.
pub open spec fn scopes_assign(s: Scopes, name: Seq<char>, v: SpecValue) -> Option<Scopes>
    decreases s.len(),
{
    if s.len() == 0 {
        None
    } else if s[0].contains_key(name) {
        Some(s.update(0, s[0].insert(name, v)))
    } else {
        match scopes_assign(s.drop_first(), name, v) {
            Some(t) => Some(seq![s[0]] + t),
            None => None,
        }
    }
}

/// Binds `name` in the innermost scope, whether or not it was bound there.
pub open spec fn scopes_declare(s: Scopes, name: Seq<char>, v: SpecValue) -> Scopes {
    s.update(0, s[0].insert(name, v))
}

proof fn lemma_env_nonempty(e: Env)
    ensures
        e@.len() >= 1,
        e@[0] == frame_map(e.values@),
        e@.drop_first() == match e.enclosing {
            Some(outer) => env_model(*outer),
            None => Seq::<Frame>::empty(),
        },
{
    match e.enclosing {
        Some(outer) => assert(e@.drop_first() =~= env_model(*outer)),
        None => assert(e@.drop_first() =~= Seq::<Frame>::empty()),
    }
}

proof fn lemma_frame_suffix(f: Seq<(String, Value)>, n: int, k: Seq<char>)
    requires
        0 <= n <= f.len(),
        forall|j: int| n <= j < f.len() ==> (#[trigger] f[j]).0@ != k,
    ensures
        frame_map(f).contains_key(k) == frame_map(f.take(n)).contains_key(k),
        frame_map(f).contains_key(k) ==> frame_map(f)[k] == frame_map(f.take(n))[k],
    decreases f.len(),
{
    if n < f.len() {
        assert(f.drop_last().take(n) =~= f.take(n));
        lemma_frame_suffix(f.drop_last(), n, k);
    } else {
        assert(f.take(n) =~= f);
    }
}

proof fn lemma_frame_at(f: Seq<(String, Value)>, j: int)
    requires
        0 <= j < f.len(),
    ensures
        frame_map(f.take(j + 1)) == frame_map(f.take(j)).insert(f[j].0@, f[j].1@),
{
    assert(f.take(j + 1).drop_last() =~= f.take(j));
}

proof fn lemma_frame_update(f: Seq<(String, Value)>, j: int, p: (String, Value))
    requires
        0 <= j < f.len(),
        p.0@ == f[j].0@,
        forall|i: int| j < i < f.len() ==> (#[trigger] f[i]).0@ != p.0@,
    ensures
        frame_map(f.update(j, p)) == frame_map(f).insert(p.0@, p.1@),
    decreases f.len(),
{
    let g = f.update(j, p);
    if j == f.len() - 1 {
        assert(g.drop_last() =~= f.drop_last());
        assert(frame_map(g) =~= frame_map(f).insert(p.0@, p.1@));
    } else {
        assert(g.drop_last() =~= f.drop_last().update(j, p));
        lemma_frame_update(f.drop_last(), j, p);
        assert(frame_map(g) =~= frame_map(f).insert(p.0@, p.1@));
    }
}

impl Env {
    /// A root scope with no bindings.
    pub fn new() -> (r: Env)
        ensures
            r@ == seq![Frame::empty()],
    {
        let r = Env { enclosing: None, values: Vec::new() };
        assert(frame_map(r.values@) == Frame::empty());
        r
    }

    /// A new, empty scope nested in `enclosing`.
    pub fn enclosing(enclosing: Env) -> (r: Env)
        ensures
            r@ == seq![Frame::empty()] + enclosing@,
    {
        let r = Env { enclosing: Some(Box::new(enclosing)), values: Vec::new() };
        assert(frame_map(r.values@) == Frame::empty());
        r
    }

    /// Where `id` stands among this scope's own pairs, the last one first.
    fn position(&self, id: &String) -> (r: Option<usize>)
        ensures
            match r {
                Some(j) => j < self.values@.len() && self.values@[j as int].0@ == id@ && forall|
                    i: int,
                | j < i < self.values@.len() ==> (#[trigger] self.values@[i]).0@ != id@,
                None => forall|i: int|
                    0 <= i < self.values@.len() ==> (#[trigger] self.values@[i]).0@ != id@,
            },
    {
        let mut n = self.values.len();
        while n > 0
            invariant
                n <= self.values@.len(),
                forall|i: int| n <= i < self.values@.len() ==> (#[trigger] self.values@[i]).0@ != id@,
            decreases n,
        {
            let same = self.values[n - 1].0.eq(id);
            if same {
                return Some(n - 1);
            }
            n = n - 1;
        }
        None
    }

    /// Binds `id` to `value` in this scope, overwriting a binding it had here.
    pub fn declare(&mut self, id: String, value: Value)
        ensures
            final(self)@ == scopes_declare(old(self)@, id@, value@),
    {
        proof {
            lemma_env_nonempty(*self);
        }
        let ghost k = id@;
        let ghost v = value@;
        match self.position(&id) {
            Some(j) => {
                proof {
                    lemma_frame_update(self.values@, j as int, (id, value));
                }
                self.values.set(j, (id, value));
            },
            None => {
                self.values.push((id, value));
                proof {
                    assert(self.values@.drop_last() =~= old(self).values@);
                }
            },
        }
        proof {
            lemma_env_nonempty(*self);
            assert(self@ =~= scopes_declare(old(self)@, k, v));
        }
    }

    /// Overwrites `id` in the innermost scope that binds it; `false`, and no
    /// change, where no scope of the chain binds it.
    pub fn assign(&mut self, id: String, value: Value) -> (r: bool)
        ensures
            r == scopes_assign(old(self)@, id@, value@) is Some,
            r ==> final(self)@ == scopes_assign(old(self)@, id@, value@)->Some_0,
            !r ==> final(self)@ == old(self)@,
        decreases old(self)@.len(),
    {
        proof {
            lemma_env_nonempty(*self);
        }
        let ghost k = id@;
        let ghost v = value@;
        match self.position(&id) {
            Some(j) => {
                proof {
                    lemma_frame_update(self.values@, j as int, (id, value));
                    lemma_frame_suffix(self.values@, j + 1, k);
                    lemma_frame_at(self.values@, j as int);
                }
                self.values.set(j, (id, value));
                proof {
                    lemma_env_nonempty(*self);
                    assert(old(self)@[0].contains_key(k));
                    assert(self@ =~= scopes_assign(old(self)@, k, v)->Some_0);
                }
                true
            },
            None => {
                proof {
                    lemma_frame_suffix(self.values@, 0, k);
                }
                let outer = self.enclosing.take();
                match outer {
                    Some(b) => {
                        let mut inner: Env = *b;
                        assert(!old(self)@[0].contains_key(k));
                        assert(old(self)@.drop_first() == inner@);
                        let done = inner.assign(id, value);
                        self.enclosing = Some(Box::new(inner));
                        proof {
                            lemma_env_nonempty(*self);
                            if done {
                                assert(self@ =~= scopes_assign(old(self)@, k, v)->Some_0);
                            } else {
                                assert(self@ =~= old(self)@);
                            }
                        }
                        done
                    },
                    None => {
                        proof {
                            assert(!old(self)@[0].contains_key(k));
                            assert(old(self)@.drop_first().len() == 0);
                            assert(scopes_assign(old(self)@.drop_first(), k, v) is None);
                            assert(self@ == old(self)@) by {
                                lemma_env_nonempty(*self);
                                assert(self@ =~= old(self)@);
                            }
                        }
                        false
                    },
                }
            },
        }
    }

    /// The value bound to `id` in the innermost scope that binds it.
    pub fn lookup(&self, id: &String) -> (r: Option<Value>)
        ensures
            r is Some == scopes_lookup(self@, id@) is Some,
            r is Some ==> r->Some_0@ == scopes_lookup(self@, id@)->Some_0,
        decreases self@.len(),
    {
        proof {
            lemma_env_nonempty(*self);
        }
        match self.position(id) {
            Some(j) => {
                proof {
                    lemma_frame_suffix(self.values@, j + 1, id@);
                    lemma_frame_at(self.values@, j as int);
                }
                assert(self@[0].contains_key(id@));
                Some(self.values[j].1.duplicate())
            },
            None => {
                proof {
                    lemma_frame_suffix(self.values@, 0, id@);
                }
                match &self.enclosing {
                    Some(b) => {
                        assert(!self@[0].contains_key(id@));
                        assert(scopes_lookup(self@, id@) == scopes_lookup((**b)@, id@));
                        (**b).lookup(id)
                    },
                    None => {
                        assert(!self@[0].contains_key(id@));
                        assert(scopes_lookup(self@.drop_first(), id@) is None);
                        None
                    },
                }
            },
        }
    }

    /// The value bound to `id`, or an undeclared-variable error.
    pub fn get_ident_value(&self, id: &String) -> (r: Result<Value, InterpError>)
        ensures
            match scopes_lookup(self@, id@) {
                Some(v) => r is Ok && r->Ok_0@ == v,
                None => r is Err && r->Err_0@ == Fault::UndeclaredVar(id@),
            },
    {
        match self.lookup(id) {
            Some(v) => Ok(v),
            None => Err(InterpError::value(InterpErrorReason::UndeclaredVar(id.clone()))),
        }
    }
}

} // verus!
