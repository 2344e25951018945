//! Chained lexical scopes mapping variable names to values.
//!
//! An environment is a frame of bindings plus an optional enclosing
//! environment; the chain's view is a sequence of maps, outermost first.
//! `define` writes the innermost frame, `access` reads the nearest binding,
//! and `assign` rewrites the nearest frame that already holds the name.

use vstd::prelude::*;

use crate::literal::LitV;
use crate::literal::Literal;

verus! {

broadcast use vstd::std_specs::vec::group_vec_axioms;

/// One name-to-value binding in a scope frame.
#[derive(Debug)]
pub struct Binding {
    pub name: String,
    pub value: Literal,
}

/// A lexical scope frame with its chain of enclosing frames.
#[derive(Debug)]
pub struct Environment {
    values: Vec<Binding>,
    enclosing: Option<Box<Environment>>,
}

/// The sequence of scope maps of an environment, outermost first.
pub type EnvV = Seq<Map<Seq<char>, LitV>>;

/// The map a frame of bindings denotes; a later binding for a name wins.
pub open spec fn frame_map(s: Seq<Binding>) -> Map<Seq<char>, LitV>
    decreases s.len(),
{
    if s.len() == 0 {
        Map::empty()
    } else {
        frame_map(s.drop_last()).insert(s.last().name@, s.last().value@)
    }
}

/// The view of an environment chain, outermost frame first.
pub closed spec fn env_view(e: &Environment) -> EnvV
    decreases e,
{
    match &e.enclosing {
        Some(enc) => env_view(enc).push(frame_map(e.values@)),
        None => seq![frame_map(e.values@)],
    }
}

impl View for Environment {
    type V = EnvV;

    closed spec fn view(&self) -> EnvV {
        env_view(self)
    }
}

/// The nearest binding of a name: the last frame that holds it decides.
pub open spec fn env_lookup(env: EnvV, name: Seq<char>) -> Option<LitV>
    decreases env.len(),
{
    if env.len() == 0 {
        None
    } else if env.last().contains_key(name) {
        Some(env.last()[name])
    } else {
        env_lookup(env.drop_last(), name)
    }
}

/// Binding a name in the innermost frame, shadowing any outer binding.
pub open spec fn env_define(env: EnvV, name: Seq<char>, value: LitV) -> EnvV {
    env.update(env.len() - 1, env.last().insert(name, value))
}

/// Rewriting the nearest frame that holds the name; `None` when no frame
/// does.
pub open spec fn env_assign(env: EnvV, name: Seq<char>, value: LitV) -> Option<EnvV>
    decreases env.len(),
{
    if env.len() == 0 {
        None
    } else if env.last().contains_key(name) {
        Some(env.update(env.len() - 1, env.last().insert(name, value)))
    } else {
        match env_assign(env.drop_last(), name, value) {
            Some(outer) => Some(outer.push(env.last())),
            None => None,
        }
    }
}

/// An environment chain always holds at least its root scope.
pub broadcast proof fn lemma_env_nonempty(e: &Environment)
    ensures
        #[trigger] e@.len() >= 1,
{
    match &e.enclosing {
        Some(b) => {
            assert(e@ == env_view(&**b).push(frame_map(e.values@)));
        },
        None => {
            assert(e@ == seq![frame_map(e.values@)]);
        },
    }
}

/// A successful assignment never changes the number of frames.
pub proof fn lemma_env_assign_len(env: EnvV, name: Seq<char>, value: LitV)
    ensures
        env_assign(env, name, value) matches Some(e2) ==> e2.len() == env.len(),
    decreases env.len(),
{
    if env.len() > 0 && !env.last().contains_key(name) {
        lemma_env_assign_len(env.drop_last(), name, value);
    }
}

/// If no binding at or after position `i` carries the name, the frame's map
/// agrees with the map of the first `i` bindings on that name.
proof fn lemma_frame_skip(s: Seq<Binding>, name: Seq<char>, i: int)
    requires
        0 <= i <= s.len(),
        forall|j: int| i <= j < s.len() ==> (#[trigger] s[j]).name@ != name,
    ensures
        frame_map(s).contains_key(name) == frame_map(s.take(i)).contains_key(name),
        frame_map(s).contains_key(name) ==> frame_map(s)[name] == frame_map(s.take(i))[name],
    decreases s.len() - i,
{
    if i == s.len() {
        assert(s.take(i) =~= s);
    } else {
        lemma_frame_skip(s, name, i + 1);
        assert(s.take(i + 1).drop_last() =~= s.take(i));
        assert(s.take(i + 1).last() == s[i]);
        assert(frame_map(s.take(i + 1)) == frame_map(s.take(i)).insert(
            s[i].name@,
            s[i].value@,
        ));
        assert(s[i].name@ != name);
    }
}

/// The map of a frame whose last binding for `name` sits at `i` returns that
/// binding's value.
proof fn lemma_frame_found(s: Seq<Binding>, name: Seq<char>, i: int)
    requires
        0 <= i < s.len(),
        s[i].name@ == name,
        forall|j: int| i < j < s.len() ==> (#[trigger] s[j]).name@ != name,
    ensures
        frame_map(s).contains_key(name),
        frame_map(s)[name] == s[i].value@,
{
    lemma_frame_skip(s, name, i + 1);
    assert(s.take(i + 1).drop_last() =~= s.take(i));
    assert(s.take(i + 1).last() == s[i]);
}

/// Replacing the last binding for `name` rewrites exactly that name in the
/// frame's map.
proof fn lemma_frame_update(s: Seq<Binding>, name: Seq<char>, i: int, b: Binding)
    requires
        0 <= i < s.len(),
        s[i].name@ == name,
        b.name@ == name,
        forall|j: int| i < j < s.len() ==> (#[trigger] s[j]).name@ != name,
    ensures
        frame_map(s.update(i, b)) =~= frame_map(s).insert(name, b.value@),
    decreases s.len(),
{
    let t = s.update(i, b);
    if i == s.len() - 1 {
        assert(t.drop_last() =~= s.drop_last());
        assert(t.last() == b);
    } else {
        assert(t.drop_last() =~= s.drop_last().update(i, b));
        assert(t.last() == s.last());
        lemma_frame_update(s.drop_last(), name, i, b);
        assert(s.last().name@ != name);
        assert(frame_map(t) =~= frame_map(s.drop_last()).insert(name, b.value@).insert(
            s.last().name@,
            s.last().value@,
        ));
    }
}

impl Environment {
    /// A fresh root environment with one empty scope.
    pub fn new() -> (r: Self)
        ensures
            r@ =~= seq![Map::<Seq<char>, LitV>::empty()],
    {
        Environment { values: Vec::new(), enclosing: None }
    }

    /// A child environment whose new innermost scope is empty.
    pub fn from_enclosing(enclosing: Environment) -> (r: Self)
        ensures
            r@ =~= enclosing@.push(Map::empty()),
    {
        Environment { values: Vec::new(), enclosing: Some(Box::new(enclosing)) }
    }

    /// Opens a new innermost scope in place.
    pub fn push_scope(&mut self)
        ensures
            final(self)@ =~= old(self)@.push(Map::empty()),
    {
        let mut taken = Environment::new();
        core::mem::swap(self, &mut taken);
        let mut fresh = Environment::from_enclosing(taken);
        core::mem::swap(self, &mut fresh);
    }

    /// Discards the innermost scope, restoring the enclosing one.
    pub fn pop_scope(&mut self)
        requires
            old(self)@.len() >= 2,
        ensures
            final(self)@ =~= old(self)@.drop_last(),
    {
        let enc = self.enclosing.take();
        match enc {
            Some(b) => {
                let mut inner = *b;
                core::mem::swap(self, &mut inner);
            },
            None => {
                proof {
                    assert(false);
                }
            },
        }
    }

    /// Binds `name` to `value` in the innermost scope, shadowing without any
    /// duplicate check.
    pub fn define(&mut self, name: String, value: Literal)
        ensures
            final(self)@ =~= env_define(old(self)@, name@, value@),
    {
        let found = self.find_last(&name);
        match found {
            Some(i) => {
                proof {
                    lemma_frame_update(
                        self.values@,
                        name@,
                        i as int,
                        Binding { name, value },
                    );
                }
                self.values[i] = Binding { name, value };
                proof {
                    assert(self@ =~= env_define(old(self)@, name@, value@));
                }
            },
            None => {
                self.values.push(Binding { name, value });
                proof {
                    assert(self.values@.drop_last() =~= old(self).values@);
                    assert(self@ =~= env_define(old(self)@, name@, value@));
                }
            },
        }
    }

    /// The index of the last binding for `name` in this frame, if any.
    fn find_last(&self, name: &String) -> (r: Option<usize>)
        ensures
            match r {
                Some(i) => i < self.values@.len() && self.values@[i as int].name@ == name@
                    && forall|j: int|
                    i < j < self.values@.len() ==> (#[trigger] self.values@[j]).name@ != name@,
                None => forall|j: int|
                    0 <= j < self.values@.len() ==> (#[trigger] self.values@[j]).name@ != name@,
            },
    {
        let mut i = self.values.len();
        while i > 0
            invariant
                i <= self.values@.len(),
                forall|j: int|
                    i <= j < self.values@.len() ==> (#[trigger] self.values@[j]).name@ != name@,
            decreases i,
        {
            i = i - 1;
            if self.values[i].name.eq(name) {
                return Some(i);
            }
        }
        None
    }

    /// The value of the nearest binding for `name`, or `None` when no scope
    /// in the chain binds it.
    pub fn access(&self, name: &String) -> (r: Option<Literal>)
        ensures
            match env_lookup(self@, name@) {
                Some(v) => r matches Some(l) && l@ == v,
                None => r is None,
            },
        decreases self@.len(),
    {
        let found = self.find_last(name);
        proof {
            match &self.enclosing {
                Some(enc) => {
                    assert(self@ == env_view(&**enc).push(frame_map(self.values@)));
                    assert(self@.drop_last() =~= env_view(&**enc));
                },
                None => {
                    assert(self@ == seq![frame_map(self.values@)]);
                    assert(self@.drop_last() =~= Seq::<Map<Seq<char>, LitV>>::empty());
                },
            }
            assert(self@.last() == frame_map(self.values@));
        }
        match found {
            Some(i) => {
                proof {
                    lemma_frame_found(self.values@, name@, i as int);
                    assert(env_lookup(self@, name@) == Some(frame_map(self.values@)[name@]));
                }
                Some(self.values[i].value.clone())
            },
            None => {
                proof {
                    lemma_frame_skip(self.values@, name@, 0);
                    assert(self.values@.take(0) =~= Seq::<Binding>::empty());
                    assert(!frame_map(self.values@).contains_key(name@));
                    assert(env_lookup(self@, name@) == env_lookup(self@.drop_last(), name@));
                }
                match &self.enclosing {
                    Some(enc) => {
                        proof {
                            assert(self@.drop_last() =~= env_view(&**enc));
                        }
                        enc.access(name)
                    },
                    None => None,
                }
            },
        }
    }

    /// Rewrites the nearest binding for `name` and returns the value; `None`
    /// and no change when no scope in the chain binds it.
    pub fn assign(&mut self, name: &String, value: Literal) -> (r: Option<Literal>)
        ensures
            match env_assign(old(self)@, name@, value@) {
                Some(e2) => (r matches Some(l) && l@ == value@) && final(self)@ =~= e2,
                None => r is None && final(self)@ =~= old(self)@,
            },
        decreases old(self)@.len(),
    {
        proof {
            match &self.enclosing {
                Some(b) => {
                    assert(self@ == env_view(&**b).push(frame_map(self.values@)));
                    assert(self@.drop_last() =~= env_view(&**b));
                },
                None => {
                    assert(self@ == seq![frame_map(self.values@)]);
                    assert(self@.drop_last() =~= Seq::<Map<Seq<char>, LitV>>::empty());
                },
            }
            assert(self@.last() == frame_map(self.values@));
        }
        let ghost pre = self@;
        let found = self.find_last(name);
        match found {
            Some(i) => {
                let stored = value.clone();
                let key = name.clone();
                proof {
                    lemma_frame_found(self.values@, name@, i as int);
                    lemma_frame_update(
                        self.values@,
                        name@,
                        i as int,
                        Binding { name: key, value: stored },
                    );
                    assert(env_assign(pre, name@, value@) == Some(
                        pre.update(pre.len() - 1, pre.last().insert(name@, value@)),
                    ));
                }
                self.values[i] = Binding { name: key, value: stored };
                proof {
                    match &self.enclosing {
                        Some(b) => {
                            assert(self@ == env_view(&**b).push(frame_map(self.values@)));
                        },
                        None => {
                            assert(self@ == seq![frame_map(self.values@)]);
                        },
                    }
                    assert(self@ =~= pre.update(
                        pre.len() - 1,
                        pre.last().insert(name@, value@),
                    ));
                }
                Some(value)
            },
            None => {
                proof {
                    lemma_frame_skip(self.values@, name@, 0);
                    assert(self.values@.take(0) =~= Seq::<Binding>::empty());
                    assert(!frame_map(self.values@).contains_key(name@));
                    if pre.len() == 1 {
                        assert(env_assign(pre.drop_last(), name@, value@) is None);
                    }
                }
                let mut enc_opt = self.enclosing.take();
                let r: Option<Literal>;
                match &mut enc_opt {
                    Some(enc) => {
                        proof {
                            assert(env_view(&**enc) == pre.drop_last());
                        }
                        r = enc.assign(name, value);
                    },
                    None => {
                        r = None;
                    },
                }
                self.enclosing = enc_opt;
                proof {
                    assert(self.values@ == old(self).values@);
                    match &self.enclosing {
                        Some(b) => {
                            assert(self@ == env_view(&**b).push(frame_map(self.values@)));
                            match env_assign(pre.drop_last(), name@, value@) {
                                Some(e2) => {
                                    assert(self@ =~= e2.push(pre.last()));
                                },
                                None => {
                                    assert(env_view(&**b) == pre.drop_last());
                                    assert(self@ =~= pre);
                                },
                            }
                        },
                        None => {
                            assert(self@ == seq![frame_map(self.values@)]);
                            assert(self@ =~= pre);
                        },
                    }
                }
                r
            },
        }
    }
}

} // verus!
