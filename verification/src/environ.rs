//! The environment chain: a mutable name-to-value mapping per scope, with
//! an optional parent scope, implementing lexical scoping.
//!
//! Scopes live in an arena owned by the `Environment`; a handle (an index
//! into the arena) stands in for a reference to a scope.  A scope's parent
//! always has a smaller handle, so walking parent links terminates.  A
//! lookup or assignment that misses the local mapping recurses to the
//! parent; failure at the root is reported, never silently ignored.

use vstd::prelude::*;

use crate::LoxError;
use crate::interp::LoxValue;
use crate::interp::ValueModel;
use crate::tokenize::str_eq;

verus! {

/// One name bound to one value.
pub struct Binding {
    pub name: String,
    pub value: LoxValue,
}

/// One scope: its bindings, newest last, and its parent handle.
pub struct Scope {
    pub parent: Option<usize>,
    pub bindings: Vec<Binding>,
}

/// The arena of scopes.  Handle 0 is the root scope.
pub struct Environment {
    pub scopes: Vec<Scope>,
}

/// The mathematical model of one binding.
#[verifier::ext_equal]
pub struct BindingModel {
    pub name: Seq<char>,
    pub value: ValueModel,
}

/// The mathematical model of one scope.
#[verifier::ext_equal]
pub struct ScopeModel {
    pub parent: Option<int>,
    pub bindings: Seq<BindingModel>,
}

/// The mathematical model of the whole arena.
pub type EnvModel = Seq<ScopeModel>;

impl View for Binding {
    type V = BindingModel;

    open spec fn view(&self) -> BindingModel {
        BindingModel { name: self.name@, value: self.value@ }
    }
}

impl View for Scope {
    type V = ScopeModel;

    open spec fn view(&self) -> ScopeModel {
        ScopeModel {
            parent: match self.parent {
                Some(p) => Some(p as int),
                None => None,
            },
            bindings: self.bindings@.map_values(|b: Binding| b@),
        }
    }
}

impl View for Environment {
    type V = EnvModel;

    open spec fn view(&self) -> EnvModel {
        self.scopes@.map_values(|s: Scope| s@)
    }
}

/// What a name means inside one scope: the newest binding of that name.
pub open spec fn assoc_lookup(bs: Seq<BindingModel>, name: Seq<char>) -> Option<ValueModel>
    decreases bs.len(),
{
    if bs.len() == 0 {
        None
    } else if bs.last().name == name {
        Some(bs.last().value)
    } else {
        assoc_lookup(bs.drop_last(), name)
    }
}

/// Every scope's parent handle points at an earlier scope.
pub open spec fn env_wf(env: EnvModel) -> bool {
    forall|j: int|
        0 <= j < env.len() ==> (#[trigger] env[j].parent matches Some(p) ==> 0 <= p < j)
}

/// What a name means at a handle: the local meaning, or the parent's.
pub open spec fn env_lookup(env: EnvModel, h: int, name: Seq<char>) -> Option<ValueModel>
    decreases (if h >= 0 {
        h + 1
    } else {
        0
    }),
{
    if 0 <= h < env.len() {
        match assoc_lookup(env[h].bindings, name) {
            Some(v) => Some(v),
            None => match env[h].parent {
                Some(p) => if 0 <= p < h {
                    env_lookup(env, p, name)
                } else {
                    None
                },
                None => None,
            },
        }
    } else {
        None
    }
}

/// What assigning at a handle produces: the arena with the new binding
/// pushed into the innermost scope of the chain that already binds the
/// name, or `None` when no scope in the chain does.
pub open spec fn env_set(env: EnvModel, h: int, name: Seq<char>, value: ValueModel) -> Option<
    EnvModel,
>
    decreases (if h >= 0 {
        h + 1
    } else {
        0
    }),
{
    if 0 <= h < env.len() {
        if assoc_lookup(env[h].bindings, name) is Some {
            Some(
                env.update(
                    h,
                    ScopeModel {
                        parent: env[h].parent,
                        bindings: env[h].bindings.push(BindingModel { name, value }),
                    },
                ),
            )
        } else {
            match env[h].parent {
                Some(p) => if 0 <= p < h {
                    env_set(env, p, name, value)
                } else {
                    None
                },
                None => None,
            }
        }
    } else {
        None
    }
}

/// What defining in a scope produces: the arena with the new binding
/// pushed into that scope, newest last.
pub open spec fn env_define(env: EnvModel, h: int, name: Seq<char>, value: ValueModel) -> EnvModel {
    env.update(
        h,
        ScopeModel {
            parent: env[h].parent,
            bindings: env[h].bindings.push(BindingModel { name, value }),
        },
    )
}

/// Whether one scope binds a name at all.
pub open spec fn binds(s: ScopeModel, name: Seq<char>) -> bool {
    assoc_lookup(s.bindings, name) is Some
}

/// Whether any scope of the chain starting at `h` binds a name.
pub open spec fn bound_in_chain(env: EnvModel, h: int, name: Seq<char>) -> bool
    decreases (if h >= 0 {
        h + 1
    } else {
        0
    }),
{
    if 0 <= h < env.len() {
        binds(env[h], name) || (match env[h].parent {
            Some(p) => 0 <= p < h && bound_in_chain(env, p, name),
            None => false,
        })
    } else {
        false
    }
}

/// Law: a lookup fails exactly when no scope of the chain binds the name;
/// failure at the root is reported, never silently ignored.
pub proof fn lemma_lookup_none_iff_unbound(env: EnvModel, h: int, name: Seq<char>)
    requires
        env_wf(env),
    ensures
        (env_lookup(env, h, name) is None) <==> !bound_in_chain(env, h, name),
    decreases (if h >= 0 {
        h + 1
    } else {
        0
    }),
{
    if 0 <= h < env.len() {
        match env[h].parent {
            Some(p) => {
                if 0 <= p < h {
                    lemma_lookup_none_iff_unbound(env, p, name);
                }
            },
            None => {},
        }
    }
}

/// Law: an assignment fails exactly when no scope of the chain binds the
/// name — assignment to a never-declared name is illegal, unlike `define`.
pub proof fn lemma_set_none_iff_unbound(env: EnvModel, h: int, name: Seq<char>, value: ValueModel)
    requires
        env_wf(env),
    ensures
        (env_set(env, h, name, value) is None) <==> !bound_in_chain(env, h, name),
    decreases (if h >= 0 {
        h + 1
    } else {
        0
    }),
{
    if 0 <= h < env.len() {
        match env[h].parent {
            Some(p) => {
                if 0 <= p < h {
                    lemma_set_none_iff_unbound(env, p, name, value);
                }
            },
            None => {},
        }
    }
}

/// Law: defining a name makes it immediately visible in that scope, with
/// the value it was given.
pub proof fn lemma_define_then_lookup(env: EnvModel, h: int, name: Seq<char>, value: ValueModel)
    requires
        env_wf(env),
        0 <= h < env.len(),
    ensures
        env_lookup(env_define(env, h, name, value), h, name) == Some(value),
{
    let env2 = env_define(env, h, name, value);
    assert(env2[h].bindings.last() == (BindingModel { name, value }));
}

/// Pushing one binding: the pushed name means the new value, every other
/// name keeps its meaning.
pub proof fn lemma_assoc_push(bs: Seq<BindingModel>, name: Seq<char>, value: ValueModel, m: Seq<
    char,
>)
    ensures
        assoc_lookup(bs.push(BindingModel { name, value }), m) == (if m == name {
            Some(value)
        } else {
            assoc_lookup(bs, m)
        }),
{
    let bs2 = bs.push(BindingModel { name, value });
    assert(bs2.last() == (BindingModel { name, value }));
    assert(bs2.drop_last() =~= bs);
}

/// Law: assignment writes an existing binding and declares nothing: it
/// keeps every scope's parent and binds exactly the names bound before.
pub proof fn lemma_set_preserves_domains(env: EnvModel, h: int, name: Seq<char>, value: ValueModel)
    requires
        env_set(env, h, name, value) is Some,
    ensures
        env_set(env, h, name, value)->Some_0.len() == env.len(),
        forall|j: int|
            0 <= j < env.len() ==> env_set(env, h, name, value)->Some_0[j].parent
                == env[j].parent,
        forall|j: int, m: Seq<char>|
            0 <= j < env.len() ==> #[trigger] binds(env_set(env, h, name, value)->Some_0[j], m)
                == binds(env[j], m),
    decreases (if h >= 0 {
        h + 1
    } else {
        0
    }),
{
    let r = env_set(env, h, name, value)->Some_0;
    if 0 <= h < env.len() {
        if assoc_lookup(env[h].bindings, name) is Some {
            assert forall|j: int, m: Seq<char>| 0 <= j < env.len() implies #[trigger] binds(
                r[j],
                m,
            ) == binds(env[j], m) by {
                if j == h {
                    lemma_assoc_push(env[h].bindings, name, value, m);
                }
            }
        } else {
            match env[h].parent {
                Some(p) => {
                    if 0 <= p < h {
                        lemma_set_preserves_domains(env, p, name, value);
                    }
                },
                None => {},
            }
        }
    }
}

/// Law: `define` binds its name in the named scope and touches nothing
/// else: every other scope, and every other name of this scope, keeps its
/// standing, and every parent link is kept.
pub proof fn lemma_define_effect(env: EnvModel, h: int, name: Seq<char>, value: ValueModel)
    requires
        0 <= h < env.len(),
    ensures
        env_define(env, h, name, value).len() == env.len(),
        forall|j: int|
            0 <= j < env.len() ==> env_define(env, h, name, value)[j].parent == env[j].parent,
        forall|j: int, m: Seq<char>|
            0 <= j < env.len() && j != h ==> #[trigger] binds(
                env_define(env, h, name, value)[j],
                m,
            ) == binds(env[j], m),
        forall|m: Seq<char>|
            #[trigger] binds(env_define(env, h, name, value)[h], m) == (m == name || binds(
                env[h],
                m,
            )),
{
    let r = env_define(env, h, name, value);
    assert forall|m: Seq<char>| #[trigger] binds(r[h], m) == (m == name || binds(env[h], m)) by {
        lemma_assoc_push(env[h].bindings, name, value, m);
    }
}

/// A successful assignment touches one scope of the chain and nothing
/// above it: the arena keeps its length, and every scope past `h` keeps
/// its value.
pub proof fn lemma_set_frame(env: EnvModel, h: int, name: Seq<char>, value: ValueModel)
    requires
        env_wf(env),
        env_set(env, h, name, value) is Some,
    ensures
        env_set(env, h, name, value)->Some_0.len() == env.len(),
        forall|j: int|
            h < j < env.len() ==> env_set(env, h, name, value)->Some_0[j] == env[j],
    decreases (if h >= 0 {
        h + 1
    } else {
        0
    }),
{
    if 0 <= h < env.len() {
        if assoc_lookup(env[h].bindings, name) is Some {
        } else {
            match env[h].parent {
                Some(p) => {
                    if 0 <= p < h {
                        lemma_set_frame(env, p, name, value);
                    }
                },
                None => {},
            }
        }
    }
}

/// Law: a successful assignment makes the assigned value what the chain
/// yields for that name afterwards.
pub proof fn lemma_set_then_lookup(env: EnvModel, h: int, name: Seq<char>, value: ValueModel)
    requires
        env_wf(env),
        env_set(env, h, name, value) is Some,
    ensures
        env_lookup(env_set(env, h, name, value)->Some_0, h, name) == Some(value),
    decreases (if h >= 0 {
        h + 1
    } else {
        0
    }),
{
    let env2 = env_set(env, h, name, value)->Some_0;
    if 0 <= h < env.len() {
        if assoc_lookup(env[h].bindings, name) is Some {
            assert(env2[h].bindings.last() == (BindingModel { name, value }));
        } else {
            match env[h].parent {
                Some(p) => {
                    lemma_set_then_lookup(env, p, name, value);
                    lemma_set_frame(env, p, name, value);
                    assert(env2[h] == env[h]);
                },
                None => {},
            }
        }
    }
}

/// Looking up the newest binding of `name` in one scope's bindings.
fn scope_get(bindings: &Vec<Binding>, name: &str) -> (r: Option<LoxValue>)
    ensures
        (match r {
            Some(v) => assoc_lookup(bindings@.map_values(|b: Binding| b@), name@) == Some(v@),
            None => assoc_lookup(bindings@.map_values(|b: Binding| b@), name@) is None,
        }),
{
    let ghost bs = bindings@.map_values(|b: Binding| b@);
    let mut i = bindings.len();
    proof {
        assert(bs.take(bindings@.len() as int) =~= bs);
    }
    loop
        invariant
            i <= bindings.len(),
            bs == bindings@.map_values(|b: Binding| b@),
            bs.len() == bindings@.len(),
            assoc_lookup(bs, name@) == assoc_lookup(bs.take(i as int), name@),
        ensures
            i == 0,
            assoc_lookup(bs, name@) == assoc_lookup(bs.take(0), name@),
        decreases i,
    {
        if i == 0 {
            break ;
        }
        i -= 1;
        proof {
            assert(bs.take(i + 1).last() == bs[i as int]);
            assert(bs.take(i + 1).drop_last() =~= bs.take(i as int));
        }
        if str_eq(bindings[i].name.as_str(), name) {
            return Some(bindings[i].value.duplicate());
        }
    }
    proof {
        assert(bs.take(0).len() == 0);
    }
    None
}

impl Environment {
    /// A fresh arena holding only the root scope, handle 0.
    pub fn new() -> (env: Environment)
        ensures
            env@.len() == 1,
            env@[0].parent is None,
            env@[0].bindings.len() == 0,
            env_wf(env@),
    {
        let mut scopes: Vec<Scope> = Vec::new();
        scopes.push(Scope { parent: None, bindings: Vec::new() });
        let env = Environment { scopes };
        proof {
            assert(env@[0].bindings =~= Seq::<BindingModel>::empty());
        }
        env
    }

    /// A new scope whose parent is `parent`; its handle is the result.
    pub fn new_scope(&mut self, parent: usize) -> (h: usize)
        requires
            env_wf(old(self)@),
            parent < old(self)@.len(),
        ensures
            h == old(self)@.len(),
            final(self)@ == old(self)@.push(
                ScopeModel { parent: Some(parent as int), bindings: Seq::empty() },
            ),
            env_wf(final(self)@),
    {
        let h = self.scopes.len();
        self.scopes.push(Scope { parent: Some(parent), bindings: Vec::new() });
        proof {
            assert(self@ =~~= old(self)@.push(
                ScopeModel { parent: Some(parent as int), bindings: Seq::empty() },
            ));
        }
        h
    }

    /// Bind `name` to `value` in scope `h` itself, shadowing or replacing
    /// any earlier binding of that name in this scope.
    pub fn define(&mut self, h: usize, name: &str, value: LoxValue)
        requires
            env_wf(old(self)@),
            h < old(self)@.len(),
        ensures
            final(self)@ == env_define(old(self)@, h as int, name@, value@),
            final(self)@.len() == old(self)@.len(),
            env_wf(final(self)@),
    {
        let scope = &mut self.scopes[h];
        scope.bindings.push(Binding { name: name.to_owned(), value });
        proof {
            assert(self@ =~~= env_define(old(self)@, h as int, name@, value@));
            assert forall|j: int|
                0 <= j < self@.len() implies (#[trigger] self@[j].parent matches Some(p) ==> 0 <= p
                < j) by {
                assert(old(self)@[j].parent matches Some(p) ==> 0 <= p < j);
            }
        }
    }

    /// The value of `name` at handle `h`, walking the parent chain; `None`
    /// when no scope in the chain binds it.
    pub fn lookup(&self, h: usize, name: &str) -> (r: Option<LoxValue>)
        requires
            env_wf(self@),
            h < self@.len(),
        ensures
            (match r {
                Some(v) => env_lookup(self@, h as int, name@) == Some(v@),
                None => env_lookup(self@, h as int, name@) is None,
            }),
    {
        let mut cur = h;
        loop
            invariant
                env_wf(self@),
                cur < self@.len(),
                env_lookup(self@, h as int, name@) == env_lookup(self@, cur as int, name@),
            decreases cur,
        {
            match scope_get(&self.scopes[cur].bindings, name) {
                Some(v) => {
                    return Some(v);
                },
                None => {
                    match self.scopes[cur].parent {
                        Some(p) => {
                            cur = p;
                        },
                        None => {
                            return None;
                        },
                    }
                },
            }
        }
    }

    /// Assign `value` to the innermost existing binding of `name` in the
    /// chain starting at `h`; an error when no scope in the chain binds it
    /// (assignment never creates a binding).
    pub fn set(&mut self, h: usize, name: &str, value: LoxValue) -> (r: Result<(), LoxError>)
        requires
            env_wf(old(self)@),
            h < old(self)@.len(),
        ensures
            env_wf(final(self)@),
            final(self)@.len() == old(self)@.len(),
            (match r {
                Ok(()) => env_set(old(self)@, h as int, name@, value@) == Some(final(self)@),
                Err(e) => env_set(old(self)@, h as int, name@, value@) is None && final(self)@
                    == old(self)@ && e@ == (crate::ErrorModel::UndefE { name: name@ }),
            }),
    {
        let mut cur = h;
        let mut found = false;
        loop
            invariant_except_break
                !found,
            invariant
                env_wf(self@),
                self@ == old(self)@,
                cur < self@.len(),
                env_set(self@, h as int, name@, value@) == env_set(
                    self@,
                    cur as int,
                    name@,
                    value@,
                ),
            ensures
                self@ == old(self)@,
                cur < self@.len(),
                env_set(self@, h as int, name@, value@) == env_set(
                    self@,
                    cur as int,
                    name@,
                    value@,
                ),
                found ==> assoc_lookup(self@[cur as int].bindings, name@) is Some,
                !found ==> env_set(self@, h as int, name@, value@) is None,
            decreases cur,
        {
            let local = match scope_get(&self.scopes[cur].bindings, name) {
                Some(_) => true,
                None => false,
            };
            if local {
                found = true;
                break ;
            }
            match self.scopes[cur].parent {
                Some(p) => {
                    cur = p;
                },
                None => {
                    break ;
                },
            }
        }
        if found {
            let scope = &mut self.scopes[cur];
            scope.bindings.push(Binding { name: name.to_owned(), value });
            proof {
                assert(self@ =~~= env_define(old(self)@, cur as int, name@, value@));
                assert forall|j: int|
                    0 <= j < self@.len() implies (#[trigger] self@[j].parent matches Some(p) ==> 0
                    <= p < j) by {
                    assert(old(self)@[j].parent matches Some(p) ==> 0 <= p < j);
                }
            }
            Ok(())
        } else {
            Err(LoxError::UndefinedVariable { name: name.to_owned() })
        }
    }
}

} // verus!
