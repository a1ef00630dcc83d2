//! The variable environment: a finite map from names to expressions.

use vstd::prelude::*;
use vstd::hash_map::StringHashMap;
use crate::ast::Expr;

verus! {

/// What an environment holds: the expression bound to each name.
pub type Bindings = Map<Seq<char>, Expr>;

/// A set of names.
pub type Names = Set<Seq<char>>;

/// The expressions bound to names. A bound expression may mention names that
/// are unbound, or names that lead back to itself: both are noticed only when
/// the expression is evaluated or displayed.
pub struct Environment {
    vars: StringHashMap<Expr>,
}

impl View for Environment {
    type V = Bindings;

    closed spec fn view(&self) -> Bindings {
        self.vars@
    }
}

impl Environment {
    /// Every environment binds finitely many names.
    #[verifier::type_invariant]
    pub open spec fn finite(&self) -> bool {
        self@.dom().finite()
    }

    /// The environment that binds no name.
    pub fn new() -> (env: Environment)
        ensures
            env@ == Bindings::empty(),
    {
        Environment { vars: StringHashMap::new() }
    }

    /// Binds `name` to `expr`, in place of what `name` was bound to before.
    pub fn insert(&mut self, name: String, expr: Expr)
        ensures
            final(self)@ == old(self)@.insert(name@, expr),
    {
        proof {
            use_type_invariant(&*self);
        }
        // The map is taken out while it changes, and an empty one stands in
        // for it: what `self` holds is finite at every step.
        let mut vars = StringHashMap::new();
        std::mem::swap(&mut self.vars, &mut vars);
        vars.insert(name, expr);
        std::mem::swap(&mut self.vars, &mut vars);
    }

    /// The expression bound to `name`, if there is one.
    pub fn get(&self, name: &str) -> (found: Option<&Expr>)
        ensures
            found == if self@.contains_key(name@) {
                Some(&self@[name@])
            } else {
                None
            },
    {
        self.vars.get(name)
    }

    /// The number of names bound.
    pub fn len(&self) -> (n: usize)
        ensures
            n == self@.len(),
    {
        self.vars.len()
    }
}

/// How many bound names are not in `busy`. Following a reference to a bound
/// name that is not in `busy`, and adding that name to `busy`, makes this
/// number smaller: so a walk that does only that comes to an end.
pub open spec fn pending(env: Bindings, busy: Names) -> nat {
    env.dom().difference(busy).len()
}

/// Adding a bound name to `busy` that was not in it leaves fewer names pending.
pub proof fn lemma_pending_shrinks(env: Bindings, busy: Names, name: Seq<char>)
    requires
        env.dom().finite(),
        env.contains_key(name),
        !busy.contains(name),
    ensures
        pending(env, busy.insert(name)) < pending(env, busy),
{
    assert(env.dom().difference(busy.insert(name)) =~= env.dom().difference(busy).remove(name));
}

} // verus!
