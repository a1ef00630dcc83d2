//! Which names an expression leads to, and what that means for its value.

use vstd::prelude::*;
use crate::ast::Expr;
use crate::ast::OpCode;
use crate::env::Bindings;
use crate::env::Names;
use crate::env::lemma_pending_shrinks;
use crate::env::pending;
use crate::execution::ExecError;
use crate::execution::apply;
use crate::execution::resolve_in;
use crate::execution::resolve_spec;

verus! {

/// Whether `expr` holds a reference to `name`.
pub open spec fn mentions(expr: Expr, name: Seq<char>) -> bool
    decreases expr,
{
    match expr {
        Expr::Num(_) => false,
        Expr::Ident(ident) => ident@ == name,
        Expr::Op(a, _, b) => mentions(*a, name) || mentions(*b, name),
        Expr::Resolve(inner) => mentions(*inner, name),
    }
}

/// Whether `path` is a chain of references that starts in `expr`: `expr`
/// mentions the first name, and each name but the last is bound to an
/// expression that mentions the next.
pub open spec fn leads(expr: Expr, env: Bindings, path: Seq<Seq<char>>) -> bool {
    &&& path.len() > 0
    &&& mentions(expr, path[0])
    &&& forall|i: int|
        0 <= i < path.len() - 1 ==> env.contains_key(#[trigger] path[i]) && mentions(
            env[path[i]],
            path[i + 1],
        )
}

/// Whether a chain of references leads from `expr` to `name`.
pub open spec fn reaches(expr: Expr, env: Bindings, name: Seq<char>) -> bool {
    exists|path: Seq<Seq<char>>| #[trigger] leads(expr, env, path) && path.last() == name
}

/// Whether no bound name leads back to itself.
pub open spec fn acyclic(env: Bindings) -> bool {
    forall|name: Seq<char>| env.contains_key(name) ==> !#[trigger] reaches(env[name], env, name)
}

/// An expression reaches the names that it mentions.
pub proof fn lemma_mentioned_is_reached(expr: Expr, env: Bindings, name: Seq<char>)
    requires
        mentions(expr, name),
    ensures
        reaches(expr, env, name),
{
    let path = seq![name];
    assert(leads(expr, env, path));
}

/// What a part of an expression reaches, the expression reaches.
pub proof fn lemma_part_reaches(part: Expr, whole: Expr, env: Bindings, name: Seq<char>)
    requires
        reaches(part, env, name),
        forall|n: Seq<char>| mentions(part, n) ==> mentions(whole, n),
    ensures
        reaches(whole, env, name),
{
    let path = choose|path: Seq<Seq<char>>| #[trigger] leads(part, env, path) && path.last() == name;
    assert(leads(whole, env, path));
}

/// What the binding of a name reaches, a reference to the name reaches.
pub proof fn lemma_reference_reaches(ident: String, env: Bindings, name: Seq<char>)
    requires
        env.contains_key(ident@),
        reaches(env[ident@], env, name),
    ensures
        reaches(Expr::Ident(ident), env, name),
{
    let tail = choose|path: Seq<Seq<char>>| #[trigger]
        leads(env[ident@], env, path) && path.last() == name;
    let path = seq![ident@] + tail;
    assert forall|i: int| 0 <= i < path.len() - 1 implies env.contains_key(#[trigger] path[i])
        && mentions(env[path[i]], path[i + 1]) by {
        if i > 0 {
            assert(path[i] == tail[i - 1]);
            assert(path[i + 1] == tail[i]);
        } else {
            assert(path[1] == tail[0]);
        }
    }
    assert(leads(Expr::Ident(ident), env, path));
    assert(path.last() == tail.last());
}

/// The value of an expression depends on the busy names only as far as the
/// expression reaches them.
pub proof fn lemma_unreached_names_do_not_matter(
    expr: Expr,
    env: Bindings,
    busy: Names,
    other: Names,
)
    requires
        env.dom().finite(),
        forall|n: Seq<char>| #[trigger]
            reaches(expr, env, n) ==> (busy.contains(n) <==> other.contains(n)),
    ensures
        resolve_in(expr, env, busy) == resolve_in(expr, env, other),
    decreases pending(env, busy), expr,
{
    match expr {
        Expr::Num(_) => {},
        Expr::Ident(ident) => {
            lemma_mentioned_is_reached(expr, env, ident@);
            if !busy.contains(ident@) && env.contains_key(ident@) {
                lemma_pending_shrinks(env, busy, ident@);
                assert forall|n: Seq<char>| #[trigger]
                    reaches(env[ident@], env, n) implies (busy.insert(ident@).contains(n)
                    <==> other.insert(ident@).contains(n)) by {
                    lemma_reference_reaches(ident, env, n);
                }
                lemma_unreached_names_do_not_matter(
                    env[ident@],
                    env,
                    busy.insert(ident@),
                    other.insert(ident@),
                );
            }
        },
        Expr::Op(a, _, b) => {
            assert forall|n: Seq<char>| #[trigger]
                reaches(*a, env, n) implies (busy.contains(n) <==> other.contains(n)) by {
                lemma_part_reaches(*a, expr, env, n);
            }
            assert forall|n: Seq<char>| #[trigger]
                reaches(*b, env, n) implies (busy.contains(n) <==> other.contains(n)) by {
                lemma_part_reaches(*b, expr, env, n);
            }
            lemma_unreached_names_do_not_matter(*a, env, busy, other);
            lemma_unreached_names_do_not_matter(*b, env, busy, other);
        },
        Expr::Resolve(inner) => {
            assert forall|n: Seq<char>| #[trigger]
                reaches(*inner, env, n) implies (busy.contains(n) <==> other.contains(n)) by {
                lemma_part_reaches(*inner, expr, env, n);
            }
            lemma_unreached_names_do_not_matter(*inner, env, busy, other);
        },
    }
}

/// A recursion error names a name that the expression reaches and that is
/// busy or leads back to itself, and carries what that name is bound to.
pub proof fn lemma_recursion_error_in(expr: Expr, env: Bindings, busy: Names)
    requires
        env.dom().finite(),
    ensures
        resolve_in(expr, env, busy) matches Err(ExecError::Recursion { identifier, expr: bound })
            ==> {
            &&& reaches(expr, env, identifier@)
            &&& bound == env[identifier@]
            &&& busy.contains(identifier@) || (env.contains_key(identifier@) && reaches(
                env[identifier@],
                env,
                identifier@,
            ))
        },
    decreases pending(env, busy), expr,
{
    match expr {
        Expr::Num(_) => {},
        Expr::Ident(ident) => {
            lemma_mentioned_is_reached(expr, env, ident@);
            if !busy.contains(ident@) && env.contains_key(ident@) {
                lemma_pending_shrinks(env, busy, ident@);
                lemma_recursion_error_in(env[ident@], env, busy.insert(ident@));
                if let Err(ExecError::Recursion { identifier, expr: bound }) = resolve_in(
                    expr,
                    env,
                    busy,
                ) {
                    lemma_reference_reaches(ident, env, identifier@);
                }
            }
        },
        Expr::Op(a, _, b) => {
            lemma_recursion_error_in(*a, env, busy);
            lemma_recursion_error_in(*b, env, busy);
            if let Err(ExecError::Recursion { identifier, expr: bound }) = resolve_in(
                expr,
                env,
                busy,
            ) {
                if resolve_in(*a, env, busy) is Err {
                    lemma_part_reaches(*a, expr, env, identifier@);
                } else {
                    lemma_part_reaches(*b, expr, env, identifier@);
                }
            }
        },
        Expr::Resolve(inner) => {
            lemma_recursion_error_in(*inner, env, busy);
            if let Err(ExecError::Recursion { identifier, expr: bound }) = resolve_in(
                expr,
                env,
                busy,
            ) {
                lemma_part_reaches(*inner, expr, env, identifier@);
            }
        },
    }
}

/// Where the evaluation of an expression ends in a recursion error, the name
/// in the error is bound, the expression reaches it, it leads back to itself,
/// and the error carries what it is bound to.
pub proof fn law_recursion_error_names_a_cycle(expr: Expr, env: Bindings)
    requires
        env.dom().finite(),
    ensures
        resolve_spec(expr, env) matches Err(ExecError::Recursion { identifier, expr: bound })
            ==> {
            &&& env.contains_key(identifier@)
            &&& reaches(expr, env, identifier@)
            &&& reaches(env[identifier@], env, identifier@)
            &&& bound == env[identifier@]
        },
{
    lemma_recursion_error_in(expr, env, Names::empty());
}

/// In an environment where no name leads back to itself, evaluation never
/// ends in a recursion error, and the value of an expression is that of the
/// expression with what each name is bound to in place of the name: a
/// literal has its own value, a reference has the value of what the name is
/// bound to, an operation has what its operator makes of the values of its
/// operands, and a marker has the value of what it holds.
pub proof fn law_acyclic_resolves_by_substitution(expr: Expr, env: Bindings)
    requires
        env.dom().finite(),
        acyclic(env),
    ensures
        !(resolve_spec(expr, env) matches Err(ExecError::Recursion { .. })),
        resolve_spec(expr, env) == match expr {
            Expr::Num(n) => Ok::<i32, ExecError>(n),
            Expr::Ident(ident) => if env.contains_key(ident@) {
                resolve_spec(env[ident@], env)
            } else {
                Err(ExecError::Name(ident))
            },
            Expr::Op(a, op, b) => match resolve_spec(*a, env) {
                Err(e) => Err(e),
                Ok(x) => match resolve_spec(*b, env) {
                    Err(e) => Err(e),
                    Ok(y) => apply(op, x, y),
                },
            },
            Expr::Resolve(inner) => resolve_spec(*inner, env),
        },
{
    law_recursion_error_names_a_cycle(expr, env);
    match expr {
        Expr::Ident(ident) => {
            if env.contains_key(ident@) {
                lemma_pending_shrinks(env, Names::empty(), ident@);
                assert(!reaches(env[ident@], env, ident@));
                lemma_unreached_names_do_not_matter(
                    env[ident@],
                    env,
                    Names::empty().insert(ident@),
                    Names::empty(),
                );
            }
        },
        _ => {},
    }
}

/// What a reference reaches is its name or what the binding of the name
/// reaches.
pub proof fn lemma_reached_from_reference(ident: String, env: Bindings, name: Seq<char>)
    requires
        reaches(Expr::Ident(ident), env, name),
    ensures
        name == ident@ || (env.contains_key(ident@) && reaches(env[ident@], env, name)),
{
    let path = choose|path: Seq<Seq<char>>| #[trigger]
        leads(Expr::Ident(ident), env, path) && path.last() == name;
    if path.len() > 1 {
        let tail = path.subrange(1, path.len() as int);
        assert(path[0] == ident@);
        assert(env.contains_key(path[0]) && mentions(env[path[0]], path[1]));
        assert forall|i: int| 0 <= i < tail.len() - 1 implies env.contains_key(#[trigger] tail[i])
            && mentions(env[tail[i]], tail[i + 1]) by {
            assert(tail[i] == path[i + 1]);
            assert(tail[i + 1] == path[i + 2]);
        }
        assert(leads(env[ident@], env, tail));
        assert(tail.last() == path.last());
    }
}

/// What an expression reaches, one of its parts reaches.
pub proof fn lemma_reached_from_part(expr: Expr, env: Bindings, name: Seq<char>)
    requires
        reaches(expr, env, name),
    ensures
        match expr {
            Expr::Op(a, _, b) => reaches(*a, env, name) || reaches(*b, env, name),
            Expr::Resolve(inner) => reaches(*inner, env, name),
            _ => true,
        },
{
    let path = choose|path: Seq<Seq<char>>| #[trigger] leads(expr, env, path) && path.last() == name;
    match expr {
        Expr::Op(a, _, b) => {
            if mentions(*a, path[0]) {
                assert(leads(*a, env, path));
            } else {
                assert(leads(*b, env, path));
            }
        },
        Expr::Resolve(inner) => {
            assert(leads(*inner, env, path));
        },
        _ => {},
    }
}

/// Where an expression has a value, each name that it reaches is bound, is
/// not busy, and does not lead back to itself.
pub proof fn lemma_value_in(expr: Expr, env: Bindings, busy: Names)
    requires
        env.dom().finite(),
        resolve_in(expr, env, busy) is Ok,
    ensures
        forall|name: Seq<char>| #[trigger]
            reaches(expr, env, name) ==> env.contains_key(name) && !busy.contains(name) && !reaches(
                env[name],
                env,
                name,
            ),
    decreases pending(env, busy), expr,
{
    assert forall|name: Seq<char>| #[trigger] reaches(expr, env, name) implies env.contains_key(
        name,
    ) && !busy.contains(name) && !reaches(env[name], env, name) by {
        match expr {
            Expr::Num(_) => {
                let path = choose|path: Seq<Seq<char>>| #[trigger]
                    leads(expr, env, path) && path.last() == name;
                assert(mentions(expr, path[0]));
            },
            Expr::Ident(ident) => {
                lemma_pending_shrinks(env, busy, ident@);
                lemma_value_in(env[ident@], env, busy.insert(ident@));
                lemma_reached_from_reference(ident, env, name);
                if reaches(env[ident@], env, ident@) {
                    assert(busy.insert(ident@).contains(ident@));
                }
            },
            Expr::Op(a, _, b) => {
                lemma_value_in(*a, env, busy);
                lemma_value_in(*b, env, busy);
                lemma_reached_from_part(expr, env, name);
            },
            Expr::Resolve(inner) => {
                lemma_value_in(*inner, env, busy);
                lemma_reached_from_part(expr, env, name);
            },
        }
    }
}

/// Where an expression has a value, each name that it reaches is bound and
/// does not lead back to itself. So an expression that reaches a name on a
/// cycle, through whatever names and operations, has no value.
pub proof fn law_value_needs_names_free_of_cycles(expr: Expr, env: Bindings)
    requires
        env.dom().finite(),
        resolve_spec(expr, env) is Ok,
    ensures
        forall|name: Seq<char>| #[trigger]
            reaches(expr, env, name) ==> env.contains_key(name) && !reaches(env[name], env, name),
{
    lemma_value_in(expr, env, Names::empty());
}

/// The name that follows place `i` of `ring`: the next one, and the first
/// one after the last.
pub open spec fn follower(ring: Seq<Seq<char>>, i: int) -> Seq<char> {
    if i + 1 < ring.len() {
        ring[i + 1]
    } else {
        ring[0]
    }
}

/// Whether the names of `ring` are bound in a ring: each to a reference to
/// the next, and the last to a reference to the first.
pub open spec fn bound_in_ring(env: Bindings, ring: Seq<Seq<char>>) -> bool {
    &&& ring.len() > 0
    &&& forall|i: int|
        0 <= i < ring.len() ==> env.contains_key(#[trigger] ring[i]) && (env[ring[i]] matches Expr::Ident(
            next,
        ) && next@ == follower(ring, i))
}

/// The evaluation of a reference to the name that follows place `at - 1` of
/// a ring, while the first name is busy whenever `at` is past it, ends in a
/// recursion error that names a name of the ring.
proof fn lemma_ring_in(ident: String, env: Bindings, ring: Seq<Seq<char>>, at: int, busy: Names)
    requires
        env.dom().finite(),
        bound_in_ring(env, ring),
        0 <= at <= ring.len(),
        ident@ == follower(ring, at - 1),
        at > 0 ==> busy.contains(ring[0]),
    ensures
        resolve_in(Expr::Ident(ident), env, busy) matches Err(
            ExecError::Recursion { identifier, expr: bound },
        ) && ring.contains(identifier@) && bound == env[identifier@],
    decreases ring.len() - at,
{
    if busy.contains(ident@) {
        if at < ring.len() {
            assert(ring[at] == ident@);
        } else {
            assert(ring[0] == ident@);
        }
    } else {
        assert(ring[at] == ident@);
        lemma_pending_shrinks(env, busy, ident@);
        match env[ident@] {
            Expr::Ident(next) => {
                lemma_ring_in(next, env, ring, at + 1, busy.insert(ident@));
            },
            _ => {},
        }
    }
}

/// Whether `name` stands in `ring` before place `at`.
pub open spec fn earlier(ring: Seq<Seq<char>>, at: int, name: Seq<char>) -> bool {
    exists|j: int| 0 <= j < at && #[trigger] ring[j] == name
}

/// The names before place `at + 1` are those before place `at` and the one
/// at place `at`.
proof fn lemma_one_more(ring: Seq<Seq<char>>, at: int, name: Seq<char>)
    requires
        0 <= at < ring.len(),
    ensures
        earlier(ring, at + 1, name) <==> earlier(ring, at, name) || name == ring[at],
{
    if earlier(ring, at + 1, name) {
        let j = choose|j: int| 0 <= j < at + 1 && #[trigger] ring[j] == name;
        if j < at {
            assert(0 <= j < at && ring[j] == name);
        }
    }
    if earlier(ring, at, name) {
        let j = choose|j: int| 0 <= j < at && #[trigger] ring[j] == name;
        assert(0 <= j < at + 1 && ring[j] == name);
    }
    if name == ring[at] {
        assert(0 <= at < at + 1 && ring[at] == name);
    }
}

/// In a ring without a name twice, the evaluation begun at the name that
/// follows place `at - 1`, while just the names before place `at` are busy,
/// names the first name of the ring.
proof fn lemma_ring_first(ident: String, env: Bindings, ring: Seq<Seq<char>>, at: int, busy: Names)
    requires
        env.dom().finite(),
        bound_in_ring(env, ring),
        ring.no_duplicates(),
        0 <= at <= ring.len(),
        ident@ == follower(ring, at - 1),
        forall|n: Seq<char>| busy.contains(n) <==> #[trigger] earlier(ring, at, n),
    ensures
        resolve_in(Expr::Ident(ident), env, busy) matches Err(
            ExecError::Recursion { identifier, expr: bound },
        ) && identifier@ == ring[0],
    decreases ring.len() - at,
{
    if at == ring.len() {
        assert(0 <= 0 < at && ring[0] == ident@);
        assert(earlier(ring, at, ident@));
    } else {
        assert(ring[at] == ident@);
        if earlier(ring, at, ident@) {
            let j = choose|j: int| 0 <= j < at && #[trigger] ring[j] == ident@;
            assert(ring[j] == ring[at]);
            assert(false);
        }
        assert(!busy.contains(ident@));
        lemma_pending_shrinks(env, busy, ident@);
        match env[ident@] {
            Expr::Ident(next) => {
                let busier = busy.insert(ident@);
                assert forall|n: Seq<char>| busier.contains(n) <==> #[trigger] earlier(
                    ring,
                    at + 1,
                    n,
                ) by {
                    lemma_one_more(ring, at, n);
                    assert(busy.contains(n) <==> earlier(ring, at, n));
                }
                lemma_ring_first(next, env, ring, at + 1, busier);
            },
            _ => {},
        }
    }
}

/// The evaluation of a reference to a name that is bound in a ring of
/// references, of whatever length, ends in a recursion error that names a
/// name of the ring; where no name occurs twice in the ring, it names the
/// name that the evaluation began with.
pub proof fn law_ring_of_references_is_an_error(ident: String, env: Bindings, ring: Seq<Seq<char>>)
    requires
        env.dom().finite(),
        bound_in_ring(env, ring),
        ident@ == ring[0],
    ensures
        resolve_spec(Expr::Ident(ident), env) matches Err(
            ExecError::Recursion { identifier, expr: bound },
        ) && ring.contains(identifier@) && bound == env[identifier@],
        ring.no_duplicates() ==> (resolve_spec(Expr::Ident(ident), env) matches Err(
            ExecError::Recursion { identifier, expr: bound },
        ) && identifier@ == ident@),
{
    lemma_ring_in(ident, env, ring, 0, Names::empty());
    if ring.no_duplicates() {
        assert forall|n: Seq<char>| Names::empty().contains(n) <==> #[trigger] earlier(ring, 0, n) by {
        }
        lemma_ring_first(ident, env, ring, 0, Names::empty());
    }
}

/// A division whose divisor has the value zero is a division-by-zero error
/// that carries the value of the dividend.
pub proof fn law_division_by_zero(a: Expr, b: Expr, env: Bindings, dividend: i32)
    requires
        env.dom().finite(),
        resolve_spec(a, env) == Ok::<i32, ExecError>(dividend),
        resolve_spec(b, env) == Ok::<i32, ExecError>(0),
    ensures
        resolve_spec(Expr::Op(Box::new(a), OpCode::Div, Box::new(b)), env) == Err::<
            i32,
            ExecError,
        >(ExecError::DivisionByZero { dividend }),
{
}

} // verus!
