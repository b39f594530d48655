//! What holds of name resolution in every chain of scopes.

use crate::object::{bind, enclose, resolve, ObjectView, ScopeChain};
use vstd::prelude::*;

verus! {

/// Binding a name in a scope leaves every enclosing scope as it was: the
/// chain around the scope is the same before and after, so a lookup that
/// starts at the parent finds what it found before, whatever the name.
pub proof fn lemma_bind_keeps_enclosing(
    chain: ScopeChain,
    name: Seq<char>,
    value: ObjectView,
    other: Seq<char>,
)
    requires
        chain.len() > 0,
    ensures
        bind(chain, name, value).len() == chain.len(),
        bind(chain, name, value).skip(1) == chain.skip(1),
        resolve(bind(chain, name, value).skip(1), other) == resolve(chain.skip(1), other),
{
    assert(bind(chain, name, value).skip(1) =~= chain.skip(1));
}

/// A name bound in a scope hides the same name in every scope around it: the
/// lookup returns the local binding.
pub proof fn lemma_local_precedence(chain: ScopeChain, name: Seq<char>)
    requires
        chain.len() > 0,
        chain[0].contains_key(name),
    ensures
        resolve(chain, name) == Some(chain[0][name]),
{
}

/// After a name is bound in a scope, a lookup from that scope returns the new
/// value, and a lookup of any other name returns what it returned before.
pub proof fn lemma_bind_then_resolve(
    chain: ScopeChain,
    name: Seq<char>,
    value: ObjectView,
    other: Seq<char>,
)
    requires
        chain.len() > 0,
    ensures
        resolve(bind(chain, name, value), name) == Some(value),
        other != name ==> resolve(bind(chain, name, value), other) == resolve(chain, other),
{
    assert(bind(chain, name, value).skip(1) =~= chain.skip(1));
}

/// A lookup passes through every scope that does not bind the name: from a
/// scope nested at any depth it finds what the first enclosing scope that
/// binds the name holds.
pub proof fn lemma_resolve_passes_through(inner: ScopeChain, outer: ScopeChain, name: Seq<char>)
    requires
        forall|i: int| 0 <= i < inner.len() ==> !inner[i].contains_key(name),
    ensures
        resolve(inner + outer, name) == resolve(outer, name),
    decreases inner.len(),
{
    if inner.len() == 0 {
        assert(inner + outer =~= outer);
    } else {
        assert((inner + outer).skip(1) =~= inner.skip(1) + outer);
        lemma_resolve_passes_through(inner.skip(1), outer, name);
    }
}

/// A fresh scope sees what its parent sees, and so does a fresh scope inside
/// that one: a binding of the grandparent is visible from the grandchild.
pub proof fn lemma_enclosed_scope_sees_through(chain: ScopeChain, name: Seq<char>)
    ensures
        resolve(enclose(chain), name) == resolve(chain, name),
        resolve(enclose(enclose(chain)), name) == resolve(chain, name),
{
    assert(enclose(chain).skip(1) =~= chain);
    assert(enclose(enclose(chain)).skip(1) =~= enclose(chain));
}

/// Binding a name in a fresh scope inside `parent` leaves `parent` as it
/// was: the chain around the new scope is still `parent`, and the new scope
/// itself resolves the name to the new value.
pub proof fn lemma_no_upward_leak(parent: ScopeChain, name: Seq<char>, value: ObjectView)
    ensures
        bind(enclose(parent), name, value).skip(1) == parent,
        resolve(bind(enclose(parent), name, value), name) == Some(value),
{
    assert(bind(enclose(parent), name, value).skip(1) =~= parent);
}

} // verus!
