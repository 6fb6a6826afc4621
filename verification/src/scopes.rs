//! The scope stack: an ordered sequence of scopes, innermost last. A scope
//! is a list of bindings of names to types; a later binding of a name hides
//! an earlier one.

use vstd::prelude::*;
use crate::types::{below, lemma_below_later, Type};

verus! {

/// A scope as a mathematical value.
pub type Bindings = Seq<(Seq<char>, Type)>;

/// A scope.
pub type Scope = Vec<(String, Type)>;

/// The view of a scope.
pub open spec fn bindings_view(scope: Seq<(String, Type)>) -> Bindings {
    Seq::new(scope.len(), |i: int| (scope[i].0@, scope[i].1))
}

/// The view of a scope stack.
pub open spec fn scopes_view(scopes: Seq<Scope>) -> Seq<Bindings> {
    Seq::new(scopes.len(), |i: int| bindings_view(scopes[i]@))
}

/// The type that a scope binds `name` to.
pub open spec fn scope_get(scope: Bindings, name: Seq<char>) -> Option<Type>
    decreases scope.len(),
{
    if scope.len() == 0 {
        None
    } else if scope.last().0 == name {
        Some(scope.last().1)
    } else {
        scope_get(scope.drop_last(), name)
    }
}

/// The type of `name`: that of the innermost scope that binds it.
pub open spec fn lookup(scopes: Seq<Bindings>, name: Seq<char>) -> Option<Type>
    decreases scopes.len(),
{
    if scopes.len() == 0 {
        None
    } else {
        match scope_get(scopes.last(), name) {
            Some(t) => Some(t),
            None => lookup(scopes.drop_last(), name),
        }
    }
}

/// The scope stack after `name` is bound to `typ` in the innermost scope.
/// Without any scope, one is opened for it.
pub open spec fn declare(scopes: Seq<Bindings>, name: Seq<char>, typ: Type) -> Seq<Bindings> {
    if scopes.len() == 0 {
        seq![seq![(name, typ)]]
    } else {
        scopes.update(scopes.len() - 1, scopes.last().push((name, typ)))
    }
}

/// The scope that binds each of `names` to the type at the same place in
/// `types`, as far as both reach.
pub open spec fn bind_all(names: Seq<Seq<char>>, types: Seq<Type>) -> Bindings {
    Seq::new(
        if names.len() <= types.len() {
            names.len()
        } else {
            types.len()
        },
        |i: int| (names[i], types[i]),
    )
}

/// After `declare`, the name has the declared type and every other name has
/// the type it had.
pub proof fn lemma_declare(scopes: Seq<Bindings>, name: Seq<char>, typ: Type, other: Seq<char>)
    ensures
        lookup(declare(scopes, name, typ), name) == Some(typ),
        other != name ==> lookup(declare(scopes, name, typ), other) == lookup(scopes, other),
{
    let after = declare(scopes, name, typ);
    if scopes.len() == 0 {
        assert(after.last() =~= seq![(name, typ)]);
        assert(after.last().drop_last() =~= Seq::<(Seq<char>, Type)>::empty());
        assert(after.drop_last() =~= Seq::<Bindings>::empty());
        reveal_with_fuel(scope_get, 2);
        reveal_with_fuel(lookup, 2);
    } else {
        assert(after.last().drop_last() =~= scopes.last());
        assert(after.drop_last() =~= scopes.drop_last());
    }
}

/// Looks a name up in one scope.
pub fn scope_find(scope: &Scope, name: &String) -> (r: Option<Type>)
    ensures
        r == scope_get(bindings_view(scope@), name@),
{
    let mut i = scope.len();
    assert(bindings_view(scope@).take(i as int) =~= bindings_view(scope@));
    while i > 0
        invariant
            i <= scope.len(),
            scope_get(bindings_view(scope@), name@) == scope_get(
                bindings_view(scope@).take(i as int),
                name@,
            ),
        decreases i,
    {
        let ghost now = bindings_view(scope@).take(i as int);
        i -= 1;
        assert(now.drop_last() =~= bindings_view(scope@).take(i as int));
        if scope[i].0 == *name {
            return Some(scope[i].1.clone());
        }
    }
    assert(bindings_view(scope@).take(0) =~= Seq::<(Seq<char>, Type)>::empty());
    None
}

/// Looks a name up in a scope stack, from the innermost scope outward.
pub fn find_var(scopes: &Vec<Scope>, name: &String) -> (r: Option<Type>)
    ensures
        r == lookup(scopes_view(scopes@), name@),
{
    let mut i = scopes.len();
    assert(scopes_view(scopes@).take(i as int) =~= scopes_view(scopes@));
    while i > 0
        invariant
            i <= scopes.len(),
            lookup(scopes_view(scopes@), name@) == lookup(
                scopes_view(scopes@).take(i as int),
                name@,
            ),
        decreases i,
    {
        let ghost now = scopes_view(scopes@).take(i as int);
        i -= 1;
        assert(now.drop_last() =~= scopes_view(scopes@).take(i as int));
        match scope_find(&scopes[i], name) {
            Some(t) => {
                return Some(t);
            },
            None => {},
        }
    }
    None
}

/// Binds a name in the innermost scope.
pub fn declare_var(scopes: &mut Vec<Scope>, name: String, typ: Type)
    ensures
        scopes_view(final(scopes)@) == declare(scopes_view(old(scopes)@), name@, typ),
{
    let n = scopes.len();
    if n == 0 {
        let mut scope: Scope = Vec::new();
        scope.push((name, typ));
        scopes.push(scope);
        assert(scopes_view(scopes@) =~= declare(scopes_view(old(scopes)@), name@, typ)) by {
            assert(bindings_view(scope@) =~= seq![(name@, typ)]);
        }
    } else {
        scopes[n - 1].push((name, typ));
        assert(scopes_view(scopes@) =~= declare(scopes_view(old(scopes)@), name@, typ)) by {
            assert(bindings_view(scopes@[n - 1]@) =~= bindings_view(old(scopes)@[n - 1]@).push(
                (name@, typ),
            ));
        }
    }
}

/// Opens a scope that binds the parameters of a procedure.
pub fn open_scope(scopes: &mut Vec<Scope>, names: &Vec<String>, types: &Vec<Type>)
    ensures
        scopes_view(final(scopes)@) == scopes_view(old(scopes)@).push(
            bind_all(crate::astgen::texts_view(names@), types@),
        ),
{
    let mut scope: Scope = Vec::new();
    let mut i: usize = 0;
    let n = if names.len() <= types.len() {
        names.len()
    } else {
        types.len()
    };
    while i < n
        invariant
            i <= n,
            n <= names.len(),
            n <= types.len(),
            scope@.len() == i,
            forall|j: int|
                0 <= j < i ==> (#[trigger] scope@[j]).0@ == names@[j]@ && scope@[j].1 == types@[j],
        decreases n - i,
    {
        let name = names[i].clone();
        let typ = types[i].clone();
        scope.push((name, typ));
        i += 1;
    }
    assert(bindings_view(scope@) =~= bind_all(crate::astgen::texts_view(names@), types@));
    scopes.push(scope);
    assert(scopes_view(scopes@) =~= scopes_view(old(scopes)@).push(
        bind_all(crate::astgen::texts_view(names@), types@),
    ));
}

/// Every type variable in the bindings of a scope has a number less than
/// `n`.
pub open spec fn bindings_below(scope: Bindings, n: u64) -> bool {
    forall|j: int| 0 <= j < scope.len() ==> below((#[trigger] scope[j]).1, n)
}

/// Every type variable in the scopes has a number less than `n`.
pub open spec fn scopes_below(scopes: Seq<Bindings>, n: u64) -> bool {
    forall|i: int| 0 <= i < scopes.len() ==> bindings_below(#[trigger] scopes[i], n)
}

/// What a scope binds a name to is below what bounds the scope.
pub proof fn lemma_scope_get_below(scope: Bindings, name: Seq<char>, n: u64)
    requires
        bindings_below(scope, n),
    ensures
        scope_get(scope, name) matches Some(t) ==> below(t, n),
    decreases scope.len(),
{
    if scope.len() > 0 && scope.last().0 != name {
        assert forall|j: int| 0 <= j < scope.drop_last().len() implies below(
            (#[trigger] scope.drop_last()[j]).1,
            n,
        ) by {
            assert(scope.drop_last()[j] == scope[j]);
        }
        lemma_scope_get_below(scope.drop_last(), name, n);
    }
}

/// The type of a name is below what bounds the scopes.
pub proof fn lemma_lookup_below(scopes: Seq<Bindings>, name: Seq<char>, n: u64)
    requires
        scopes_below(scopes, n),
    ensures
        lookup(scopes, name) matches Some(t) ==> below(t, n),
    decreases scopes.len(),
{
    if scopes.len() > 0 {
        lemma_scope_get_below(scopes.last(), name, n);
        assert forall|i: int| 0 <= i < scopes.drop_last().len() implies bindings_below(
            #[trigger] scopes.drop_last()[i],
            n,
        ) by {
            assert(scopes.drop_last()[i] == scopes[i]);
        }
        lemma_lookup_below(scopes.drop_last(), name, n);
    }
}

/// Binding a name to a type below the bound keeps the scopes below it.
pub proof fn lemma_declare_below(scopes: Seq<Bindings>, name: Seq<char>, typ: Type, n: u64)
    requires
        scopes_below(scopes, n),
        below(typ, n),
    ensures
        scopes_below(declare(scopes, name, typ), n),
{
    let after = declare(scopes, name, typ);
    assert forall|i: int| 0 <= i < after.len() implies bindings_below(#[trigger] after[i], n) by {
        if scopes.len() > 0 && i < scopes.len() - 1 {
            assert(after[i] == scopes[i]);
        } else if scopes.len() > 0 {
            let last = scopes.last();
            assert(bindings_below(last, n));
            assert forall|j: int| 0 <= j < after[i].len() implies below(
                (#[trigger] after[i][j]).1,
                n,
            ) by {
                if j < last.len() {
                    assert(after[i][j] == last[j]);
                }
            }
        }
    }
}

/// Scopes below a counter are below every later one.
pub proof fn lemma_scopes_below_later(scopes: Seq<Bindings>, n: u64, m: u64)
    requires
        scopes_below(scopes, n),
        n <= m,
    ensures
        scopes_below(scopes, m),
{
    assert forall|i: int| 0 <= i < scopes.len() implies bindings_below(#[trigger] scopes[i], m) by {
        let scope = scopes[i];
        assert(bindings_below(scope, n));
        assert forall|j: int| 0 <= j < scope.len() implies below((#[trigger] scope[j]).1, m) by {
            lemma_below_later(scope[j].1, n, m);
        }
    }
}

/// A scope that binds names to types below a counter keeps the scopes below
/// it.
pub proof fn lemma_bind_all_below(
    scopes: Seq<Bindings>,
    names: Seq<Seq<char>>,
    types: Seq<Type>,
    n: u64,
)
    requires
        scopes_below(scopes, n),
        forall|i: int| 0 <= i < types.len() ==> below(#[trigger] types[i], n),
    ensures
        scopes_below(scopes.push(bind_all(names, types)), n),
{
    let bound = bind_all(names, types);
    assert(bindings_below(bound, n));
    let after = scopes.push(bound);
    assert forall|i: int| 0 <= i < after.len() implies bindings_below(#[trigger] after[i], n) by {
        if i < scopes.len() {
            assert(after[i] == scopes[i]);
        }
    }
}

} // verus!
