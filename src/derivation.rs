//! Resolution of `derivedFrom` references within a scope of siblings.
use vstd::prelude::*;
use crate::errors::{Error, ErrorModel};
use crate::utils::{copy_vec, Duplicate};

verus! {

/// An entity that can name a sibling (`derivedFrom`) from which it takes the
/// attributes it leaves unset.
pub trait Derivable: Duplicate {
    /// The name of an entity, by its model.
    spec fn name_of(m: Self::V) -> Seq<char>;

    /// The sibling an entity derives from, by its model.
    spec fn source_of(m: Self::V) -> Option<Seq<char>>;

    /// An entity after taking what it leaves unset from `src`, and `src`'s
    /// own `derivedFrom`.
    spec fn merged(m: Self::V, src: Self::V) -> Self::V;

    /// Merging keeps the entity's name and takes the source's `derivedFrom`.
    proof fn lemma_merged_keeps_name(m: Self::V, src: Self::V)
        ensures
            Self::name_of(Self::merged(m, src)) == Self::name_of(m),
            Self::source_of(Self::merged(m, src)) == Self::source_of(src),
    ;

    fn name_ref(&self) -> (r: &String)
        ensures
            r@ == Self::name_of(self.deep_view()),
    ;

    fn source_ref(&self) -> (r: &Option<String>)
        ensures
            r.deep_view() == Self::source_of(self.deep_view()),
    ;

    fn merge_from(&mut self, src: &Self)
        ensures
            final(self).deep_view() == Self::merged(old(self).deep_view(), src.deep_view()),
    ;
}

/// Index of the first entity of `s`, from `k` on, named `name`; -1 where none is.
pub open spec fn first_named<T: Derivable>(s: Seq<T::V>, name: Seq<char>, k: int) -> int
    decreases s.len() - k,
{
    if k < 0 || k >= s.len() {
        -1
    } else if T::name_of(s[k]) == name {
        k
    } else {
        first_named::<T>(s, name, k + 1)
    }
}

/// `cur` (an entity of the scope `s`) with its `derivedFrom` chain followed
/// through the entities of `s`. A chain longer than `fuel` steps has come
/// back to an entity already visited.
pub open spec fn resolve_entry<T: Derivable>(s: Seq<T::V>, cur: T::V, fuel: nat) -> Result<
    T::V,
    ErrorModel,
>
    decreases fuel,
{
    match T::source_of(cur) {
        None => Ok(cur),
        Some(n) => {
            let j = first_named::<T>(s, n, 0);
            if j < 0 {
                Err(ErrorModel::UnresolvedReference(n))
            } else if fuel == 0 {
                Err(ErrorModel::DerivationCycle(T::name_of(cur)))
            } else {
                resolve_entry::<T>(s, T::merged(cur, s[j]), (fuel - 1) as nat)
            }
        },
    }
}

/// The scope `s` after resolving its first `k` entities in order, each one
/// against the scope as the entities before it left it.
pub open spec fn resolve_scope_upto<T: Derivable>(s: Seq<T::V>, k: nat) -> Result<
    Seq<T::V>,
    ErrorModel,
>
    decreases k,
{
    if k == 0 {
        Ok(s)
    } else {
        match resolve_scope_upto::<T>(s, (k - 1) as nat) {
            Err(e) => Err(e),
            Ok(t) => match resolve_entry::<T>(t, t[k - 1], t.len()) {
                Err(e) => Err(e),
                Ok(v) => Ok(t.update(k - 1, v)),
            },
        }
    }
}

/// The scope `s` with every entity resolved.
pub open spec fn resolve_scope<T: Derivable>(s: Seq<T::V>) -> Result<Seq<T::V>, ErrorModel> {
    resolve_scope_upto::<T>(s, s.len())
}

proof fn lemma_scope_len<T: Derivable>(s: Seq<T::V>, k: nat)
    requires
        k <= s.len(),
    ensures
        resolve_scope_upto::<T>(s, k) is Ok ==> resolve_scope_upto::<T>(s, k)->Ok_0.len() == s.len(),
    decreases k,
{
    if k > 0 {
        lemma_scope_len::<T>(s, (k - 1) as nat);
    }
}

proof fn lemma_scope_err<T: Derivable>(s: Seq<T::V>, k: nat, m: nat)
    requires
        k <= m,
        resolve_scope_upto::<T>(s, k) is Err,
    ensures
        resolve_scope_upto::<T>(s, m) == resolve_scope_upto::<T>(s, k),
    decreases m - k,
{
    if m > k {
        lemma_scope_err::<T>(s, k, (m - 1) as nat);
    }
}

proof fn lemma_upto_unchanged<T: Derivable>(s: Seq<T::V>, k: nat)
    requires
        k <= s.len(),
        forall|i: int| 0 <= i < s.len() ==> T::source_of(#[trigger] s[i]) is None,
    ensures
        resolve_scope_upto::<T>(s, k) == Ok::<Seq<T::V>, ErrorModel>(s),
    decreases k,
{
    if k > 0 {
        lemma_upto_unchanged::<T>(s, (k - 1) as nat);
        assert(s.update(k - 1, s[k - 1]) =~= s);
    }
}

/// Resolving a scope in which no entity names a source changes nothing.
pub proof fn lemma_resolve_without_references<T: Derivable>(s: Seq<T::V>)
    requires
        forall|i: int| 0 <= i < s.len() ==> T::source_of(#[trigger] s[i]) is None,
    ensures
        resolve_scope::<T>(s) == Ok::<Seq<T::V>, ErrorModel>(s),
{
    lemma_upto_unchanged::<T>(s, s.len());
}

/// A chain `a` derives from `b`, `b` from `c`: once the scope `[a, b, c]` is
/// resolved, `a` holds what it had, then what `b` had, then what `c` had.
pub proof fn lemma_chain<T: Derivable>(s: Seq<T::V>)
    requires
        s.len() == 3,
        T::name_of(s[0]) != T::name_of(s[1]),
        T::name_of(s[0]) != T::name_of(s[2]),
        T::name_of(s[1]) != T::name_of(s[2]),
        T::source_of(s[0]) == Some(T::name_of(s[1])),
        T::source_of(s[1]) == Some(T::name_of(s[2])),
        T::source_of(s[2]) is None,
    ensures
        resolve_scope::<T>(s) is Ok,
        resolve_scope::<T>(s)->Ok_0[0] == T::merged(T::merged(s[0], s[1]), s[2]),
{
    let ab = T::merged(s[0], s[1]);
    let abc = T::merged(ab, s[2]);
    T::lemma_merged_keeps_name(s[0], s[1]);
    T::lemma_merged_keeps_name(ab, s[2]);
    T::lemma_merged_keeps_name(s[1], s[2]);
    let bc = T::merged(s[1], s[2]);
    // entity 0
    assert(first_named::<T>(s, T::name_of(s[2]), 2) == 2);
    assert(first_named::<T>(s, T::name_of(s[2]), 1) == 2);
    assert(first_named::<T>(s, T::name_of(s[2]), 0) == 2);
    assert(first_named::<T>(s, T::name_of(s[1]), 1) == 1);
    assert(first_named::<T>(s, T::name_of(s[1]), 0) == 1);
    assert(resolve_entry::<T>(s, abc, 1) == Ok::<T::V, ErrorModel>(abc));
    assert(resolve_entry::<T>(s, ab, 2) == Ok::<T::V, ErrorModel>(abc));
    assert(resolve_entry::<T>(s, s[0], 3) == Ok::<T::V, ErrorModel>(abc));
    assert(resolve_scope_upto::<T>(s, 0) == Ok::<Seq<T::V>, ErrorModel>(s));
    let t1 = s.update(0, abc);
    assert(resolve_scope_upto::<T>(s, 1) == Ok::<Seq<T::V>, ErrorModel>(t1));
    // entity 1
    assert(first_named::<T>(t1, T::name_of(s[2]), 2) == 2);
    assert(first_named::<T>(t1, T::name_of(s[2]), 1) == 2);
    assert(first_named::<T>(t1, T::name_of(s[2]), 0) == 2);
    assert(resolve_entry::<T>(t1, bc, 2) == Ok::<T::V, ErrorModel>(bc));
    assert(resolve_entry::<T>(t1, t1[1], 3) == Ok::<T::V, ErrorModel>(bc));
    let t2 = t1.update(1, bc);
    assert(resolve_scope_upto::<T>(s, 2) == Ok::<Seq<T::V>, ErrorModel>(t2));
    // entity 2
    assert(resolve_entry::<T>(t2, t2[2], 3) == Ok::<T::V, ErrorModel>(s[2]));
    let t3 = t2.update(2, s[2]);
    assert(resolve_scope_upto::<T>(s, 3) == Ok::<Seq<T::V>, ErrorModel>(t3));
}

/// Whether no two entities of `s` share a name.
pub open spec fn unique_names<T: Derivable>(s: Seq<T::V>) -> bool {
    forall|i: int, j: int|
        0 <= i < s.len() && 0 <= j < s.len() && i != j ==> T::name_of(#[trigger] s[i]) != T::name_of(
            #[trigger] s[j],
        )
}

proof fn lemma_first_named_unique<T: Derivable>(s: Seq<T::V>, c: int, k: int)
    requires
        unique_names::<T>(s),
        0 <= k <= c < s.len(),
    ensures
        first_named::<T>(s, T::name_of(s[c]), k) == c,
    decreases c - k,
{
    if k < c {
        assert(T::name_of(s[k]) != T::name_of(s[c]));
        lemma_first_named_unique::<T>(s, c, k + 1);
    }
}

proof fn lemma_entry_keeps_name<T: Derivable>(s: Seq<T::V>, cur: T::V, fuel: nat)
    requires
        resolve_entry::<T>(s, cur, fuel) is Ok,
    ensures
        T::name_of(resolve_entry::<T>(s, cur, fuel)->Ok_0) == T::name_of(cur),
    decreases fuel,
{
    if let Some(n) = T::source_of(cur) {
        let j = first_named::<T>(s, n, 0);
        if j >= 0 && fuel > 0 {
            T::lemma_merged_keeps_name(cur, s[j]);
            lemma_entry_keeps_name::<T>(s, T::merged(cur, s[j]), (fuel - 1) as nat);
        }
    }
}

proof fn lemma_first_named_bounds<T: Derivable>(s: Seq<T::V>, n: Seq<char>, k: int)
    requires
        0 <= k,
    ensures
        first_named::<T>(s, n, k) == -1 || (k <= first_named::<T>(s, n, k) < s.len() && T::name_of(
            s[first_named::<T>(s, n, k)],
        ) == n),
    decreases s.len() - k,
{
    if k < s.len() && T::name_of(s[k]) != n {
        lemma_first_named_bounds::<T>(s, n, k + 1);
    }
}

/// What resolving the first `k` entities keeps of a chain `a` from `b`,
/// `b` from `c`: every name, every entity from `k` on, `c`, and `b` once
/// resolved is `b` merged with `c`.
proof fn lemma_chain_upto<T: Derivable>(s: Seq<T::V>, b: int, c: int, k: nat)
    requires
        k <= s.len(),
        s.len() >= 2,
        0 <= b < s.len(),
        0 <= c < s.len(),
        b != c,
        unique_names::<T>(s),
        T::source_of(s[b]) == Some(T::name_of(s[c])),
        T::source_of(s[c]) is None,
        resolve_scope_upto::<T>(s, k) is Ok,
    ensures
        ({
            let t = resolve_scope_upto::<T>(s, k)->Ok_0;
            &&& t.len() == s.len()
            &&& forall|i: int| 0 <= i < s.len() ==> T::name_of(#[trigger] t[i]) == T::name_of(s[i])
            &&& forall|i: int| k <= i < s.len() ==> #[trigger] t[i] == s[i]
            &&& t[c] == s[c]
            &&& b < k ==> t[b] == T::merged(s[b], s[c])
        }),
    decreases k,
{
    if k > 0 {
        let k1 = (k - 1) as nat;
        assert(resolve_scope_upto::<T>(s, k1) is Ok) by {
            if resolve_scope_upto::<T>(s, k1) is Err {
                lemma_scope_err::<T>(s, k1, k);
            }
        }
        lemma_chain_upto::<T>(s, b, c, k1);
        let t = resolve_scope_upto::<T>(s, k1)->Ok_0;
        let v = resolve_entry::<T>(t, t[k1 as int], t.len())->Ok_0;
        lemma_entry_keeps_name::<T>(t, t[k1 as int], t.len());
        assert(unique_names::<T>(t));
        if k1 == c {
            assert(v == t[c]);
        }
        if k1 == b {
            lemma_first_named_unique::<T>(t, c, 0);
            T::lemma_merged_keeps_name(s[b], s[c]);
            assert(resolve_entry::<T>(t, T::merged(s[b], s[c]), (t.len() - 1) as nat) == Ok::<
                T::V,
                ErrorModel,
            >(T::merged(s[b], s[c])));
        }
        assert(resolve_scope_upto::<T>(s, k)->Ok_0 == t.update(k1 as int, v));
    }
}

proof fn lemma_index_kept<T: Derivable>(s: Seq<T::V>, a: int, k: nat)
    requires
        0 <= a < k <= s.len(),
        resolve_scope_upto::<T>(s, k) is Ok,
    ensures
        resolve_scope_upto::<T>(s, (a + 1) as nat) is Ok,
        resolve_scope_upto::<T>(s, k)->Ok_0[a] == resolve_scope_upto::<T>(s, (a + 1) as nat)->Ok_0[a],
    decreases k,
{
    if k > a + 1 {
        let k1 = (k - 1) as nat;
        assert(resolve_scope_upto::<T>(s, k1) is Ok) by {
            if resolve_scope_upto::<T>(s, k1) is Err {
                lemma_scope_err::<T>(s, k1, k);
            }
        }
        lemma_index_kept::<T>(s, a, k1);
        lemma_scope_len::<T>(s, k1);
        let t = resolve_scope_upto::<T>(s, k1)->Ok_0;
        let v = resolve_entry::<T>(t, t[k1 as int], t.len())->Ok_0;
        assert(resolve_scope_upto::<T>(s, k)->Ok_0 == t.update(k1 as int, v));
    }
}

/// In a scope of unique names, a chain `a` from `b`, `b` from `c` (which
/// names no source) leaves `a`, once the scope is resolved, with what it
/// had, then what `b` had, then what `c` had, wherever the three stand.
pub proof fn lemma_chain_in_scope<T: Derivable>(s: Seq<T::V>, a: int, b: int, c: int)
    requires
        0 <= a < s.len(),
        0 <= b < s.len(),
        0 <= c < s.len(),
        a != b && b != c && a != c,
        unique_names::<T>(s),
        T::source_of(s[a]) == Some(T::name_of(s[b])),
        T::source_of(s[b]) == Some(T::name_of(s[c])),
        T::source_of(s[c]) is None,
        T::merged(s[a], T::merged(s[b], s[c])) == T::merged(T::merged(s[a], s[b]), s[c]),
        resolve_scope::<T>(s) is Ok,
    ensures
        resolve_scope::<T>(s)->Ok_0[a] == T::merged(T::merged(s[a], s[b]), s[c]),
{
    let n = s.len();
    lemma_index_kept::<T>(s, a, n);
    let ka = a as nat;
    assert(resolve_scope_upto::<T>(s, ka) is Ok) by {
        if resolve_scope_upto::<T>(s, ka) is Err {
            lemma_scope_err::<T>(s, ka, (a + 1) as nat);
        }
    }
    lemma_chain_upto::<T>(s, b, c, ka);
    let t = resolve_scope_upto::<T>(s, ka)->Ok_0;
    assert(unique_names::<T>(t));
    lemma_first_named_unique::<T>(t, b, 0);
    lemma_first_named_unique::<T>(t, c, 0);
    T::lemma_merged_keeps_name(s[a], s[b]);
    T::lemma_merged_keeps_name(T::merged(s[a], s[b]), s[c]);
    T::lemma_merged_keeps_name(s[b], s[c]);
    T::lemma_merged_keeps_name(s[a], T::merged(s[b], s[c]));
    let target = T::merged(T::merged(s[a], s[b]), s[c]);
    assert(t[a] == s[a]);
    if b > a {
        assert(t[b] == s[b]);
        assert(resolve_entry::<T>(t, target, (n - 2) as nat) == Ok::<T::V, ErrorModel>(target));
        assert(resolve_entry::<T>(t, T::merged(s[a], s[b]), (n - 1) as nat) == Ok::<T::V, ErrorModel>(
            target,
        ));
    } else {
        assert(resolve_entry::<T>(t, target, (n - 1) as nat) == Ok::<T::V, ErrorModel>(target));
    }
    assert(resolve_entry::<T>(t, t[a], n) == Ok::<T::V, ErrorModel>(target));
}

/// Index of the first entity of `items` named `name`.
fn find_named<T: Derivable>(items: &Vec<T>, name: &String) -> (r: Option<usize>)
    ensures
        match r {
            Some(j) => j < items.len() && j as int == first_named::<T>(items.deep_view(), name@, 0),
            None => first_named::<T>(items.deep_view(), name@, 0) == -1,
        },
{
    let ghost s = items.deep_view();
    let mut j: usize = 0;
    while j < items.len()
        invariant
            j <= items.len(),
            s == items.deep_view(),
            first_named::<T>(s, name@, 0) == first_named::<T>(s, name@, j as int),
        decreases items.len() - j,
    {
        let n = items[j].name_ref();
        if *n == *name {
            return Some(j);
        }
        j = j + 1;
    }
    None
}

/// Follows the `derivedFrom` chain of the entity at `i`, against `items`.
fn resolve_at<T: Derivable>(items: &Vec<T>, i: usize) -> (r: Result<T, Error>)
    requires
        i < items.len(),
    ensures
        match resolve_entry::<T>(items.deep_view(), items.deep_view()[i as int], items.len() as nat) {
            Ok(v) => r is Ok && r->Ok_0.deep_view() == v,
            Err(e) => r is Err && r->Err_0.deep_view() == e,
        },
{
    let ghost s = items.deep_view();
    let mut cur = items[i].duplicate();
    let mut fuel: usize = items.len();
    while cur.source_ref().is_some()
        invariant
            s == items.deep_view(),
            resolve_entry::<T>(s, cur.deep_view(), fuel as nat) == resolve_entry::<T>(
                s,
                s[i as int],
                items.len() as nat,
            ),
        decreases fuel,
    {
        let src = cur.source_ref();
        let name = src.as_ref().unwrap();
        match find_named(items, name) {
            None => {
                return Err(Error::UnresolvedReference(name.clone()));
            },
            Some(j) => {
                if fuel == 0 {
                    return Err(Error::DerivationCycle(cur.name_ref().clone()));
                }
                let source = &items[j];
                cur.merge_from(source);
                fuel = fuel - 1;
            },
        }
    }
    Ok(cur)
}

/// Resolves every entity of a sibling scope, in order: each one takes, along
/// its `derivedFrom` chain, what it leaves unset from the sibling it names.
pub fn resolve_siblings<T: Derivable>(items: &mut Vec<T>) -> (r: Result<(), Error>)
    ensures
        match resolve_scope::<T>(old(items).deep_view()) {
            Ok(t) => r is Ok && final(items).deep_view() == t,
            Err(e) => r is Err && r->Err_0.deep_view() == e && final(items).deep_view()
                == old(items).deep_view(),
        },
{
    let ghost s0 = items.deep_view();
    let saved = copy_vec(items);
    let n = items.len();
    let mut i: usize = 0;
    while i < n
        invariant
            i <= n,
            n == s0.len(),
            old(items).deep_view() == s0,
            saved.deep_view() == s0,
            resolve_scope_upto::<T>(s0, i as nat) == Ok::<Seq<T::V>, ErrorModel>(items.deep_view()),
        decreases n - i,
    {
        proof {
            lemma_scope_len::<T>(s0, i as nat);
        }
        let v = resolve_at(items, i);
        match v {
            Err(e) => {
                proof {
                    assert(resolve_scope_upto::<T>(s0, (i + 1) as nat) == Err::<Seq<T::V>, ErrorModel>(e.deep_view()));
                    lemma_scope_err::<T>(s0, (i + 1) as nat, n as nat);
                }
                *items = saved;
                return Err(e);
            },
            Ok(v) => {
                let ghost t = items.deep_view();
                items.set(i, v);
                assert(items.deep_view() =~= t.update(i as int, v.deep_view()));
            },
        }
        i = i + 1;
    }
    Ok(())
}

} // verus!
