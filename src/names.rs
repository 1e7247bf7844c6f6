//! Making generated names unique.
use vstd::prelude::*;
use vstd::set_lib::{lemma_int_range, lemma_len_subset, lemma_map_size, set_int_range};
use vstd::string::StringExecFns;
use crate::text::{decimal_string, decimal_text, lemma_digits_injective};

verus! {

/// `n` followed by an underscore and the decimal text of `k`.
pub open spec fn suffixed(n: Seq<char>, k: nat) -> Seq<char> {
    n + seq!['_'] + decimal_text(k)
}

/// Whether `k` is the smallest index whose suffixed name is not reserved.
pub open spec fn is_free_index(n: Seq<char>, reserved: Set<Seq<char>>, k: nat) -> bool {
    &&& !reserved.contains(suffixed(n, k))
    &&& forall|j: nat| j < k ==> reserved.contains(#[trigger] suffixed(n, j))
}

/// The smallest index whose suffixed name is not reserved.
pub open spec fn free_index(n: Seq<char>, reserved: Set<Seq<char>>) -> nat {
    choose|k: nat| is_free_index(n, reserved, k)
}

/// The first `k` names made unique in order: a name equal to one already
/// given out gets the smallest suffix that makes it unreserved, and that
/// result is reserved in turn. Returns the names given out and the reserved set.
pub open spec fn unique_upto(names: Seq<Seq<char>>, k: nat) -> (Seq<Seq<char>>, Set<Seq<char>>)
    decreases k,
{
    if k == 0 {
        (Seq::empty(), names.to_set())
    } else {
        let (out, res) = unique_upto(names, (k - 1) as nat);
        let n = names[k - 1];
        if out.contains(n) {
            let c = suffixed(n, free_index(n, res));
            (out.push(c), res.insert(c))
        } else {
            (out.push(n), res)
        }
    }
}

/// The names made unique.
pub open spec fn unique_names_of(names: Seq<Seq<char>>) -> Seq<Seq<char>> {
    unique_upto(names, names.len()).0
}

proof fn lemma_suffixed_injective(n: Seq<char>, a: nat, b: nat)
    requires
        suffixed(n, a) == suffixed(n, b),
    ensures
        a == b,
{
    let sa = suffixed(n, a);
    let sb = suffixed(n, b);
    assert(sa.subrange((n.len() + 1) as int, sa.len() as int) =~= decimal_text(a));
    assert(sb.subrange((n.len() + 1) as int, sb.len() as int) =~= decimal_text(b));
    lemma_digits_injective(a, b, 10);
}

/// Among `k` suffixed names all reserved, the reserved set has at least `k`
/// names.
proof fn lemma_reserved_bound(n: Seq<char>, reserved: Set<Seq<char>>, k: nat)
    requires
        reserved.finite(),
        forall|j: nat| j < k ==> reserved.contains(#[trigger] suffixed(n, j)),
    ensures
        k <= reserved.len(),
{
    let f = |i: int| suffixed(n, i as nat);
    let x = set_int_range(0, k as int);
    let y = x.map(f);
    lemma_int_range(0, k as int);
    assert(vstd::relations::injective_on(f, x)) by {
        assert forall|a: int, b: int| x.contains(a) && x.contains(b) && #[trigger] f(a) == #[trigger] f(
            b,
        ) implies a == b by {
            lemma_suffixed_injective(n, a as nat, b as nat);
        }
    }
    lemma_map_size(x, y, f);
    assert(y.subset_of(reserved)) by {
        assert forall|s: Seq<char>| y.contains(s) implies reserved.contains(s) by {
            let i = choose|i: int| x.contains(i) && f(i) == s;
            assert(suffixed(n, i as nat) == s);
        }
    }
    lemma_len_subset(y, reserved);
}

proof fn lemma_unique_upto(names: Seq<Seq<char>>, k: nat)
    requires
        k <= names.len(),
    ensures
        unique_upto(names, k).0.len() == k,
        unique_upto(names, k).1.finite(),
        names.to_set().subset_of(unique_upto(names, k).1),
        forall|i: int| 0 <= i < k ==> unique_upto(names, k).1.contains(#[trigger] unique_upto(names, k).0[i]),
        forall|i: int, j: int|
            0 <= i < j < k ==> #[trigger] unique_upto(names, k).0[i] != #[trigger] unique_upto(
                names,
                k,
            ).0[j],
    decreases k,
{
    broadcast use vstd::seq_lib::seq_to_set_is_finite;

    if k > 0 {
        lemma_unique_upto(names, (k - 1) as nat);
        let (out, res) = unique_upto(names, (k - 1) as nat);
        let n = names[k - 1];
        assert(names.to_set().contains(n));
        if out.contains(n) {
            lemma_free_index_exists(n, res);
        }
    }
}

proof fn lemma_free_index_exists(n: Seq<char>, reserved: Set<Seq<char>>)
    requires
        reserved.finite(),
    ensures
        is_free_index(n, reserved, free_index(n, reserved)),
{
    let w = first_free_from(n, reserved, 0);
    assert(is_free_index(n, reserved, w));
}

/// The smallest unreserved index from `k` on, where all below `k` are reserved.
proof fn first_free_from(n: Seq<char>, reserved: Set<Seq<char>>, k: nat) -> (w: nat)
    requires
        reserved.finite(),
        forall|j: nat| j < k ==> reserved.contains(#[trigger] suffixed(n, j)),
    ensures
        is_free_index(n, reserved, w),
    decreases reserved.len() + 1 - k,
{
    lemma_reserved_bound(n, reserved, k);
    if !reserved.contains(suffixed(n, k)) {
        k
    } else {
        assert forall|j: nat| j < k + 1 implies reserved.contains(#[trigger] suffixed(n, j)) by {
        }
        lemma_reserved_bound(n, reserved, k + 1);
        first_free_from(n, reserved, k + 1)
    }
}

/// Names made unique are pairwise distinct.
pub proof fn lemma_unique_names_distinct(names: Seq<Seq<char>>)
    ensures
        unique_names_of(names).len() == names.len(),
        forall|i: int, j: int|
            0 <= i < j < names.len() ==> #[trigger] unique_names_of(names)[i]
                != #[trigger] unique_names_of(names)[j],
{
    lemma_unique_upto(names, names.len());
}

fn contains_name(v: &Vec<String>, n: &String) -> (r: bool)
    ensures
        r == v.deep_view().contains(n@),
{
    let mut i: usize = 0;
    while i < v.len()
        invariant
            i <= v.len(),
            forall|j: int| 0 <= j < i ==> v.deep_view()[j] != n@,
        decreases v.len() - i,
    {
        if v[i] == *n {
            assert(v.deep_view()[i as int] == n@);
            return true;
        }
        i = i + 1;
    }
    false
}

fn suffixed_string(n: &String, k: u64) -> (r: String)
    ensures
        r@ == suffixed(n@, k as nat),
{
    let mut s = n.clone();
    s.append("_");
    let d = decimal_string(k);
    s.append(d.as_str());
    proof {
        reveal_strlit("_");
    }
    assert(s@ =~= suffixed(n@, k as nat));
    s
}

/// Makes names unique in order: a name equal to one already given out gets
/// `_N` appended, `N` the smallest number for which the result is neither
/// one of the names nor one given out before.
pub fn unique_names(names: &Vec<String>) -> (r: Vec<String>)
    ensures
        r.deep_view() == unique_names_of(names.deep_view()),
{
    let ghost s = names.deep_view();
    let mut reserved: Vec<String> = crate::utils::copy_texts(names);
    let mut out: Vec<String> = Vec::new();
    let mut i: usize = 0;
    assert(out.deep_view() =~= Seq::<Seq<char>>::empty());
    while i < names.len()
        invariant
            i <= names.len(),
            s == names.deep_view(),
            out.deep_view() == unique_upto(s, i as nat).0,
            reserved.deep_view().to_set() == unique_upto(s, i as nat).1,
        decreases names.len() - i,
    {
        proof {
            lemma_unique_upto(s, i as nat);
        }
        let ghost res = unique_upto(s, i as nat).1;
        let n = &names[i];
        if contains_name(&out, n) {
            let mut k: u64 = 0;
            proof {
                reserved.deep_view().lemma_cardinality_of_set();
            }
            loop
                invariant
                    res == reserved.deep_view().to_set(),
                    res.finite(),
                    res.len() <= reserved.len(),
                    forall|j: nat| j < k ==> res.contains(#[trigger] suffixed(n@, j)),
                ensures
                    is_free_index(n@, res, k as nat),
                decreases reserved.len() - k,
            {
                proof {
                    lemma_reserved_bound(n@, res, k as nat);
                }
                let c = suffixed_string(n, k);
                if !contains_name(&reserved, &c) {
                    break;
                }
                proof {
                    lemma_reserved_bound(n@, res, (k + 1) as nat);
                }
                k = k + 1;
            }
            proof {
                lemma_free_index_exists(n@, res);
                let f = free_index(n@, res);
                if f < k {
                    assert(res.contains(suffixed(n@, f)));
                } else if f > k {
                    assert(res.contains(suffixed(n@, k as nat)));
                }
            }
            let c = suffixed_string(n, k);
            let ghost ob = out.deep_view();
            let ghost rb = reserved.deep_view();
            out.push(c.clone());
            reserved.push(c);
            assert(out.deep_view() =~= ob.push(c@));
            assert(reserved.deep_view() =~= rb.push(c@));
            assert(reserved.deep_view().to_set() =~= res.insert(c@)) by {
                assert forall|x: Seq<char>| #[trigger] rb.push(c@).contains(x) <==> (rb.contains(x)
                    || x == c@) by {
                    if x == c@ {
                        assert(rb.push(c@)[rb.len() as int] == c@);
                    }
                    if rb.contains(x) {
                        let w = choose|w: int| 0 <= w < rb.len() && rb[w] == x;
                        assert(rb.push(c@)[w] == x);
                    }
                }
            }
        } else {
            let ghost ob = out.deep_view();
            out.push(n.clone());
            assert(out.deep_view() =~= ob.push(n@));
        }
        i = i + 1;
    }
    out
}

} // verus!
