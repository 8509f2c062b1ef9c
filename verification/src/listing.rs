//! Sorted, duplicate-free listings of names, and the set operations the
//! commands report (difference, intersection, distinct count).

use vstd::prelude::*;
use crate::order::{chars_eq, chars_lt, lemma_lex_asymmetric, lemma_lex_irreflexive, lemma_lex_total, lemma_lex_transitive, lex_lt};
use crate::text::{chars_of, string_of};

verus! {

broadcast use vstd::seq_lib::group_seq_properties;

/// The character view of each string.
pub open spec fn views(v: Seq<String>) -> Seq<Seq<char>> {
    v.map_values(|s: String| s@)
}

/// The character view of each key.
pub open spec fn keys(v: Seq<Vec<char>>) -> Seq<Seq<char>> {
    v.map_values(|k: Vec<char>| k@)
}

/// The set of names that `v` holds.
pub open spec fn name_set(v: Seq<String>) -> Set<Seq<char>> {
    views(v).to_set()
}

/// Every element comes strictly before every later one.
pub open spec fn strictly_sorted(s: Seq<Seq<char>>) -> bool {
    forall|i: int, j: int| 0 <= i < j < s.len() ==> lex_lt(#[trigger] s[i], #[trigger] s[j])
}

/// `s` lists the elements of `set` in increasing order, each once.
pub open spec fn lists(s: Seq<Seq<char>>, set: Set<Seq<char>>) -> bool {
    strictly_sorted(s) && s.to_set() == set
}

/// A strictly sorted sequence holds no element twice.
pub proof fn lemma_sorted_no_duplicates(s: Seq<Seq<char>>)
    requires
        strictly_sorted(s),
    ensures
        s.no_duplicates(),
{
    assert forall|i: int, j: int| 0 <= i < s.len() && 0 <= j < s.len() && i != j implies s[i]
        != s[j] by {
        if i < j {
            lemma_lex_irreflexive(s[i]);
        } else {
            lemma_lex_irreflexive(s[j]);
        }
    }
}

/// A listing has one entry for each element of the set.
pub proof fn lemma_listing_len(s: Seq<Seq<char>>, set: Set<Seq<char>>)
    requires
        lists(s, set),
    ensures
        s.len() == set.len(),
{
    lemma_sorted_no_duplicates(s);
    s.unique_seq_to_set();
}

/// The listing of a set is unique: two strictly sorted sequences with the same
/// elements are equal.
pub proof fn lemma_listing_unique(a: Seq<Seq<char>>, b: Seq<Seq<char>>)
    requires
        strictly_sorted(a),
        strictly_sorted(b),
        a.to_set() == b.to_set(),
    ensures
        a == b,
    decreases a.len(),
{
    if a.len() == 0 {
        if b.len() > 0 {
            assert(b.to_set().contains(b[0]));
        }
        assert(a =~= b);
    } else {
        assert(a.to_set().contains(a[0]));
        assert(b.len() > 0);
        assert(b.to_set().contains(b[0]));
        // the first elements are both the least element
        let i = choose|i: int| 0 <= i < b.len() && b[i] == a[0];
        let j = choose|j: int| 0 <= j < a.len() && a[j] == b[0];
        if i > 0 {
            assert(lex_lt(b[0], b[i]));
            if j > 0 {
                assert(lex_lt(a[0], a[j]));
                lemma_lex_asymmetric(a[0], b[0]);
            } else {
                lemma_lex_irreflexive(a[0]);
            }
        }
        assert(a[0] == b[0]);
        let a1 = a.drop_first();
        let b1 = b.drop_first();
        assert(strictly_sorted(a1)) by {
            assert forall|x: int, y: int| 0 <= x < y < a1.len() implies lex_lt(a1[x], a1[y]) by {
                assert(a1[x] == a[x + 1] && a1[y] == a[y + 1]);
            }
        }
        assert(strictly_sorted(b1)) by {
            assert forall|x: int, y: int| 0 <= x < y < b1.len() implies lex_lt(b1[x], b1[y]) by {
                assert(b1[x] == b[x + 1] && b1[y] == b[y + 1]);
            }
        }
        assert(a1.to_set() =~= b1.to_set()) by {
            assert forall|e: Seq<char>| a1.to_set().contains(e) implies b1.to_set().contains(e) by {
                let k = choose|k: int| 0 <= k < a1.len() && a1[k] == e;
                assert(a[k + 1] == e);
                assert(lex_lt(a[0], e));
                assert(a.to_set().contains(e));
                assert(b.to_set().contains(e));
                let m = choose|m: int| 0 <= m < b.len() && b[m] == e;
                if m == 0 {
                    lemma_lex_irreflexive(e);
                }
                assert(b1[m - 1] == e);
            }
            assert forall|e: Seq<char>| b1.to_set().contains(e) implies a1.to_set().contains(e) by {
                let k = choose|k: int| 0 <= k < b1.len() && b1[k] == e;
                assert(b[k + 1] == e);
                assert(lex_lt(b[0], e));
                assert(b.to_set().contains(e));
                assert(a.to_set().contains(e));
                let m = choose|m: int| 0 <= m < a.len() && a[m] == e;
                if m == 0 {
                    lemma_lex_irreflexive(e);
                }
                assert(a1[m - 1] == e);
            }
        }
        lemma_listing_unique(a1, b1);
        assert(a =~= b) by {
            assert forall|k: int| 0 <= k < a.len() implies a[k] == b[k] by {
                if k > 0 {
                    assert(a[k] == a1[k - 1]);
                    assert(b[k] == b1[k - 1]);
                }
            }
        }
    }
}


/// Inserts `x` into a sorted key list, unless it is there already.
fn insert_sorted(v: &mut Vec<Vec<char>>, x: Vec<char>)
    requires
        strictly_sorted(keys(old(v)@)),
    ensures
        strictly_sorted(keys(final(v)@)),
        keys(final(v)@).to_set() == keys(old(v)@).to_set().insert(x@),
{
    let ghost old_keys = keys(v@);
    let mut p: usize = 0;
    while p < v.len() && chars_lt(&v[p], &x)
        invariant
            p <= v.len(),
            keys(v@) == old_keys,
            strictly_sorted(old_keys),
            forall|k: int| 0 <= k < p ==> lex_lt(#[trigger] old_keys[k], x@),
        decreases v.len() - p,
    {
        p = p + 1;
    }
    if p < v.len() && !chars_lt(&x, &v[p]) {
        // neither comes before the other: `x` is already listed
        proof {
            if old_keys[p as int] != x@ {
                lemma_lex_total(old_keys[p as int], x@);
            }
            assert(old_keys.to_set().insert(x@) =~= old_keys.to_set());
        }
        return;
    }
    let ghost xv = x@;
    v.insert(p, x);
    proof {
        let nk = keys(v@);
        assert(nk =~= old_keys.insert(p as int, xv));
        assert forall|k: int| p <= k < old_keys.len() implies lex_lt(xv, #[trigger] old_keys[k]) by {
            assert(lex_lt(xv, old_keys[p as int]));
            if k > p {
                lemma_lex_transitive(xv, old_keys[p as int], old_keys[k]);
            }
        }
        assert forall|i: int, j: int| 0 <= i < j < nk.len() implies lex_lt(#[trigger] nk[i], #[trigger] nk[j]) by {
            if j < p {
                assert(nk[i] == old_keys[i] && nk[j] == old_keys[j]);
            } else if j == p {
                assert(nk[i] == old_keys[i]);
            } else if i < p {
                assert(nk[i] == old_keys[i] && nk[j] == old_keys[j - 1]);
                lemma_lex_transitive(old_keys[i], xv, old_keys[j - 1]);
            } else if i == p {
                assert(nk[j] == old_keys[j - 1]);
            } else {
                assert(nk[i] == old_keys[i - 1] && nk[j] == old_keys[j - 1]);
            }
        }
        assert(nk.to_set() =~= old_keys.to_set().insert(xv)) by {
            assert forall|e: Seq<char>| nk.to_set().contains(e) implies old_keys.to_set().insert(xv).contains(e) by {
                let k = choose|k: int| 0 <= k < nk.len() && nk[k] == e;
                if k < p {
                    assert(old_keys[k] == e);
                } else if k > p {
                    assert(old_keys[k - 1] == e);
                }
            }
            assert forall|e: Seq<char>| old_keys.to_set().insert(xv).contains(e) implies nk.to_set().contains(e) by {
                if e == xv {
                    assert(nk[p as int] == e);
                } else {
                    let k = choose|k: int| 0 <= k < old_keys.len() && old_keys[k] == e;
                    if k < p {
                        assert(nk[k] == e);
                    } else {
                        assert(nk[k + 1] == e);
                    }
                }
            }
        }
    }
}

/// The names of `v` as a sorted, duplicate-free list of character keys.
fn sorted_keys(v: &Vec<String>) -> (r: Vec<Vec<char>>)
    ensures
        lists(keys(r@), name_set(v@)),
{
    let mut r: Vec<Vec<char>> = Vec::new();
    let mut i: usize = 0;
    assert(keys(r@).to_set() =~= views(v@.take(0)).to_set());
    while i < v.len()
        invariant
            i <= v.len(),
            strictly_sorted(keys(r@)),
            keys(r@).to_set() == views(v@.take(i as int)).to_set(),
        decreases v.len() - i,
    {
        let k = chars_of(v[i].as_str());
        insert_sorted(&mut r, k);
        proof {
            assert(views(v@.take(i + 1)) =~= views(v@.take(i as int)).push(v@[i as int]@));
            views(v@.take(i as int)).lemma_push_to_set_commute(v@[i as int]@);
        }
        i = i + 1;
    }
    assert(v@.take(v.len() as int) =~= v@);
    r
}

/// The strings spelled by the keys, in the same order.
fn strings_of(v: &Vec<Vec<char>>) -> (r: Vec<String>)
    ensures
        views(r@) == keys(v@),
{
    let mut r: Vec<String> = Vec::new();
    let mut i: usize = 0;
    while i < v.len()
        invariant
            i <= v.len(),
            views(r@) == keys(v@).take(i as int),
        decreases v.len() - i,
    {
        let s = string_of(&v[i]);
        let ghost before = r@;
        r.push(s);
        proof {
            assert(views(r@) =~= views(before).push(v@[i as int]@));
            assert(views(r@) =~= keys(v@).take(i + 1));
        }
        i = i + 1;
    }
    assert(keys(v@).take(v.len() as int) =~= keys(v@));
    r
}

/// Whether the key list holds `x`.
fn holds_key(v: &Vec<Vec<char>>, x: &Vec<char>) -> (r: bool)
    ensures
        r == keys(v@).contains(x@),
{
    let mut i: usize = 0;
    while i < v.len()
        invariant
            i <= v.len(),
            forall|k: int| 0 <= k < i ==> keys(v@)[k] != x@,
        decreases v.len() - i,
    {
        if chars_eq(&v[i], x) {
            assert(keys(v@)[i as int] == x@);
            return true;
        }
        i = i + 1;
    }
    false
}

/// The keys of the sorted list `a` that are (`keep_members`) or are not
/// (`!keep_members`) in `b`, still sorted.
fn select(a: &Vec<Vec<char>>, b: &Vec<Vec<char>>, keep_members: bool) -> (r: Vec<Vec<char>>)
    requires
        strictly_sorted(keys(a@)),
    ensures
        strictly_sorted(keys(r@)),
        keep_members ==> keys(r@).to_set() == keys(a@).to_set().intersect(keys(b@).to_set()),
        !keep_members ==> keys(r@).to_set() == keys(a@).to_set().difference(keys(b@).to_set()),
{
    let ghost ka = keys(a@);
    let ghost kb = keys(b@).to_set();
    let ghost wanted = if keep_members { kb } else { Set::new(|e: Seq<char>| !kb.contains(e)) };
    let mut r: Vec<Vec<char>> = Vec::new();
    let mut i: usize = 0;
    assert(keys(r@).to_set() =~= ka.take(0).to_set().intersect(wanted));
    while i < a.len()
        invariant
            i <= a.len(),
            ka == keys(a@),
            kb == keys(b@).to_set(),
            wanted == (if keep_members { kb } else { Set::new(|e: Seq<char>| !kb.contains(e)) }),
            strictly_sorted(ka),
            strictly_sorted(keys(r@)),
            i < a.len() ==> forall|k: int| 0 <= k < r.len() ==> lex_lt(#[trigger] keys(r@)[k], ka[i as int]),
            keys(r@).to_set() == ka.take(i as int).to_set().intersect(wanted),
        decreases a.len() - i,
    {
        let member = holds_key(b, &a[i]);
        let ghost before = keys(r@);
        if member == keep_members {
            r.push(a[i].clone());
            proof {
                assert(keys(r@) =~= before.push(ka[i as int]));
                assert forall|x: int, y: int| 0 <= x < y < keys(r@).len() implies lex_lt(#[trigger] keys(r@)[x], #[trigger] keys(r@)[y]) by {
                    if y < before.len() {
                        assert(keys(r@)[x] == before[x] && keys(r@)[y] == before[y]);
                    } else {
                        assert(keys(r@)[x] == before[x]);
                    }
                }
            }
        }
        proof {
            assert(ka.take(i + 1) =~= ka.take(i as int).push(ka[i as int]));
            ka.take(i as int).lemma_push_to_set_commute(ka[i as int]);
            assert(wanted.contains(ka[i as int]) == (member == keep_members));
            assert(keys(r@).to_set() =~= ka.take(i + 1).to_set().intersect(wanted)) by {
                if member == keep_members {
                    before.lemma_push_to_set_commute(ka[i as int]);
                }
            }
            if i + 1 < a.len() {
                assert forall|k: int| 0 <= k < r.len() implies lex_lt(#[trigger] keys(r@)[k], ka[i + 1]) by {
                    if k < before.len() {
                        assert(keys(r@)[k] == before[k]);
                        lemma_lex_transitive(before[k], ka[i as int], ka[i + 1]);
                    } else {
                        assert(keys(r@)[k] == ka[i as int]);
                    }
                }
            }
        }
        i = i + 1;
    }
    assert(ka.take(a.len() as int) =~= ka);
    assert(ka.to_set().intersect(kb) =~= ka.to_set().intersect(wanted) || !keep_members);
    assert(ka.to_set().difference(kb) =~= ka.to_set().intersect(wanted) || keep_members);
    r
}

/// The names of `v`, sorted, each once.
pub fn sorted_names(v: &Vec<String>) -> (r: Vec<String>)
    ensures
        lists(views(r@), name_set(v@)),
{
    let k = sorted_keys(v);
    strings_of(&k)
}

/// The names of `a` that are not names of `b`, sorted, each once.
pub fn sorted_difference(a: &Vec<String>, b: &Vec<String>) -> (r: Vec<String>)
    ensures
        lists(views(r@), name_set(a@).difference(name_set(b@))),
{
    let ka = sorted_keys(a);
    let kb = sorted_keys(b);
    let d = select(&ka, &kb, false);
    strings_of(&d)
}

/// How many names of `a` are not names of `b`.
pub fn difference_count(a: &Vec<String>, b: &Vec<String>) -> (r: usize)
    ensures
        r == name_set(a@).difference(name_set(b@)).len(),
{
    let ka = sorted_keys(a);
    let kb = sorted_keys(b);
    let d = select(&ka, &kb, false);
    proof {
        lemma_sorted_no_duplicates(keys(d@));
        keys(d@).unique_seq_to_set();
    }
    d.len()
}

/// How many distinct names `v` holds.
pub fn distinct_count(v: &Vec<String>) -> (r: usize)
    ensures
        r == name_set(v@).len(),
{
    let k = sorted_keys(v);
    proof {
        lemma_sorted_no_duplicates(keys(k@));
        keys(k@).unique_seq_to_set();
    }
    k.len()
}

/// How many names `a` and `b` have in common.
pub fn common_count(a: &Vec<String>, b: &Vec<String>) -> (r: usize)
    ensures
        r == name_set(a@).intersect(name_set(b@)).len(),
{
    let ka = sorted_keys(a);
    let kb = sorted_keys(b);
    let c = select(&ka, &kb, true);
    proof {
        lemma_sorted_no_duplicates(keys(c@));
        keys(c@).unique_seq_to_set();
    }
    c.len()
}

} // verus!
