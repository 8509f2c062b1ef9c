//! The order in which `generate` takes the resource spec files: the order of
//! `Path`, which compares paths component by component.

use vstd::prelude::*;
use crate::order::{chars_eq, chars_lt, lemma_lex_irreflexive, lemma_lex_total, lemma_lex_transitive, lex_lt};
use crate::text::chars_of;

verus! {

broadcast use {vstd::seq_lib::group_seq_properties, vstd::seq_lib::to_multiset_build, vstd::seq_lib::to_multiset_insert};

/// One component of a path: its kind, ranked as `std::path::Component` orders
/// its variants (prefix 0, root 1, current directory 2, parent directory 3,
/// normal 4), and its text.
pub struct PathComponent {
    pub kind: u8,
    pub name: String,
}

impl View for PathComponent {
    type V = (u8, Seq<char>);

    open spec fn view(&self) -> (u8, Seq<char>) {
        (self.kind, self.name@)
    }
}

/// A path listed for processing: its components, and where the path stands
/// in the listing it came from.
pub struct ListedPath {
    pub components: Vec<PathComponent>,
    pub index: usize,
}

impl View for ListedPath {
    type V = (Seq<(u8, Seq<char>)>, usize);

    open spec fn view(&self) -> (Seq<(u8, Seq<char>)>, usize) {
        (self.components@.map_values(|c: PathComponent| c@), self.index)
    }
}

/// Components compare by kind first, then by text.
pub open spec fn component_lt(a: (u8, Seq<char>), b: (u8, Seq<char>)) -> bool {
    a.0 < b.0 || (a.0 == b.0 && lex_lt(a.1, b.1))
}

/// Paths compare lexicographically by their components.
pub open spec fn path_lt(a: Seq<(u8, Seq<char>)>, b: Seq<(u8, Seq<char>)>) -> bool
    decreases a.len(),
{
    if b.len() == 0 {
        false
    } else if a.len() == 0 {
        true
    } else if a[0] != b[0] {
        component_lt(a[0], b[0])
    } else {
        path_lt(a.drop_first(), b.drop_first())
    }
}

/// No path comes before itself.
pub proof fn lemma_path_irreflexive(a: Seq<(u8, Seq<char>)>)
    ensures
        !path_lt(a, a),
    decreases a.len(),
{
    if a.len() > 0 {
        lemma_path_irreflexive(a.drop_first());
    }
}

proof fn lemma_component_transitive(a: (u8, Seq<char>), b: (u8, Seq<char>), c: (u8, Seq<char>))
    requires
        component_lt(a, b),
        component_lt(b, c),
    ensures
        component_lt(a, c),
{
    if a.0 == b.0 && b.0 == c.0 {
        lemma_lex_transitive(a.1, b.1, c.1);
    }
}

proof fn lemma_component_irreflexive(a: (u8, Seq<char>))
    ensures
        !component_lt(a, a),
{
    lemma_lex_irreflexive(a.1);
}

/// The path order is transitive.
pub proof fn lemma_path_transitive(a: Seq<(u8, Seq<char>)>, b: Seq<(u8, Seq<char>)>, c: Seq<(u8, Seq<char>)>)
    requires
        path_lt(a, b),
        path_lt(b, c),
    ensures
        path_lt(a, c),
    decreases a.len(),
{
    if a.len() > 0 && b.len() > 0 && c.len() > 0 {
        if a[0] == b[0] && b[0] == c[0] {
            lemma_path_transitive(a.drop_first(), b.drop_first(), c.drop_first());
        } else if a[0] != b[0] && b[0] != c[0] {
            lemma_component_transitive(a[0], b[0], c[0]);
            if a[0] == c[0] {
                lemma_component_irreflexive(a[0]);
            }
        }
    }
}

/// The path order is asymmetric.
pub proof fn lemma_path_asymmetric(a: Seq<(u8, Seq<char>)>, b: Seq<(u8, Seq<char>)>)
    requires
        path_lt(a, b),
    ensures
        !path_lt(b, a),
{
    if path_lt(b, a) {
        lemma_path_transitive(a, b, a);
        lemma_path_irreflexive(a);
    }
}

/// The views of the components of a path.
pub open spec fn component_views(cs: Seq<PathComponent>) -> Seq<(u8, Seq<char>)> {
    cs.map_values(|c: PathComponent| c@)
}

/// What `Path::parent` keeps of a path where it has a parent, else the path
/// itself: all components but the last when the last is `.`, `..` or a
/// name; a path that is empty or ends at a root or a prefix stays whole.
pub open spec fn parent_or_self(d: Seq<(u8, Seq<char>)>) -> Seq<(u8, Seq<char>)> {
    if d.len() > 0 && d.last().0 >= 2 {
        d.drop_last()
    } else {
        d
    }
}

/// Where the provider spec is looked for when none is given:
/// `provider.toml` in the parent of the resources directory (in the
/// directory itself where it has no parent).
pub open spec fn default_provider_components(d: Seq<(u8, Seq<char>)>) -> Seq<(u8, Seq<char>)> {
    parent_or_self(d).push((4u8, "provider.toml"@))
}

/// The components of the default provider spec's path for a resources
/// directory with the components `dir`.
pub fn default_provider_path(dir: &Vec<PathComponent>) -> (p: Vec<PathComponent>)
    ensures
        component_views(p@) == default_provider_components(component_views(dir@)),
{
    let ghost dv = component_views(dir@);
    let keep: usize = if dir.len() > 0 && dir[dir.len() - 1].kind >= 2 {
        dir.len() - 1
    } else {
        dir.len()
    };
    proof {
        if dir.len() > 0 {
            assert(dv.last() == dir@[dir.len() - 1]@);
        }
        assert(parent_or_self(dv) =~= dv.take(keep as int));
    }
    let mut p: Vec<PathComponent> = Vec::new();
    let mut i: usize = 0;
    assert(component_views(p@) =~= dv.take(0));
    while i < keep
        invariant
            i <= keep,
            keep <= dir.len(),
            dv == component_views(dir@),
            parent_or_self(dv) == dv.take(keep as int),
            component_views(p@) == dv.take(i as int),
        decreases keep - i,
    {
        let c = PathComponent { kind: dir[i].kind, name: dir[i].name.clone() };
        let ghost before = p@;
        p.push(c);
        proof {
            assert(component_views(p@) =~= component_views(before).push(dv[i as int]));
            assert(dv.take(i + 1) =~= dv.take(i as int).push(dv[i as int]));
        }
        i = i + 1;
    }
    let ghost before = p@;
    p.push(PathComponent { kind: 4, name: String::from_str("provider.toml") });
    proof {
        assert(component_views(p@) =~= component_views(before).push((4u8, "provider.toml"@)));
    }
    p
}

/// The views of listed paths.
pub open spec fn listed_views(v: Seq<ListedPath>) -> Seq<(Seq<(u8, Seq<char>)>, usize)> {
    v.map_values(|p: ListedPath| p@)
}

/// No listed path comes after a later one.
pub open spec fn sorted_by_path(s: Seq<(Seq<(u8, Seq<char>)>, usize)>) -> bool {
    forall|i: int, j: int| 0 <= i < j < s.len() ==> !path_lt(#[trigger] s[j].0, #[trigger] s[i].0)
}

/// The listed paths whose components are `k`.
pub open spec fn key_is(k: Seq<(u8, Seq<char>)>) -> spec_fn((Seq<(u8, Seq<char>)>, usize)) -> bool {
    |x: (Seq<(u8, Seq<char>)>, usize)| x.0 == k
}

/// `out` holds the entries of `input` in path order, and the entries with
/// equal paths in the order in which `input` gives them.
pub open spec fn stably_sorted(
    out: Seq<(Seq<(u8, Seq<char>)>, usize)>,
    input: Seq<(Seq<(u8, Seq<char>)>, usize)>,
) -> bool {
    &&& sorted_by_path(out)
    &&& forall|k: Seq<(u8, Seq<char>)>| #[trigger] out.filter(key_is(k)) == input.filter(key_is(k))
}

/// Of two different paths, one comes before the other.
pub proof fn lemma_path_total(a: Seq<(u8, Seq<char>)>, b: Seq<(u8, Seq<char>)>)
    requires
        a != b,
    ensures
        path_lt(a, b) || path_lt(b, a),
    decreases a.len(),
{
    if a.len() == 0 {
        if b.len() == 0 {
            assert(a =~= b);
        }
    } else if b.len() > 0 {
        if a[0] != b[0] {
            if a[0].0 == b[0].0 {
                lemma_lex_total(a[0].1, b[0].1);
            }
        } else if a.drop_first() == b.drop_first() {
            assert(a.len() == b.len()) by {
                assert(a.drop_first().len() == b.drop_first().len());
            }
            assert(a =~= b) by {
                assert forall|i: int| 0 <= i < a.len() implies a[i] == b[i] by {
                    if i > 0 {
                        assert(a[i] == a.drop_first()[i - 1]);
                        assert(b[i] == b.drop_first()[i - 1]);
                    }
                }
            }
        } else {
            lemma_path_total(a.drop_first(), b.drop_first());
        }
    }
}

/// Inserting `x` at `p`, after the entries it does not precede and before the
/// first it precedes, keeps a sorted listing sorted and puts `x` after every
/// entry with the same path.
proof fn lemma_insert_in_order(s: Seq<(Seq<(u8, Seq<char>)>, usize)>, p: int, x: (Seq<(u8, Seq<char>)>, usize))
    requires
        sorted_by_path(s),
        0 <= p <= s.len(),
        forall|i: int| 0 <= i < p ==> !path_lt(x.0, #[trigger] s[i].0),
        p < s.len() ==> path_lt(x.0, s[p].0),
    ensures
        sorted_by_path(s.insert(p, x)),
        forall|k: Seq<(u8, Seq<char>)>| #[trigger] s.insert(p, x).filter(key_is(k)) == if x.0 == k {
            s.filter(key_is(k)).push(x)
        } else {
            s.filter(key_is(k))
        },
{
    let n = s.insert(p, x);
    assert forall|i: int, j: int| 0 <= i < j < n.len() implies !path_lt(#[trigger] n[j].0, #[trigger] n[i].0) by {
        if j < p {
            assert(n[i] == s[i] && n[j] == s[j]);
        } else if j == p {
            assert(n[i] == s[i]);
        } else if i < p {
            assert(n[i] == s[i] && n[j] == s[j - 1]);
            if path_lt(s[j - 1].0, s[i].0) {
                if j - 1 == p {
                    lemma_path_transitive(x.0, s[p].0, s[i].0);
                } else {
                    assert(!path_lt(s[j - 1].0, s[p].0));
                }
            }
        } else if i == p {
            assert(n[j] == s[j - 1]);
            if path_lt(s[j - 1].0, x.0) {
                lemma_path_transitive(s[j - 1].0, x.0, s[p].0);
                if j - 1 == p {
                    lemma_path_irreflexive(s[p].0);
                }
            }
        } else {
            assert(n[i] == s[i - 1] && n[j] == s[j - 1]);
        }
    }
    assert forall|j: int| p <= j < s.len() implies #[trigger] s[j].0 != x.0 by {
        if s[j].0 == x.0 {
            if j == p {
                lemma_path_irreflexive(x.0);
            } else {
                assert(!path_lt(s[j].0, s[p].0));
            }
        }
    }
    assert forall|k: Seq<(u8, Seq<char>)>| #[trigger] s.insert(p, x).filter(key_is(k)) == if x.0 == k {
        s.filter(key_is(k)).push(x)
    } else {
        s.filter(key_is(k))
    } by {
        let a = s.take(p);
        let b = s.skip(p);
        assert(s =~= a + b);
        assert(n =~= a.push(x) + b);
        Seq::filter_distributes_over_add(a, b, key_is(k));
        Seq::filter_distributes_over_add(a.push(x), b, key_is(k));
        a.lemma_filter_push(x, key_is(k));
        if x.0 == k {
            assert(b.all(|y: (Seq<(u8, Seq<char>)>, usize)| !key_is(k)(y))) by {
                assert forall|j: int| 0 <= j < b.len() implies !key_is(k)(b[j]) by {
                    assert(b[j] == s[p + j]);
                }
            }
            b.lemma_all_neg_filter_empty(key_is(k));
            assert(b.filter(key_is(k)) =~= Seq::empty());
            assert(a.filter(key_is(k)) + b.filter(key_is(k)) =~= a.filter(key_is(k)));
            assert(a.filter(key_is(k)).push(x) + b.filter(key_is(k)) =~= a.filter(key_is(k)).push(x));
        }
    }
}

/// Two sorted listings with the same entries for every path, in the same
/// order, are the same listing.
proof fn lemma_sorted_unique(a: Seq<(Seq<(u8, Seq<char>)>, usize)>, b: Seq<(Seq<(u8, Seq<char>)>, usize)>)
    requires
        sorted_by_path(a),
        sorted_by_path(b),
        forall|k: Seq<(u8, Seq<char>)>| #[trigger] a.filter(key_is(k)) == b.filter(key_is(k)),
    ensures
        a == b,
    decreases a.len() + b.len(),
{
    if a.len() == 0 && b.len() == 0 {
        assert(a =~= b);
    } else if a.len() == 0 || b.len() == 0 {
        let (s, t) = if a.len() == 0 { (b, a) } else { (a, b) };
        let x = s.last();
        assert(s =~= s.drop_last().push(x));
        s.drop_last().lemma_filter_push(x, key_is(x.0));
        assert(t.filter(key_is(x.0)) == s.filter(key_is(x.0)));
        assert(t.filter(key_is(x.0)).len() == 0) by {
            t.lemma_all_neg_filter_empty(key_is(x.0));
        }
    } else {
        let xa = a.last();
        let xb = b.last();
        let a1 = a.drop_last();
        let b1 = b.drop_last();
        assert(a =~= a1.push(xa));
        assert(b =~= b1.push(xb));
        if xa.0 != xb.0 {
            lemma_path_total(xa.0, xb.0);
            let (s, t, xs, xt) = if path_lt(xa.0, xb.0) { (a, b, xa, xb) } else { (b, a, xb, xa) };
            // `t` ends with a path that `s` must hold too, yet `s` ends with an earlier one
            assert(t =~= t.drop_last().push(xt));
            t.drop_last().lemma_filter_push(xt, key_is(xt.0));
            assert(key_is(xt.0)(xt));
            assert(t.filter(key_is(xt.0)) == t.drop_last().filter(key_is(xt.0)).push(xt));
            assert(s.filter(key_is(xt.0)) == t.filter(key_is(xt.0)));
            assert(s.filter(key_is(xt.0)).len() > 0);
            let e = s.filter(key_is(xt.0))[0];
            s.lemma_filter_pred(key_is(xt.0), 0);
            assert(s.filter(key_is(xt.0)).contains(e));
            s.lemma_filter_contains_rev(key_is(xt.0), e);
            let i = choose|i: int| 0 <= i < s.len() && s[i] == e;
            if i < s.len() - 1 {
                assert(!path_lt(s[s.len() - 1].0, s[i].0));
            }
            assert(false);
        }
        let k = xa.0;
        assert forall|k2: Seq<(u8, Seq<char>)>| #[trigger] a1.filter(key_is(k2)) == b1.filter(key_is(k2)) by {
            a1.lemma_filter_push(xa, key_is(k2));
            b1.lemma_filter_push(xb, key_is(k2));
            assert(a.filter(key_is(k2)) == b.filter(key_is(k2)));
            if k2 == k {
                assert(a1.filter(key_is(k2)) =~= a.filter(key_is(k2)).drop_last());
                assert(b1.filter(key_is(k2)) =~= b.filter(key_is(k2)).drop_last());
            }
        }
        a1.lemma_filter_push(xa, key_is(k));
        b1.lemma_filter_push(xb, key_is(k));
        assert(a.filter(key_is(k)) == b.filter(key_is(k)));
        assert(xa == a.filter(key_is(k)).last());
        assert(xb == b.filter(key_is(k)).last());
        lemma_sorted_unique(a1, b1);
    }
}

/// Inserting `x` at `p` keeps a sorted listing sorted where the entries
/// before `p` do not come after `x` and those from `p` on do not come before it.
proof fn lemma_insert_sorted(s: Seq<(Seq<(u8, Seq<char>)>, usize)>, p: int, x: (Seq<(u8, Seq<char>)>, usize))
    requires
        sorted_by_path(s),
        0 <= p <= s.len(),
        forall|i: int| 0 <= i < p ==> !path_lt(x.0, #[trigger] s[i].0),
        forall|i: int| p <= i < s.len() ==> !path_lt(#[trigger] s[i].0, x.0),
    ensures
        sorted_by_path(s.insert(p, x)),
{
    let n = s.insert(p, x);
    assert forall|i: int, j: int| 0 <= i < j < n.len() implies !path_lt(#[trigger] n[j].0, #[trigger] n[i].0) by {
        if j < p {
            assert(n[i] == s[i] && n[j] == s[j]);
        } else if j == p {
            assert(n[i] == s[i]);
        } else if i < p {
            assert(n[i] == s[i] && n[j] == s[j - 1]);
        } else if i == p {
            assert(n[j] == s[j - 1]);
        } else {
            assert(n[i] == s[i - 1] && n[j] == s[j - 1]);
        }
    }
}

/// Inserting `x` at `p` leaves the entries with other paths as they were,
/// and puts `x` between the entries with its path before `p` and those after.
proof fn lemma_insert_filter(s: Seq<(Seq<(u8, Seq<char>)>, usize)>, p: int, x: (Seq<(u8, Seq<char>)>, usize), k: Seq<(u8, Seq<char>)>)
    requires
        0 <= p <= s.len(),
    ensures
        s.filter(key_is(k)) == s.take(p).filter(key_is(k)) + s.skip(p).filter(key_is(k)),
        s.insert(p, x).filter(key_is(k)) == if x.0 == k {
            s.take(p).filter(key_is(k)).push(x) + s.skip(p).filter(key_is(k))
        } else {
            s.filter(key_is(k))
        },
{
    let a = s.take(p);
    let b = s.skip(p);
    assert(s =~= a + b);
    assert(s.insert(p, x) =~= a.push(x) + b);
    Seq::filter_distributes_over_add(a, b, key_is(k));
    Seq::filter_distributes_over_add(a.push(x), b, key_is(k));
    a.lemma_filter_push(x, key_is(k));
}

/// Where the `m`-th entry with path `key` (counting from none) leaves off in a
/// sorted listing: `m` entries with that path come before the place, the
/// entries before it do not come after `key`, and those from it on do not
/// come before `key`.
proof fn lemma_place_after(s: Seq<(Seq<(u8, Seq<char>)>, usize)>, key: Seq<(u8, Seq<char>)>, m: nat) -> (p: int)
    requires
        sorted_by_path(s),
        m <= s.filter(key_is(key)).len(),
    ensures
        0 <= p <= s.len(),
        s.take(p).filter(key_is(key)).len() == m,
        forall|i: int| 0 <= i < p ==> !path_lt(key, #[trigger] s[i].0),
        forall|i: int| p <= i < s.len() ==> !path_lt(#[trigger] s[i].0, key),
    decreases s.len(),
{
    if s.len() == 0 {
        assert(s.take(0) =~= s);
        0
    } else {
        let l = s.len() - 1;
        let s1 = s.drop_last();
        assert(s =~= s1.push(s[l]));
        s1.lemma_filter_push(s[l], key_is(key));
        assert(s.take(s.len() as int) =~= s);
        if s[l].0 == key && m == s.filter(key_is(key)).len() {
            assert forall|i: int| 0 <= i < s.len() implies !path_lt(key, #[trigger] s[i].0) by {
                if i == l {
                    lemma_path_irreflexive(key);
                }
            }
            s.len() as int
        } else {
            let q = lemma_place_after(s1, key, m);
            assert(s.take(q) =~= s1.take(q));
            assert forall|i: int| 0 <= i < q implies !path_lt(key, #[trigger] s[i].0) by {
                assert(s[i] == s1[i]);
            }
            assert forall|i: int| q <= i < l implies !path_lt(#[trigger] s[i].0, key) by {
                assert(s[i] == s1[i]);
            }
            if q < l {
                assert(s[q] == s1[q]);
                assert(!path_lt(s[q].0, key));
                assert(!path_lt(s[l].0, s[q].0));
                if path_lt(s[l].0, key) {
                    if s[l].0 == s[q].0 {
                    } else {
                        lemma_path_total(s[l].0, s[q].0);
                        lemma_path_transitive(s[q].0, s[l].0, key);
                    }
                }
                q
            } else if path_lt(s[l].0, key) {
                lemma_path_asymmetric(s[l].0, key);
                assert(s1.take(q) =~= s1);
                if s[l].0 == key {
                    lemma_path_irreflexive(key);
                }
                s.len() as int
            } else {
                q
            }
        }
    }
}

/// Adding one path anywhere in a listing adds it to the sorted listing at a
/// sorted place and moves nothing else: the paths before it do not come
/// after it, those after it do not come before it, and among the paths equal
/// to it, it comes after those that came before it in the listing.
pub proof fn lemma_sorted_insert(
    s: Seq<(Seq<(u8, Seq<char>)>, usize)>,
    q: int,
    x: (Seq<(u8, Seq<char>)>, usize),
    a: Seq<(Seq<(u8, Seq<char>)>, usize)>,
    b: Seq<(Seq<(u8, Seq<char>)>, usize)>,
)
    requires
        0 <= q <= s.len(),
        stably_sorted(a, s),
        stably_sorted(b, s.insert(q, x)),
    ensures
        exists|p: int|
            {
                &&& 0 <= p <= a.len()
                &&& b == a.insert(p, x)
                &&& forall|i: int| 0 <= i < p ==> !path_lt(x.0, #[trigger] a[i].0)
                &&& forall|i: int| p <= i < a.len() ==> !path_lt(#[trigger] a[i].0, x.0)
                &&& a.take(p).filter(key_is(x.0)) == s.take(q).filter(key_is(x.0))
            },
{
    let k = x.0;
    lemma_insert_filter(s, q, x, k);
    assert(a.filter(key_is(k)) == s.filter(key_is(k)));
    let m = s.take(q).filter(key_is(k)).len();
    let p = lemma_place_after(a, k, m);
    lemma_insert_sorted(a, p, x);
    lemma_insert_filter(a, p, x, k);
    let c = a.insert(p, x);
    let af = a.filter(key_is(k));
    let a1 = a.take(p).filter(key_is(k));
    let a2 = a.skip(p).filter(key_is(k));
    let s1 = s.take(q).filter(key_is(k));
    let s2 = s.skip(q).filter(key_is(k));
    assert(a1 =~= af.take(m as int));
    assert(s1 =~= af.take(m as int));
    assert(a2 =~= af.skip(m as int));
    assert(s2 =~= af.skip(m as int));
    assert forall|k2: Seq<(u8, Seq<char>)>| #[trigger] c.filter(key_is(k2)) == b.filter(key_is(k2)) by {
        lemma_insert_filter(a, p, x, k2);
        lemma_insert_filter(s, q, x, k2);
        assert(b.filter(key_is(k2)) == s.insert(q, x).filter(key_is(k2)));
        assert(a.filter(key_is(k2)) == s.filter(key_is(k2)));
    }
    lemma_sorted_unique(c, b);
    assert(a.take(p).filter(key_is(x.0)) == s.take(q).filter(key_is(x.0)));
}

fn component_less(a: &PathComponent, b: &PathComponent) -> (r: bool)
    ensures
        r == component_lt(a@, b@),
{
    if a.kind != b.kind {
        a.kind < b.kind
    } else {
        let an = chars_of(a.name.as_str());
        let bn = chars_of(b.name.as_str());
        chars_lt(&an, &bn)
    }
}

fn component_same(a: &PathComponent, b: &PathComponent) -> (r: bool)
    ensures
        r == (a@ == b@),
{
    if a.kind != b.kind {
        false
    } else {
        let an = chars_of(a.name.as_str());
        let bn = chars_of(b.name.as_str());
        chars_eq(&an, &bn)
    }
}

/// Whether path `a` comes strictly before path `b`.
pub fn path_less(a: &Vec<PathComponent>, b: &Vec<PathComponent>) -> (r: bool)
    ensures
        r == path_lt(a@.map_values(|c: PathComponent| c@), b@.map_values(|c: PathComponent| c@)),
{
    let ghost av = a@.map_values(|c: PathComponent| c@);
    let ghost bv = b@.map_values(|c: PathComponent| c@);
    let mut i: usize = 0;
    assert(av.skip(0) =~= av && bv.skip(0) =~= bv);
    while i < a.len() && i < b.len() && component_same(&a[i], &b[i])
        invariant
            i <= a.len(),
            i <= b.len(),
            av == a@.map_values(|c: PathComponent| c@),
            bv == b@.map_values(|c: PathComponent| c@),
            path_lt(av, bv) == path_lt(av.skip(i as int), bv.skip(i as int)),
        decreases a.len() - i,
    {
        assert(av.skip(i as int).drop_first() =~= av.skip(i + 1));
        assert(bv.skip(i as int).drop_first() =~= bv.skip(i + 1));
        i = i + 1;
    }
    if i == b.len() {
        false
    } else if i == a.len() {
        true
    } else {
        assert(av.skip(i as int)[0] == a@[i as int]@);
        assert(bv.skip(i as int)[0] == b@[i as int]@);
        component_less(&a[i], &b[i])
    }
}

/// The paths in the order of `Path`, each as often as given, and paths that
/// compare equal in the order given (what the stable `Vec<PathBuf>::sort`
/// gives).
pub fn sort_paths(paths: Vec<ListedPath>) -> (r: Vec<ListedPath>)
    ensures
        stably_sorted(listed_views(r@), listed_views(paths@)),
        listed_views(r@).to_multiset() == listed_views(paths@).to_multiset(),
{
    let ghost input = listed_views(paths@);
    let mut r: Vec<ListedPath> = Vec::new();
    let mut rest = paths;
    // take the paths from the front; each goes after the paths it does not precede
    let mut taken: usize = 0;
    let total = rest.len();
    assert(input.skip(0) =~= input);
    assert(input.take(0) =~= Seq::empty());
    while rest.len() > 0
        invariant
            taken + rest.len() == input.len(),
            input.len() == total,
            listed_views(rest@) == input.skip(taken as int),
            sorted_by_path(listed_views(r@)),
            listed_views(r@).to_multiset() == input.take(taken as int).to_multiset(),
            forall|k: Seq<(u8, Seq<char>)>| #[trigger] listed_views(r@).filter(key_is(k)) == input.take(taken as int).filter(key_is(k)),
        decreases rest.len(),
    {
        let ghost before_rest = rest@;
        let item = rest.remove(0);
        let ghost iv = item@;
        let ghost before = input.take(taken as int);
        proof {
            assert(iv == listed_views(before_rest)[0]);
            assert(iv == input[taken as int]);
            assert(listed_views(rest@) =~= input.skip(taken + 1));
            assert(input.take(taken + 1) =~= before.push(iv));
        }
        taken = taken + 1;
        let ghost rv = listed_views(r@);
        let mut p: usize = 0;
        while p < r.len() && !path_less(&item.components, &r[p].components)
            invariant
                p <= r.len(),
                rv == listed_views(r@),
                iv == item@,
                forall|k: int| 0 <= k < p ==> !path_lt(iv.0, #[trigger] rv[k].0),
            decreases r.len() - p,
        {
            p = p + 1;
        }
        r.insert(p, item);
        proof {
            assert(listed_views(r@) =~= rv.insert(p as int, iv));
            lemma_insert_in_order(rv, p as int, iv);
            assert forall|k: Seq<(u8, Seq<char>)>| #[trigger] listed_views(r@).filter(key_is(k)) == input.take(taken as int).filter(key_is(k)) by {
                before.lemma_filter_push(iv, key_is(k));
                assert(rv.filter(key_is(k)) == before.filter(key_is(k)));
            }
        }
    }
    assert(input.take(taken as int) =~= input);
    r
}

} // verus!
