//! `drift`: which resources the API offers but no resource spec defines,
//! which resource specs name resources the API does not offer, and which
//! resource specs no longer agree with the endpoints the API offers for them.

use vstd::prelude::*;
use openapi_forge::Spec;
use crate::crud::{
    creates_and_deletes, defined_views, group_views, has_create_and_delete, CrudGroup, CrudGroupView,
    DefinedResource, DefinedResourceView, Endpoint, EndpointView, ResourceCrud, ResourceCrudView,
};
use crate::listing::{common_count, distinct_count, lemma_sorted_no_duplicates, lists, sorted_difference, sorted_names, views};
use crate::openapi::{crud_groups, crud_groups_of};
use crate::text::{strip_or_keep, strip_prefix_or_keep, underscore_dashes, underscored};

verus! {

broadcast use vstd::seq_lib::group_seq_properties;

/// The groups that stand for resources: those with create and delete endpoints.
pub open spec fn resource_group() -> spec_fn(CrudGroupView) -> bool {
    |g: CrudGroupView| has_create_and_delete(g)
}

/// The resource name stem of a group: its base name with dashes as underscores.
pub open spec fn group_stem() -> spec_fn(CrudGroupView) -> Seq<char> {
    |g: CrudGroupView| underscored(g.base_name)
}

/// The name stems of the resources that the groups offer, in group order.
pub open spec fn offered_stems(gs: Seq<CrudGroupView>) -> Seq<Seq<char>> {
    gs.filter(resource_group()).map_values(group_stem())
}

/// The name stem of a defined resource: its name without the `akeyless_` prefix.
pub open spec fn defined_stem(name: Seq<char>) -> Seq<char> {
    strip_prefix_or_keep(name, "akeyless_"@)
}

/// The name stems of the defined resources, in the given order.
pub open spec fn defined_stems(names: Seq<Seq<char>>) -> Seq<Seq<char>> {
    names.map_values(|n: Seq<char>| defined_stem(n))
}

/// The name stems of the resources that `groups` offer.
pub fn offered_resource_stems(groups: &Vec<CrudGroup>) -> (r: Vec<String>)
    ensures
        views(r@) == offered_stems(group_views(groups@)),
{
    let ghost gv = group_views(groups@);
    let mut r: Vec<String> = Vec::new();
    let mut i: usize = 0;
    assert(gv.take(0).filter(resource_group()) =~= Seq::<CrudGroupView>::empty());
    assert(views(r@) =~= offered_stems(gv.take(0)));
    while i < groups.len()
        invariant
            i <= groups.len(),
            gv == group_views(groups@),
            views(r@) == offered_stems(gv.take(i as int)),
        decreases groups.len() - i,
    {
        let g = &groups[i];
        let ghost before = r@;
        proof {
            assert(gv.take(i + 1) =~= gv.take(i as int).push(gv[i as int]));
            gv.take(i as int).lemma_filter_push(gv[i as int], resource_group());
        }
        if creates_and_deletes(g) {
            let stem = underscore_dashes(g.base_name.as_str());
            r.push(stem);
            proof {
                let f = gv.take(i as int).filter(resource_group());
                assert(f.push(gv[i as int]).map_values(group_stem()) =~= f.map_values(group_stem()).push(
                    underscored(g.base_name@),
                ));
                assert(views(r@) =~= views(before).push(underscored(g.base_name@)));
            }
        }
        i = i + 1;
    }
    assert(gv.take(groups.len() as int) =~= gv);
    r
}

/// The names of the defined resources, in the given order.
pub open spec fn resource_names(rs: Seq<DefinedResourceView>) -> Seq<Seq<char>> {
    rs.map_values(|r: DefinedResourceView| r.name)
}

/// The name stems of the defined resources.
pub fn defined_resource_stems(defined: &Vec<DefinedResource>) -> (r: Vec<String>)
    ensures
        views(r@) == defined_stems(resource_names(defined_views(defined@))),
{
    let ghost names = resource_names(defined_views(defined@));
    let mut r: Vec<String> = Vec::new();
    let mut i: usize = 0;
    while i < defined.len()
        invariant
            i <= defined.len(),
            names == resource_names(defined_views(defined@)),
            views(r@) == defined_stems(names).take(i as int),
        decreases defined.len() - i,
    {
        let stem = strip_or_keep(defined[i].name.as_str(), "akeyless_");
        let ghost before = r@;
        r.push(stem);
        proof {
            assert(views(r@) =~= views(before).push(defined_stem(names[i as int])));
            assert(views(r@) =~= defined_stems(names).take(i + 1));
        }
        i = i + 1;
    }
    assert(defined_stems(names).take(defined.len() as int) =~= defined_stems(names));
    r
}

/// A defined operation agrees with the API's endpoint: same path, and the same
/// request schema where the API names one.
pub open spec fn endpoint_agrees(endpoint: Seq<char>, schema: Seq<char>, e: EndpointView) -> bool {
    endpoint == e.path && (e.request_schema_ref matches Some(s) ==> schema == s)
}

/// A CRUD section agrees with a group: for every operation the group has, the
/// section names the same endpoint, and the same request schema where the
/// group's endpoint has one.
pub open spec fn crud_agrees(c: ResourceCrudView, g: CrudGroupView) -> bool {
    &&& (g.create matches Some(e) ==> endpoint_agrees(c.create_endpoint, c.create_schema, e))
    &&& (g.read matches Some(e) ==> endpoint_agrees(c.read_endpoint, c.read_schema, e))
    &&& (g.delete matches Some(e) ==> endpoint_agrees(c.delete_endpoint, c.delete_schema, e))
    &&& (g.update matches Some(e) ==> {
        &&& c.update_endpoint == Some(e.path)
        &&& (e.request_schema_ref matches Some(s) ==> c.update_schema == Some(s))
    })
}

/// A group offers the resource with this name stem.
pub open spec fn offers(g: CrudGroupView, stem: Seq<char>) -> bool {
    has_create_and_delete(g) && underscored(g.base_name) == stem
}

/// A defined resource has changed: the API offers its resource, but no group
/// that offers it agrees with its CRUD section.
pub open spec fn is_changed(r: DefinedResourceView, gs: Seq<CrudGroupView>) -> bool {
    &&& exists|k: int| 0 <= k < gs.len() && #[trigger] offers(gs[k], defined_stem(r.name))
    &&& forall|k: int|
        0 <= k < gs.len() && #[trigger] offers(gs[k], defined_stem(r.name)) ==> !crud_agrees(
            r.crud,
            gs[k],
        )
}

/// The defined resources that have changed.
pub open spec fn changed_resource(gs: Seq<CrudGroupView>) -> spec_fn(DefinedResourceView) -> bool {
    |r: DefinedResourceView| is_changed(r, gs)
}

/// The name stem of a defined resource.
pub open spec fn resource_stem() -> spec_fn(DefinedResourceView) -> Seq<char> {
    |r: DefinedResourceView| defined_stem(r.name)
}

/// The name stems of the defined resources that have changed, in the given order.
pub open spec fn changed_stems(gs: Seq<CrudGroupView>, rs: Seq<DefinedResourceView>) -> Seq<Seq<char>> {
    rs.filter(changed_resource(gs)).map_values(resource_stem())
}

fn strings_equal(a: &String, b: &String) -> (r: bool)
    ensures
        r == (a@ == b@),
{
    *a == *b
}

fn endpoint_matches(endpoint: &String, schema: &String, e: &Endpoint) -> (r: bool)
    ensures
        r == endpoint_agrees(endpoint@, schema@, e@),
{
    strings_equal(endpoint, &e.path) && match &e.request_schema_ref {
        Some(s) => strings_equal(schema, s),
        None => true,
    }
}

/// Whether a CRUD section agrees with a group.
pub fn crud_matches(c: &ResourceCrud, g: &CrudGroup) -> (r: bool)
    ensures
        r == crud_agrees(c@, g@),
{
    let create_ok = match &g.create {
        Some(e) => endpoint_matches(&c.create_endpoint, &c.create_schema, e),
        None => true,
    };
    let read_ok = match &g.read {
        Some(e) => endpoint_matches(&c.read_endpoint, &c.read_schema, e),
        None => true,
    };
    let delete_ok = match &g.delete {
        Some(e) => endpoint_matches(&c.delete_endpoint, &c.delete_schema, e),
        None => true,
    };
    let update_ok = match &g.update {
        Some(e) => {
            let endpoint_ok = match &c.update_endpoint {
                Some(u) => strings_equal(u, &e.path),
                None => false,
            };
            let schema_ok = match &e.request_schema_ref {
                Some(s) => match &c.update_schema {
                    Some(u) => strings_equal(u, s),
                    None => false,
                },
                None => true,
            };
            endpoint_ok && schema_ok
        },
        None => true,
    };
    create_ok && read_ok && delete_ok && update_ok
}

/// Whether the defined resource `r`, with name stem `stem`, has changed.
fn has_changed(r: &DefinedResource, stem: &String, groups: &Vec<CrudGroup>) -> (b: bool)
    requires
        stem@ == defined_stem(r.name@),
    ensures
        b == is_changed(r@, group_views(groups@)),
{
    let ghost gv = group_views(groups@);
    let mut offered = false;
    let mut agreed = false;
    let mut k: usize = 0;
    while k < groups.len()
        invariant
            k <= groups.len(),
            gv == group_views(groups@),
            stem@ == defined_stem(r.name@),
            offered == exists|x: int| 0 <= x < k && #[trigger] offers(gv[x], stem@),
            agreed == exists|x: int| 0 <= x < k && #[trigger] offers(gv[x], stem@) && crud_agrees(r.crud@, gv[x]),
        decreases groups.len() - k,
    {
        let g = &groups[k];
        if creates_and_deletes(g) {
            let gs = underscore_dashes(g.base_name.as_str());
            if strings_equal(&gs, stem) {
                offered = true;
                if crud_matches(&r.crud, g) {
                    agreed = true;
                }
            }
        }
        proof {
            assert(offers(gv[k as int], stem@) == (has_create_and_delete(g@) && underscored(g.base_name@) == stem@));
        }
        k = k + 1;
    }
    proof {
        let rv = r@;
        assert(defined_stem(rv.name) == stem@);
        assert(gv.len() == groups.len());
        if offered && !agreed {
            assert forall|x: int| 0 <= x < gv.len() && #[trigger] offers(gv[x], defined_stem(rv.name)) implies !crud_agrees(
                rv.crud,
                gv[x],
            ) by {
                assert(offers(gv[x], stem@));
            }
        }
        if !offered {
            assert forall|x: int| 0 <= x < gv.len() implies !#[trigger] offers(gv[x], defined_stem(rv.name)) by {
                assert(!offers(gv[x], stem@));
            }
        }
        if agreed {
            let x = choose|x: int| 0 <= x < k && #[trigger] offers(gv[x], stem@) && crud_agrees(r.crud@, gv[x]);
            assert(offers(gv[x], defined_stem(rv.name)));
        }
    }
    offered && !agreed
}

/// The name stems of the defined resources that have changed.
pub fn changed_resource_stems(groups: &Vec<CrudGroup>, defined: &Vec<DefinedResource>) -> (r: Vec<String>)
    ensures
        views(r@) == changed_stems(group_views(groups@), defined_views(defined@)),
{
    let ghost gv = group_views(groups@);
    let ghost dv = defined_views(defined@);
    let mut r: Vec<String> = Vec::new();
    let mut i: usize = 0;
    assert(dv.take(0).filter(changed_resource(gv)) =~= Seq::<DefinedResourceView>::empty());
    assert(views(r@) =~= changed_stems(gv, dv.take(0)));
    while i < defined.len()
        invariant
            i <= defined.len(),
            gv == group_views(groups@),
            dv == defined_views(defined@),
            views(r@) == changed_stems(gv, dv.take(i as int)),
        decreases defined.len() - i,
    {
        let d = &defined[i];
        let ghost before = r@;
        proof {
            assert(dv.take(i + 1) =~= dv.take(i as int).push(dv[i as int]));
            dv.take(i as int).lemma_filter_push(dv[i as int], changed_resource(gv));
        }
        let stem = strip_or_keep(d.name.as_str(), "akeyless_");
        if has_changed(d, &stem, groups) {
            r.push(stem);
            proof {
                let f = dv.take(i as int).filter(changed_resource(gv));
                assert(f.push(dv[i as int]).map_values(resource_stem()) =~= f.map_values(resource_stem()).push(
                    defined_stem(d.name@),
                ));
                assert(views(r@) =~= views(before).push(defined_stem(d.name@)));
            }
        }
        i = i + 1;
    }
    assert(dv.take(defined.len() as int) =~= dv);
    r
}

/// How the defined resources compare with those the API offers.
pub struct DriftReport {
    /// Offered resources that no spec defines, sorted.
    pub missing: Vec<String>,
    /// Defined resources that the API does not offer, sorted.
    pub extra: Vec<String>,
    /// Defined resources whose CRUD section no group offering them agrees with, sorted.
    pub changed: Vec<String>,
    /// How many offered resources are defined.
    pub covered: usize,
    /// How many distinct resources the API offers.
    pub offered: usize,
}

/// `d` compares the defined name stems with the offered ones, and lists the
/// changed ones.
pub open spec fn reports_drift(
    d: DriftReport,
    offered: Set<Seq<char>>,
    defined: Set<Seq<char>>,
    changed: Set<Seq<char>>,
) -> bool {
    &&& lists(views(d.missing@), offered.difference(defined))
    &&& lists(views(d.extra@), defined.difference(offered))
    &&& lists(views(d.changed@), changed)
    &&& d.covered == defined.intersect(offered).len()
    &&& d.offered == offered.len()
}

/// Compares the resources that `groups` offer with the `defined` ones.
pub fn drift(groups: &Vec<CrudGroup>, defined: &Vec<DefinedResource>) -> (d: DriftReport)
    ensures
        reports_drift(
            d,
            offered_stems(group_views(groups@)).to_set(),
            defined_stems(resource_names(defined_views(defined@))).to_set(),
            changed_stems(group_views(groups@), defined_views(defined@)).to_set(),
        ),
{
    let offered = offered_resource_stems(groups);
    let changed = changed_resource_stems(groups, defined);
    let defined = defined_resource_stems(defined);
    DriftReport {
        missing: sorted_difference(&offered, &defined),
        extra: sorted_difference(&defined, &offered),
        changed: sorted_names(&changed),
        covered: common_count(&defined, &offered),
        offered: distinct_count(&offered),
    }
}

/// Compares the resources that a loaded spec offers with the `defined` ones.
pub fn drift_for_spec(api: &Spec, defined: &Vec<DefinedResource>) -> (d: DriftReport)
    ensures
        reports_drift(
            d,
            offered_stems(crud_groups_of(*api)).to_set(),
            defined_stems(resource_names(defined_views(defined@))).to_set(),
            changed_stems(crud_groups_of(*api), defined_views(defined@)).to_set(),
        ),
{
    let groups = crud_groups(api);
    drift(&groups, defined)
}

/// Every offered resource is either covered or missing, and every defined
/// resource is either covered or extra.
pub proof fn lemma_drift_accounts_for_all(
    d: DriftReport,
    offered: Set<Seq<char>>,
    defined: Set<Seq<char>>,
    changed: Set<Seq<char>>,
)
    requires
        reports_drift(d, offered, defined, changed),
        offered.finite(),
        defined.finite(),
    ensures
        d.covered + d.missing@.len() == d.offered,
        d.covered + d.extra@.len() == defined.len(),
{
    lemma_sorted_no_duplicates(views(d.missing@));
    views(d.missing@).unique_seq_to_set();
    lemma_sorted_no_duplicates(views(d.extra@));
    views(d.extra@).unique_seq_to_set();
    vstd::set_lib::lemma_set_difference_len(offered, defined);
    vstd::set_lib::lemma_set_difference_len(defined, offered);
    assert(offered.intersect(defined) =~= defined.intersect(offered));
}

/// The section names, for one of the operations the group has, another
/// endpoint than the group's, or another request schema than the one the
/// group's endpoint names.
pub open spec fn departs_from(c: ResourceCrudView, g: CrudGroupView) -> bool {
    ||| g.create is Some && c.create_endpoint != g.create->Some_0.path
    ||| g.read is Some && c.read_endpoint != g.read->Some_0.path
    ||| g.delete is Some && c.delete_endpoint != g.delete->Some_0.path
    ||| g.update is Some && c.update_endpoint != Some(g.update->Some_0.path)
    ||| g.create is Some && g.create->Some_0.request_schema_ref is Some && c.create_schema
        != g.create->Some_0.request_schema_ref->Some_0
    ||| g.read is Some && g.read->Some_0.request_schema_ref is Some && c.read_schema
        != g.read->Some_0.request_schema_ref->Some_0
    ||| g.delete is Some && g.delete->Some_0.request_schema_ref is Some && c.delete_schema
        != g.delete->Some_0.request_schema_ref->Some_0
    ||| g.update is Some && g.update->Some_0.request_schema_ref is Some && c.update_schema != Some(
        g.update->Some_0.request_schema_ref->Some_0,
    )
}

/// A section agrees with a group exactly when it departs from it in no
/// operation: same create, read, delete and update endpoints as the group
/// has, and the same request schemas wherever the group's endpoints name one.
pub proof fn lemma_agreement_is_no_departure(c: ResourceCrudView, g: CrudGroupView)
    ensures
        crud_agrees(c, g) <==> !departs_from(c, g),
{
}

/// A defined resource that the API offers, but that departs in some endpoint
/// or schema from every group offering it (a moved read endpoint, say), is
/// listed among the changed ones.
pub proof fn lemma_departure_is_changed(gs: Seq<CrudGroupView>, rs: Seq<DefinedResourceView>, i: int)
    requires
        0 <= i < rs.len(),
        exists|k: int| 0 <= k < gs.len() && #[trigger] offers(gs[k], defined_stem(rs[i].name)),
        forall|k: int|
            0 <= k < gs.len() && #[trigger] offers(gs[k], defined_stem(rs[i].name)) ==> departs_from(rs[i].crud, gs[k]),
    ensures
        changed_stems(gs, rs).contains(defined_stem(rs[i].name)),
{
    let r = rs[i];
    assert forall|k: int| 0 <= k < gs.len() && #[trigger] offers(gs[k], defined_stem(r.name)) implies !crud_agrees(
        r.crud,
        gs[k],
    ) by {
        lemma_agreement_is_no_departure(r.crud, gs[k]);
    }
    assert(is_changed(r, gs));
    assert(changed_resource(gs)(r));
    rs.lemma_filter_contains(changed_resource(gs), i);
    let f = rs.filter(changed_resource(gs));
    let j = choose|j: int| 0 <= j < f.len() && f[j] == r;
    assert(changed_stems(gs, rs)[j] == defined_stem(r.name));
}

/// A defined resource that some group offering it does not depart from is
/// not changed.
pub proof fn lemma_agreeing_resource_unchanged(gs: Seq<CrudGroupView>, r: DefinedResourceView, k: int)
    requires
        0 <= k < gs.len(),
        offers(gs[k], defined_stem(r.name)),
        !departs_from(r.crud, gs[k]),
    ensures
        !is_changed(r, gs),
{
    lemma_agreement_is_no_departure(r.crud, gs[k]);
}

} // verus!
