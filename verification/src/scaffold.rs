//! `scaffold`: resource spec files drafted from the CRUD groups of an API.

use vstd::prelude::*;
use vstd::string::*;
use openapi_forge::Spec;
use crate::crud::{creates_and_deletes, group_views, has_create_and_delete, CrudGroup, CrudGroupView, DefinedResourceView, Endpoint, EndpointView, ResourceCrud, ResourceCrudView};
use crate::drift::{
    changed_resource, changed_stems, crud_agrees, defined_stem, defined_stems, is_changed,
    lemma_drift_accounts_for_all, offered_stems, offers, reports_drift, resource_group,
    resource_names, DriftReport,
};
use crate::listing::views;
use crate::openapi::{crud_groups, crud_groups_of};
use crate::text::{glob_match, glob_matches, join_text, underscore_dashes, underscored};

verus! {

broadcast use vstd::seq_lib::group_seq_properties;

/// Whether a group's base name matches the pattern given on the command line:
/// the whole name must match it as a glob, `*` standing for any run of characters.
pub open spec fn pattern_admits(pattern: Option<Seq<char>>, base_name: Seq<char>) -> bool {
    match pattern {
        Some(p) => glob_matches(p, base_name),
        None => true,
    }
}

/// The groups that the pattern admits.
pub open spec fn admitted_by(pattern: Option<Seq<char>>) -> spec_fn(CrudGroupView) -> bool {
    |g: CrudGroupView| pattern_admits(pattern, g.base_name)
}

/// The resource name given to a group: `akeyless_` and its name stem.
pub open spec fn resource_name_of(g: CrudGroupView) -> Seq<char> {
    "akeyless_"@ + underscored(g.base_name)
}

/// The file a group's spec is written to: its name stem and `.toml`.
pub open spec fn file_name_of(g: CrudGroupView) -> Seq<char> {
    underscored(g.base_name) + ".toml"@
}

/// The request schema of an endpoint, or `TODO` where it has none.
pub open spec fn schema_or_todo(e: EndpointView) -> Seq<char> {
    match e.request_schema_ref {
        Some(s) => s,
        None => "TODO"@,
    }
}

/// The two lines that give an operation's endpoint and request schema.
pub open spec fn field_lines(
    endpoint_key: Seq<char>,
    schema_key: Seq<char>,
    endpoint: Seq<char>,
    schema: Seq<char>,
) -> Seq<char> {
    endpoint_key + endpoint + "\"\n"@ + schema_key + schema + "\"\n"@
}

/// The `[resource]` section and the `[crud]` header.
pub open spec fn resource_head(name: Seq<char>) -> Seq<char> {
    "[resource]\nname = \""@ + name + "\"\ndescription = \"\"\ncategory = \"\"\n\n[crud]\n"@
}

/// The update lines, where the CRUD section has an update endpoint and schema.
pub open spec fn update_lines(c: ResourceCrudView) -> Seq<char> {
    match (c.update_endpoint, c.update_schema) {
        (Some(e), Some(s)) => field_lines("update_endpoint = \""@, "update_schema = \""@, e, s),
        _ => Seq::<char>::empty(),
    }
}

/// The fixed text after the CRUD section.
pub open spec fn identity_and_fields() -> Seq<char> {
    "\n[identity]\nid_field = \"name\"\nforce_new_fields = [\"name\"]\n\n[fields]\ntoken = { skip = true }\nuid_token = { skip = true }\njson = { skip = true }\n"@
}

/// The text of a resource spec with this name and CRUD section.
pub open spec fn toml_text(name: Seq<char>, c: ResourceCrudView) -> Seq<char> {
    resource_head(name)
        + field_lines("create_endpoint = \""@, "create_schema = \""@, c.create_endpoint, c.create_schema)
        + update_lines(c)
        + field_lines("read_endpoint = \""@, "read_schema = \""@, c.read_endpoint, c.read_schema)
        + field_lines("delete_endpoint = \""@, "delete_schema = \""@, c.delete_endpoint, c.delete_schema)
        + identity_and_fields()
}

/// The CRUD section drafted for a group with create and delete endpoints: its
/// endpoints and their request schemas, `TODO` where the API gives none, and
/// no update lines where it has no update endpoint.
pub open spec fn drafted_crud(g: CrudGroupView) -> ResourceCrudView {
    ResourceCrudView {
        create_endpoint: g.create.unwrap().path,
        create_schema: schema_or_todo(g.create.unwrap()),
        update_endpoint: match g.update {
            Some(u) => Some(u.path),
            None => None,
        },
        update_schema: match g.update {
            Some(u) => Some(schema_or_todo(u)),
            None => None,
        },
        read_endpoint: match g.read {
            Some(r) => r.path,
            None => "TODO"@,
        },
        read_schema: match g.read {
            Some(r) => schema_or_todo(r),
            None => "TODO"@,
        },
        delete_endpoint: g.delete.unwrap().path,
        delete_schema: schema_or_todo(g.delete.unwrap()),
    }
}

/// The text of the resource spec drafted for a group with create and delete endpoints.
pub open spec fn resource_toml(g: CrudGroupView) -> Seq<char> {
    toml_text(resource_name_of(g), drafted_crud(g))
}

/// A drafted resource spec: where it goes, the resource it names, its text.
pub struct ScaffoldFile {
    pub file_name: String,
    pub resource_name: String,
    pub contents: String,
}

/// The mathematical value of a [`ScaffoldFile`].
pub struct ScaffoldFileView {
    pub file_name: Seq<char>,
    pub resource_name: Seq<char>,
    pub contents: Seq<char>,
}

impl View for ScaffoldFile {
    type V = ScaffoldFileView;

    open spec fn view(&self) -> ScaffoldFileView {
        ScaffoldFileView {
            file_name: self.file_name@,
            resource_name: self.resource_name@,
            contents: self.contents@,
        }
    }
}

/// The file drafted for a group.
pub open spec fn drafted() -> spec_fn(CrudGroupView) -> ScaffoldFileView {
    |g: CrudGroupView| ScaffoldFileView {
        file_name: file_name_of(g),
        resource_name: resource_name_of(g),
        contents: resource_toml(g),
    }
}

/// The files drafted for the groups that can be created and deleted and that
/// the pattern admits, in group order.
pub open spec fn drafts(gs: Seq<CrudGroupView>, pattern: Option<Seq<char>>) -> Seq<ScaffoldFileView> {
    gs.filter(resource_group()).filter(admitted_by(pattern)).map_values(drafted())
}

/// The views of a list of drafted files.
pub open spec fn file_views(fs: Seq<ScaffoldFile>) -> Seq<ScaffoldFileView> {
    fs.map_values(|f: ScaffoldFile| f@)
}

/// The view of an optional pattern.
pub open spec fn pattern_view(p: Option<&str>) -> Option<Seq<char>> {
    match p {
        Some(s) => Some(s@),
        None => None,
    }
}

fn append_field_lines(out: &mut String, endpoint_key: &str, schema_key: &str, endpoint: &str, schema: &str)
    ensures
        final(out)@ == old(out)@ + field_lines(endpoint_key@, schema_key@, endpoint@, schema@),
{
    out.append(endpoint_key);
    out.append(endpoint);
    out.append("\"\n");
    out.append(schema_key);
    out.append(schema);
    out.append("\"\n");
    assert(final(out)@ =~= old(out)@ + field_lines(endpoint_key@, schema_key@, endpoint@, schema@));
}

/// The text of a resource spec with this name and CRUD section.
pub fn render_resource_spec(name: &str, c: &ResourceCrud) -> (t: String)
    ensures
        t@ == toml_text(name@, c@),
{
    let mut out = String::new();
    out.append("[resource]\nname = \"");
    out.append(name);
    out.append("\"\ndescription = \"\"\ncategory = \"\"\n\n[crud]\n");
    append_field_lines(&mut out, "create_endpoint = \"", "create_schema = \"", c.create_endpoint.as_str(), c.create_schema.as_str());
    match (&c.update_endpoint, &c.update_schema) {
        (Some(e), Some(s)) => append_field_lines(&mut out, "update_endpoint = \"", "update_schema = \"", e.as_str(), s.as_str()),
        _ => {},
    }
    append_field_lines(&mut out, "read_endpoint = \"", "read_schema = \"", c.read_endpoint.as_str(), c.read_schema.as_str());
    append_field_lines(&mut out, "delete_endpoint = \"", "delete_schema = \"", c.delete_endpoint.as_str(), c.delete_schema.as_str());
    out.append("\n[identity]\nid_field = \"name\"\nforce_new_fields = [\"name\"]\n\n[fields]\ntoken = { skip = true }\nuid_token = { skip = true }\njson = { skip = true }\n");
    assert(out@ =~= toml_text(name@, c@));
    out
}

fn todo() -> (t: String)
    ensures
        t@ == "TODO"@,
{
    let mut t = String::new();
    t.append("TODO");
    t
}

fn schema_or_todo_of(e: &Endpoint) -> (t: String)
    ensures
        t@ == schema_or_todo(e@),
{
    match &e.request_schema_ref {
        Some(s) => s.clone(),
        None => todo(),
    }
}

/// The CRUD section drafted for `g`.
pub fn drafted_crud_of(g: &CrudGroup) -> (c: ResourceCrud)
    requires
        has_create_and_delete(g@),
    ensures
        c@ == drafted_crud(g@),
{
    let create = g.create.as_ref().unwrap();
    let delete = g.delete.as_ref().unwrap();
    let (update_endpoint, update_schema) = match &g.update {
        Some(u) => (Some(u.path.clone()), Some(schema_or_todo_of(u))),
        None => (None, None),
    };
    let (read_endpoint, read_schema) = match &g.read {
        Some(r) => (r.path.clone(), schema_or_todo_of(r)),
        None => (todo(), todo()),
    };
    ResourceCrud {
        create_endpoint: create.path.clone(),
        create_schema: schema_or_todo_of(create),
        update_endpoint,
        update_schema,
        read_endpoint,
        read_schema,
        delete_endpoint: delete.path.clone(),
        delete_schema: schema_or_todo_of(delete),
    }
}

/// The text of the resource spec drafted for `g`.
pub fn resource_toml_text(g: &CrudGroup) -> (r: String)
    requires
        has_create_and_delete(g@),
    ensures
        r@ == resource_toml(g@),
{
    let stem = underscore_dashes(g.base_name.as_str());
    let name = join_text("akeyless_", stem.as_str());
    let c = drafted_crud_of(g);
    render_resource_spec(name.as_str(), &c)
}

/// The file drafted for `g`.
pub fn draft(g: &CrudGroup) -> (f: ScaffoldFile)
    requires
        has_create_and_delete(g@),
    ensures
        f@ == drafted()(g@),
{
    let stem = underscore_dashes(g.base_name.as_str());
    ScaffoldFile {
        file_name: join_text(stem.as_str(), ".toml"),
        resource_name: join_text("akeyless_", stem.as_str()),
        contents: resource_toml_text(g),
    }
}

/// The files drafted for `groups` under an optional name pattern: one for each
/// group that has create and delete endpoints and whose whole base name
/// matches the pattern (`*` for any run of characters).
pub fn plan_scaffold(groups: &Vec<CrudGroup>, pattern: Option<&str>) -> (r: Vec<ScaffoldFile>)
    ensures
        file_views(r@) == drafts(group_views(groups@), pattern_view(pattern)),
{
    let ghost gv = group_views(groups@);
    let ghost pv = pattern_view(pattern);
    let mut r: Vec<ScaffoldFile> = Vec::new();
    let mut i: usize = 0;
    assert(file_views(r@) =~= drafts(gv.take(0), pv));
    while i < groups.len()
        invariant
            i <= groups.len(),
            gv == group_views(groups@),
            pv == pattern_view(pattern),
            file_views(r@) == drafts(gv.take(i as int), pv),
        decreases groups.len() - i,
    {
        let g = &groups[i];
        let admitted = match pattern {
            Some(p) => glob_match(p, g.base_name.as_str()),
            None => true,
        };
        let ghost before = r@;
        proof {
            let gi = gv[i as int];
            assert(gv.take(i + 1) =~= gv.take(i as int).push(gi));
            gv.take(i as int).lemma_filter_push(gi, resource_group());
            let f1 = gv.take(i as int).filter(resource_group());
            f1.lemma_filter_push(gi, admitted_by(pv));
            assert(admitted == pattern_admits(pv, gi.base_name));
        }
        if admitted && creates_and_deletes(g) {
            let f = draft(g);
            r.push(f);
            proof {
                let f2 = gv.take(i as int).filter(resource_group()).filter(admitted_by(pv));
                assert(f2.push(gv[i as int]).map_values(drafted()) =~= f2.map_values(drafted()).push(
                    drafted()(gv[i as int]),
                ));
                assert(file_views(r@) =~= file_views(before).push(drafted()(gv[i as int])));
            }
        }
        i = i + 1;
    }
    assert(gv.take(groups.len() as int) =~= gv);
    r
}

/// What `scaffold` drafts from a loaded spec.
pub struct ScaffoldPlan {
    /// How many CRUD groups the spec has.
    pub group_count: usize,
    /// The files to write.
    pub files: Vec<ScaffoldFile>,
}

/// The files drafted from the CRUD groups of a loaded spec.
pub fn scaffold_spec(api: &Spec, pattern: Option<&str>) -> (p: ScaffoldPlan)
    ensures
        p.group_count == crud_groups_of(*api).len(),
        file_views(p.files@) == drafts(crud_groups_of(*api), pattern_view(pattern)),
{
    let groups = crud_groups(api);
    let files = plan_scaffold(&groups, pattern);
    ScaffoldPlan { group_count: groups.len(), files }
}


/// The resource names that drafted files give.
pub open spec fn drafted_names(fs: Seq<ScaffoldFileView>) -> Seq<Seq<char>> {
    fs.map_values(|f: ScaffoldFileView| f.resource_name)
}

/// Filtering by a predicate that holds everywhere keeps everything.
proof fn lemma_filter_everything(s: Seq<CrudGroupView>, p: spec_fn(CrudGroupView) -> bool)
    requires
        forall|g: CrudGroupView| #[trigger] p(g),
    ensures
        s.filter(p) == s,
    decreases s.len(),
{
    if s.len() > 0 {
        let init = s.drop_last();
        lemma_filter_everything(init, p);
        init.lemma_filter_push(s.last(), p);
        assert(init.push(s.last()) =~= s);
    }
}

/// The resource a drafted file names is read back, with its `akeyless_`
/// prefix removed, as the group's name stem.
pub proof fn lemma_drafted_name_read_back(g: CrudGroupView)
    ensures
        defined_stem(resource_name_of(g)) == underscored(g.base_name),
{
    let name = resource_name_of(g);
    assert(name.take("akeyless_"@.len() as int) =~= "akeyless_"@);
    assert(name.skip("akeyless_"@.len() as int) =~= underscored(g.base_name));
}

/// Scaffolding every group without a pattern drafts exactly the resources
/// that `drift` counts as offered, in the same order: read back, the drafted
/// resource names are the offered name stems.
pub proof fn lemma_full_scaffold_matches_offer(gs: Seq<CrudGroupView>)
    ensures
        defined_stems(drafted_names(drafts(gs, None))) == offered_stems(gs),
{
    let f = gs.filter(resource_group());
    lemma_filter_everything(f, admitted_by(None));
    let lhs = defined_stems(drafted_names(drafts(gs, None)));
    assert forall|i: int| 0 <= i < f.len() implies lhs[i] == offered_stems(gs)[i] by {
        lemma_drafted_name_read_back(f[i]);
    }
    assert(lhs =~= offered_stems(gs));
}


/// The CRUD section drafted for a group agrees with the group.
pub proof fn lemma_drafted_crud_agrees(g: CrudGroupView)
    requires
        has_create_and_delete(g),
    ensures
        crud_agrees(drafted_crud(g), g),
{
}

/// The resources drafted for every group (no pattern), in draft order.
pub open spec fn drafted_resources(gs: Seq<CrudGroupView>) -> Seq<DefinedResourceView> {
    gs.filter(resource_group()).map_values(
        |g: CrudGroupView| DefinedResourceView { name: resource_name_of(g), crud: drafted_crud(g) },
    )
}

/// After every group has been scaffolded (no pattern) and the drafted specs
/// are taken as the defined resources, `drift` finds nothing missing, extra
/// or changed, and every offered resource covered.
pub proof fn lemma_no_drift_after_full_scaffold(d: DriftReport, gs: Seq<CrudGroupView>)
    requires
        reports_drift(
            d,
            offered_stems(gs).to_set(),
            defined_stems(resource_names(drafted_resources(gs))).to_set(),
            changed_stems(gs, drafted_resources(gs)).to_set(),
        ),
    ensures
        d.missing@.len() == 0,
        d.extra@.len() == 0,
        d.changed@.len() == 0,
        d.covered == d.offered,
{
    let f = gs.filter(resource_group());
    let rs = drafted_resources(gs);
    assert(defined_stems(resource_names(rs)) =~= offered_stems(gs)) by {
        assert forall|i: int| 0 <= i < f.len() implies defined_stems(resource_names(rs))[i]
            == offered_stems(gs)[i] by {
            lemma_drafted_name_read_back(f[i]);
        }
    }
    assert forall|i: int| 0 <= i < rs.len() implies !is_changed(#[trigger] rs[i], gs) by {
        let g = f[i];
        assert(f.contains(g));
        gs.lemma_filter_contains_rev(resource_group(), g);
        let k = choose|k: int| 0 <= k < gs.len() && gs[k] == g;
        gs.lemma_filter_pred(resource_group(), i);
        lemma_drafted_name_read_back(g);
        lemma_drafted_crud_agrees(g);
        assert(offers(gs[k], defined_stem(rs[i].name)));
    }
    rs.lemma_all_neg_filter_empty(changed_resource(gs));
    assert(changed_stems(gs, rs).to_set() =~= Set::empty());
    let o = offered_stems(gs).to_set();
    assert(o.difference(o) =~= Set::empty());
    if d.missing@.len() > 0 {
        assert(views(d.missing@).to_set().contains(views(d.missing@)[0]));
    }
    if d.extra@.len() > 0 {
        assert(views(d.extra@).to_set().contains(views(d.extra@)[0]));
    }
    if d.changed@.len() > 0 {
        assert(views(d.changed@).to_set().contains(views(d.changed@)[0]));
    }
    lemma_drift_accounts_for_all(d, o, o, Set::empty());
}

/// `text` holds `line` somewhere.
pub open spec fn has_line(text: Seq<char>, line: Seq<char>) -> bool {
    exists|i: int| 0 <= i && i + line.len() <= text.len() && #[trigger] text.subrange(i, i + line.len()) == line
}

/// The TOML line that sets `key` (given with its ` = "`) to `value`.
pub open spec fn toml_line(key: Seq<char>, value: Seq<char>) -> Seq<char> {
    key + value + "\"\n"@
}

proof fn lemma_holds_middle(pre: Seq<char>, line: Seq<char>, post: Seq<char>)
    ensures
        has_line(pre + line + post, line),
{
    let t = pre + line + post;
    assert(t.subrange(pre.len() as int, (pre.len() + line.len()) as int) =~= line);
}

proof fn lemma_field_lines_held(
    pre: Seq<char>,
    endpoint_key: Seq<char>,
    schema_key: Seq<char>,
    endpoint: Seq<char>,
    schema: Seq<char>,
    post: Seq<char>,
)
    ensures
        has_line(pre + field_lines(endpoint_key, schema_key, endpoint, schema) + post, toml_line(endpoint_key, endpoint)),
        has_line(pre + field_lines(endpoint_key, schema_key, endpoint, schema) + post, toml_line(schema_key, schema)),
{
    let l1 = toml_line(endpoint_key, endpoint);
    let l2 = toml_line(schema_key, schema);
    let t = pre + field_lines(endpoint_key, schema_key, endpoint, schema) + post;
    assert(t =~= pre + l1 + (l2 + post));
    lemma_holds_middle(pre, l1, l2 + post);
    assert(t =~= (pre + l1) + l2 + post);
    lemma_holds_middle(pre + l1, l2, post);
}

/// The text of a resource spec sets every field of its CRUD section: the
/// name, each endpoint and schema, and the update endpoint and schema where
/// the section has both.
pub proof fn lemma_text_sets_every_field(name: Seq<char>, c: ResourceCrudView)
    ensures
        has_line(toml_text(name, c), toml_line("name = \""@, name)),
        has_line(toml_text(name, c), toml_line("create_endpoint = \""@, c.create_endpoint)),
        has_line(toml_text(name, c), toml_line("create_schema = \""@, c.create_schema)),
        has_line(toml_text(name, c), toml_line("read_endpoint = \""@, c.read_endpoint)),
        has_line(toml_text(name, c), toml_line("read_schema = \""@, c.read_schema)),
        has_line(toml_text(name, c), toml_line("delete_endpoint = \""@, c.delete_endpoint)),
        has_line(toml_text(name, c), toml_line("delete_schema = \""@, c.delete_schema)),
        c.update_endpoint is Some && c.update_schema is Some ==> has_line(
            toml_text(name, c),
            toml_line("update_endpoint = \""@, c.update_endpoint->Some_0),
        ),
        c.update_endpoint is Some && c.update_schema is Some ==> has_line(
            toml_text(name, c),
            toml_line("update_schema = \""@, c.update_schema->Some_0),
        ),
{
    let head = resource_head(name);
    let create = field_lines("create_endpoint = \""@, "create_schema = \""@, c.create_endpoint, c.create_schema);
    let update = update_lines(c);
    let read = field_lines("read_endpoint = \""@, "read_schema = \""@, c.read_endpoint, c.read_schema);
    let delete = field_lines("delete_endpoint = \""@, "delete_schema = \""@, c.delete_endpoint, c.delete_schema);
    let tail = identity_and_fields();
    let t = toml_text(name, c);
    assert(t == head + create + update + read + delete + tail);
    // the name line sits inside the head
    let name_line = toml_line("name = \""@, name);
    reveal_strlit("[resource]\nname = \"");
    reveal_strlit("[resource]\n");
    reveal_strlit("name = \"");
    reveal_strlit("\"\ndescription = \"\"\ncategory = \"\"\n\n[crud]\n");
    reveal_strlit("\"\n");
    reveal_strlit("description = \"\"\ncategory = \"\"\n\n[crud]\n");
    assert("[resource]\nname = \""@ =~= "[resource]\n"@ + "name = \""@);
    assert("\"\ndescription = \"\"\ncategory = \"\"\n\n[crud]\n"@ =~= "\"\n"@
        + "description = \"\"\ncategory = \"\"\n\n[crud]\n"@);
    assert(t =~= "[resource]\n"@ + name_line + ("description = \"\"\ncategory = \"\"\n\n[crud]\n"@ + create + update + read
        + delete + tail));
    lemma_holds_middle("[resource]\n"@, name_line, "description = \"\"\ncategory = \"\"\n\n[crud]\n"@ + create + update
        + read + delete + tail);
    assert(t =~= head + create + (update + read + delete + tail));
    lemma_field_lines_held(head, "create_endpoint = \""@, "create_schema = \""@, c.create_endpoint, c.create_schema, update
        + read + delete + tail);
    assert(t =~= (head + create + update) + read + (delete + tail));
    lemma_field_lines_held(head + create + update, "read_endpoint = \""@, "read_schema = \""@, c.read_endpoint, c.read_schema,
        delete + tail);
    assert(t =~= (head + create + update + read) + delete + tail);
    lemma_field_lines_held(head + create + update + read, "delete_endpoint = \""@, "delete_schema = \""@, c.delete_endpoint,
        c.delete_schema, tail);
    if c.update_endpoint is Some && c.update_schema is Some {
        assert(t =~= (head + create) + update + (read + delete + tail));
        lemma_field_lines_held(head + create, "update_endpoint = \""@, "update_schema = \""@, c.update_endpoint->Some_0,
            c.update_schema->Some_0, read + delete + tail);
    }
}

/// The request schema written for an endpoint: its own, else `TODO`.
pub open spec fn own_schema(e: EndpointView) -> Seq<char> {
    if e.request_schema_ref is Some {
        e.request_schema_ref->Some_0
    } else {
        "TODO"@
    }
}

/// The file drafted for a group sets every operation from that operation's own
/// endpoint: the group's create, read, update and delete paths, each with the
/// request schema of the same endpoint (`TODO` where it has none), and
/// `TODO` for the read lines where the group has no read endpoint.
pub proof fn lemma_draft_uses_each_endpoint(g: CrudGroupView)
    requires
        has_create_and_delete(g),
    ensures
        has_line(resource_toml(g), toml_line("name = \""@, "akeyless_"@ + underscored(g.base_name))),
        has_line(resource_toml(g), toml_line("create_endpoint = \""@, g.create->Some_0.path)),
        has_line(resource_toml(g), toml_line("create_schema = \""@, own_schema(g.create->Some_0))),
        has_line(resource_toml(g), toml_line("delete_endpoint = \""@, g.delete->Some_0.path)),
        has_line(resource_toml(g), toml_line("delete_schema = \""@, own_schema(g.delete->Some_0))),
        g.read matches Some(r) ==> has_line(resource_toml(g), toml_line("read_endpoint = \""@, r.path)),
        g.read matches Some(r) ==> has_line(resource_toml(g), toml_line("read_schema = \""@, own_schema(r))),
        g.read is None ==> has_line(resource_toml(g), toml_line("read_endpoint = \""@, "TODO"@)),
        g.read is None ==> has_line(resource_toml(g), toml_line("read_schema = \""@, "TODO"@)),
        g.update matches Some(u) ==> has_line(resource_toml(g), toml_line("update_endpoint = \""@, u.path)),
        g.update matches Some(u) ==> has_line(resource_toml(g), toml_line("update_schema = \""@, own_schema(u))),
{
    lemma_text_sets_every_field(resource_name_of(g), drafted_crud(g));
}

} // verus!
