//! `generate`: the decisions of a generation run. The run itself (reading
//! specs, writing files) is driven from outside; each resource spec is handed
//! to [`GenerateRun::process`], which decides whether it is skipped or
//! generated and collects what the provider file registers.

use vstd::prelude::*;
use openapi_forge::Spec;
use terraform_forge::{ForgeError, ProviderSpec, ResourceSpec};
use crate::listing::views;
use crate::openapi::{endpoint_paths_of, schema_names_of};
use crate::terraform::{
    declared_name, generate_provider_code, generate_resource_code, generate_test_code,
    generated_resource_of, generated_test_of, passes_validation, provider_code_of,
    resource_fields_of, validate_resource, first_failure, lemma_passes_without_failure, ValidationFailure,
};

verus! {

/// Where the provider spec is read from.
pub enum ProviderSource {
    /// The path given on the command line.
    Given,
    /// `provider.toml` beside the resources directory.
    Default,
    /// Neither: the run fails.
    Missing,
}

/// Picks the provider spec: the one given, else the default one where it
/// exists, else none.
pub fn provider_source(given: bool, default_exists: bool) -> (s: ProviderSource)
    ensures
        given ==> s is Given,
        !given && default_exists ==> s is Default,
        !given && !default_exists ==> s is Missing,
{
    if given {
        ProviderSource::Given
    } else if default_exists {
        ProviderSource::Default
    } else {
        ProviderSource::Missing
    }
}

/// The error of a run without a provider spec.
pub open spec fn missing_provider_text() -> Seq<char> {
    "No provider.toml found. Use --provider to specify one."@
}

/// The error of a run without a provider spec.
pub fn missing_provider_message() -> (m: String)
    ensures
        m@ == missing_provider_text(),
{
    String::from_str("No provider.toml found. Use --provider to specify one.")
}

/// Where a generated resource file's contents come from.
pub enum FileSource {
    /// The hand-written override of the same name replaces the generated code.
    CopyOverride,
    /// The generated code is written.
    WriteGenerated,
}

/// An override file, where there is one, takes the place of the generated code.
pub fn resource_file_source(override_exists: bool) -> (s: FileSource)
    ensures
        override_exists <==> s is CopyOverride,
{
    if override_exists {
        FileSource::CopyOverride
    } else {
        FileSource::WriteGenerated
    }
}

/// The files generated for one resource.
pub struct GeneratedResource {
    pub resource_file: String,
    pub resource_code: String,
    pub test_file: String,
    pub test_code: String,
}

/// What became of one resource spec.
pub enum ResourceStep {
    /// It does not fit the API spec, for the reason given; nothing is generated.
    Skipped(ValidationFailure),
    /// Its resource and test files.
    Generated(GeneratedResource),
}

/// The state of a generation run: the resources generated so far (by type
/// name and by resource name) and how many were skipped.
pub struct GenerateRun {
    type_names: Vec<String>,
    tf_names: Vec<String>,
    skipped: usize,
}

/// The mathematical value of a [`GenerateRun`].
pub struct GenerateRunView {
    pub type_names: Seq<Seq<char>>,
    pub tf_names: Seq<Seq<char>>,
    pub skipped: nat,
}

impl View for GenerateRun {
    type V = GenerateRunView;

    closed spec fn view(&self) -> GenerateRunView {
        GenerateRunView {
            type_names: views(self.type_names@),
            tf_names: views(self.tf_names@),
            skipped: self.skipped as nat,
        }
    }
}

/// Whether a resource spec fits the API spec (what `ResourceSpec::validate` checks).
pub open spec fn fits(resource: ResourceSpec, api: Spec) -> bool {
    passes_validation(
        resource_fields_of(resource),
        schema_names_of(api).to_set(),
        endpoint_paths_of(api).to_set(),
    )
}

/// What one resource spec does to a run and what comes of it.
pub open spec fn step_taken(
    before: GenerateRunView,
    after: GenerateRunView,
    resource: ResourceSpec,
    api: Spec,
    provider: ProviderSpec,
    r: Result<ResourceStep, ForgeError>,
) -> bool {
    match r {
        Ok(ResourceStep::Skipped(f)) => {
            &&& !fits(resource, api)
            &&& first_failure(
                resource_fields_of(resource),
                schema_names_of(api).to_set(),
                endpoint_paths_of(api).to_set(),
            ) == Some(f@)
            &&& after == GenerateRunView { skipped: before.skipped + 1, ..before }
        },
        Ok(ResourceStep::Generated(g)) => {
            &&& fits(resource, api)
            &&& generated_resource_of(resource, api, provider) matches Some(gen)
            &&& g.resource_file@ == gen.0
            &&& g.resource_code@ == gen.1
            &&& generated_test_of(resource) == (g.test_file@, g.test_code@)
            &&& after == GenerateRunView {
                type_names: before.type_names.push(gen.2),
                tf_names: before.tf_names.push(resource_fields_of(resource).name),
                skipped: before.skipped,
            }
        },
        Err(_) => {
            &&& fits(resource, api)
            &&& generated_resource_of(resource, api, provider) is None
            &&& after == before
        },
    }
}

/// Over a run that takes resource specs one after another without failing,
/// each resource spec is counted once: generated or skipped. The resource
/// names recorded grow with the type names.
pub proof fn lemma_every_resource_counted(
    states: Seq<GenerateRunView>,
    resources: Seq<ResourceSpec>,
    outcomes: Seq<Result<ResourceStep, ForgeError>>,
    api: Spec,
    provider: ProviderSpec,
)
    requires
        states.len() == resources.len() + 1,
        outcomes.len() == resources.len(),
        forall|i: int|
            0 <= i < resources.len() ==> #[trigger] step_taken(
                states[i],
                states[i + 1],
                resources[i],
                api,
                provider,
                outcomes[i],
            ),
        forall|i: int| 0 <= i < outcomes.len() ==> (#[trigger] outcomes[i]) is Ok,
    ensures
        states.last().type_names.len() + states.last().skipped == states[0].type_names.len()
            + states[0].skipped + resources.len(),
        states.last().tf_names.len() + states[0].type_names.len() == states[0].tf_names.len()
            + states.last().type_names.len(),
    decreases resources.len(),
{
    if resources.len() > 0 {
        let n = resources.len() - 1;
        let s1 = states.drop_last();
        let r1 = resources.drop_last();
        let o1 = outcomes.drop_last();
        assert forall|i: int| 0 <= i < r1.len() implies #[trigger] step_taken(
            s1[i],
            s1[i + 1],
            r1[i],
            api,
            provider,
            o1[i],
        ) by {
            assert(step_taken(states[i], states[i + 1], resources[i], api, provider, outcomes[i]));
        }
        assert forall|i: int| 0 <= i < o1.len() implies (#[trigger] o1[i]) is Ok by {
            assert(outcomes[i] is Ok);
        }
        lemma_every_resource_counted(s1, r1, o1, api, provider);
        assert(step_taken(states[n], states[n + 1], resources[n], api, provider, outcomes[n]));
        assert(outcomes[n] is Ok);
    }
}

impl GenerateRun {
    /// A run that has seen no resource yet.
    pub fn new() -> (r: GenerateRun)
        ensures
            r@ == (GenerateRunView { type_names: Seq::empty(), tf_names: Seq::empty(), skipped: 0 }),
    {
        let r = GenerateRun { type_names: Vec::new(), tf_names: Vec::new(), skipped: 0 };
        assert(r@.type_names =~= Seq::<Seq<char>>::empty());
        assert(r@.tf_names =~= Seq::<Seq<char>>::empty());
        r
    }

    /// Takes one resource spec: a spec that does not fit the API spec is
    /// skipped; one that fits is generated, and its type and resource names
    /// are recorded for the provider file. A generation failure ends the run.
    pub fn process(
        &mut self,
        resource: &ResourceSpec,
        api: &Spec,
        provider: &ProviderSpec,
    ) -> (r: Result<ResourceStep, ForgeError>)
        requires
            old(self)@.skipped < usize::MAX,
        ensures
            step_taken(old(self)@, final(self)@, *resource, *api, *provider, r),
    {
        proof {
            lemma_passes_without_failure(
                resource_fields_of(*resource),
                schema_names_of(*api).to_set(),
                endpoint_paths_of(*api).to_set(),
            );
        }
        match validate_resource(resource, api) {
            Err(e) => {
                self.record_skipped();
                Ok(ResourceStep::Skipped(e))
            },
            Ok(()) => {
                let generated = generate_resource_code(resource, api, provider);
                match generated {
                    Err(e) => Err(e),
                    Ok((resource_file, resource_code, go_type)) => {
                        self.record_generated(go_type, declared_name(resource));
                        let (test_file, test_code) = generate_test_code(resource);
                        Ok(ResourceStep::Generated(GeneratedResource { resource_file, resource_code, test_file, test_code }))
                    },
                }
            },
        }
    }

    /// Records a resource spec that was skipped.
    pub fn record_skipped(&mut self)
        requires
            old(self)@.skipped < usize::MAX,
        ensures
            final(self)@ == (GenerateRunView { skipped: old(self)@.skipped + 1, ..old(self)@ }),
    {
        self.skipped = self.skipped + 1;
    }

    /// Records a generated resource by its Go type name and its resource name.
    pub fn record_generated(&mut self, go_type: String, tf_name: String)
        ensures
            final(self)@ == (GenerateRunView {
                type_names: old(self)@.type_names.push(go_type@),
                tf_names: old(self)@.tf_names.push(tf_name@),
                skipped: old(self)@.skipped,
            }),
    {
        let ghost before = self@;
        let ghost (t, n) = (go_type@, tf_name@);
        self.type_names.push(go_type);
        self.tf_names.push(tf_name);
        assert(self@.type_names =~= before.type_names.push(t));
        assert(self@.tf_names =~= before.tf_names.push(n));
    }

    /// How many resources were generated.
    pub fn generated_count(&self) -> (n: usize)
        ensures
            n == self@.type_names.len(),
    {
        self.type_names.len()
    }

    /// How many resource specs were skipped.
    pub fn skipped_count(&self) -> (n: usize)
        ensures
            n == self@.skipped,
    {
        self.skipped
    }

    /// The provider file, registering every generated resource (and no data source).
    pub fn provider_code(&self, provider: &ProviderSpec) -> (code: String)
        ensures
            code@ == provider_code_of(*provider, self@.type_names, self@.tf_names, Seq::empty()),
    {
        let data_sources: Vec<String> = Vec::new();
        assert(views(data_sources@) =~= Seq::<Seq<char>>::empty());
        generate_provider_code(provider, &self.type_names, &self.tf_names, &data_sources)
    }
}

} // verus!
