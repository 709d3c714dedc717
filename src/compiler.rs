use vstd::prelude::*;
use crate::config::{ConfigView, GeneratorConfig, ImplementAvroSchema, names_view};
use crate::text::concat_str;

verus! {

/// A generator made from a configuration.
#[verifier::external_type_specification]
#[verifier::external_body]
pub struct ExGenerator(rsgen_avro::Generator);

/// An error of the generator.
#[verifier::external_type_specification]
#[verifier::external_body]
pub struct ExGeneratorError(rsgen_avro::Error);

/// The base name of a path, as the target's path syntax reads it: its file
/// name up to the first `.` that does not begin it, or nothing where the path
/// has no file name.
pub uninterp spec fn file_prefix_of(path: Seq<char>) -> Option<Seq<char>>;

/// Relies on `std::path::Path::file_prefix`, whose result depends on the path
/// alone, as the target's path syntax reads it.
#[verifier::external_body]
fn file_prefix(path: &str) -> (r: Option<String>)
    ensures
        r matches Some(p) ==> file_prefix_of(path@) == Some(p@),
        r is None ==> file_prefix_of(path@) is None,
{
    std::path::Path::new(path).file_prefix().map(|p| p.to_string_lossy().into_owned())
}

/// Relies on rsgen_avro's `GeneratorBuilder`: each setter stores one option,
/// and `build` makes the generator or reports why it cannot.
#[verifier::external_body]
fn build_generator(c: &GeneratorConfig) -> (r: Result<rsgen_avro::Generator, rsgen_avro::Error>) {
    let impl_schemas = match c.impl_schemas {
        ImplementAvroSchema::Derive => rsgen_avro::ImplementAvroSchema::Derive,
        ImplementAvroSchema::CopyBuildSchema => rsgen_avro::ImplementAvroSchema::CopyBuildSchema,
        ImplementAvroSchema::Omit => rsgen_avro::ImplementAvroSchema::None,
    };
    rsgen_avro::GeneratorBuilder::new().precision(c.precision).nullable(c.nullable)
        .use_avro_rs_unions(c.use_avro_rs_unions).use_chrono_dates(c.use_chrono_dates)
        .derive_builders(c.derive_builders).implement_avro_schema(impl_schemas)
        .extra_derives(c.extra_derives.clone()).override_fields(c.field_overrides.clone())
        .build()
}

/// Why compiling schemas failed.
#[derive(Clone, Copy, Debug, PartialEq, Eq, Structural)]
pub enum CompileError {
    /// The generator rejected the configuration.
    Configuration,
    /// The schema path at this index has no file name.
    InvalidPath(usize),
}

/// What compiling one schema produces: where its types go, and the line
/// that tells the build system to watch the schema.
pub struct SchemaOutput {
    /// The schema path or glob pattern handed to the generator.
    pub schema: String,
    /// The name of the generated file, `<base name>.rs`.
    pub file_name: String,
    /// The dependency directive, `cargo::rerun-if-changed=<schema>`.
    pub rerun_directive: String,
}

/// The file that the types generated from a schema with this base name go to.
pub open spec fn output_file_name(prefix: Seq<char>) -> Seq<char> {
    prefix + ".rs"@
}

/// The line that declares the build's dependency on a schema.
pub open spec fn rerun_line(schema: Seq<char>) -> Seq<char> {
    "cargo::rerun-if-changed="@ + schema
}

/// The plan for a list of schema paths: one output per path, or the index of
/// the first path without a file name.
pub open spec fn plan_spec(schemas: Seq<Seq<char>>) -> Result<Seq<(Seq<char>, Seq<char>, Seq<char>)>, CompileError> {
    if exists|i: int| 0 <= i < schemas.len() && (#[trigger] file_prefix_of(schemas[i])) is None {
        let i = choose|i: int| 0 <= i < schemas.len() && (#[trigger] file_prefix_of(schemas[i])) is None
            && forall|k: int| 0 <= k < i ==> file_prefix_of(schemas[k]) is Some;
        Err(CompileError::InvalidPath(i as usize))
    } else {
        Ok(Seq::new(schemas.len(), |i: int| (
            schemas[i],
            output_file_name(file_prefix_of(schemas[i])->Some_0),
            rerun_line(schemas[i]),
        )))
    }
}

impl SchemaOutput {
    pub open spec fn view(&self) -> (Seq<char>, Seq<char>, Seq<char>) {
        (self.schema@, self.file_name@, self.rerun_directive@)
    }
}

/// The name of the file generated for a schema whose base name is `prefix`.
pub fn file_name_for_prefix(prefix: &str) -> (r: String)
    ensures
        r@ == output_file_name(prefix@),
{
    concat_str(prefix, ".rs")
}

/// The dependency directive for a schema path.
pub fn rerun_directive(schema: &str) -> (r: String)
    ensures
        r@ == rerun_line(schema@),
{
    concat_str("cargo::rerun-if-changed=", schema)
}

/// The name of the file generated for a schema path, or `None` where the
/// path has no file name.
pub fn schema_file_name(schema: &str) -> (r: Option<String>)
    ensures
        r matches Some(n) ==> file_prefix_of(schema@) matches Some(p) && n@ == output_file_name(p),
        r is None ==> file_prefix_of(schema@) is None,
{
    match file_prefix(schema) {
        Some(p) => Some(file_name_for_prefix(p.as_str())),
        None => None,
    }
}

/// Avro compiler to be used in build scripts.
pub struct AvroCompiler {
    pub config: GeneratorConfig,
}

impl View for AvroCompiler {
    type V = ConfigView;

    open spec fn view(&self) -> ConfigView {
        self.config@
    }
}

impl AvroCompiler {
    /// Initializes a compiler with the default configuration.
    pub fn new() -> (r: Self)
        ensures
            r@ == crate::config::default_config(),
    {
        AvroCompiler { config: GeneratorConfig::new() }
    }

    /// Sets the precision used for default values of floating-point fields.
    pub fn precision(self, precision: usize) -> (r: Self)
        ensures
            r@ == self@.set_precision(precision),
    {
        let mut s = self;
        s.config.precision = precision;
        s
    }

    /// Enables or disables default values for `null` fields.
    pub fn nullable(self, nullable: bool) -> (r: Self)
        ensures
            r@ == self@.set_nullable(nullable),
    {
        let mut s = self;
        s.config.nullable = nullable;
        s
    }

    /// Represents unions by the avro value's union instead of `Option<T>`.
    pub fn use_avro_rs_unions(self, use_avro_rs_unions: bool) -> (r: Self)
        ensures
            r@ == self@.set_use_avro_rs_unions(use_avro_rs_unions),
    {
        let mut s = self;
        s.config.use_avro_rs_unions = use_avro_rs_unions;
        s
    }

    /// Maps date and time logical types to chrono types.
    pub fn use_chrono_dates(self, use_chrono_dates: bool) -> (r: Self)
        ensures
            r@ == self@.set_use_chrono_dates(use_chrono_dates),
    {
        let mut s = self;
        s.config.use_chrono_dates = use_chrono_dates;
        s
    }

    /// Enables or disables builder structs for generated types.
    pub fn derive_builders(self, derive_builders: bool) -> (r: Self)
        ensures
            r@ == self@.set_derive_builders(derive_builders),
    {
        let mut s = self;
        s.config.derive_builders = derive_builders;
        s
    }

    /// Controls how generated types implement the avro schema trait.
    pub fn implement_avro_schema(self, impl_schemas: ImplementAvroSchema) -> (r: Self)
        ensures
            r@ == self@.set_impl_schemas(impl_schemas),
    {
        let mut s = self;
        s.config.impl_schemas = impl_schemas;
        s
    }

    /// Sets the additional derives of generated types, replacing earlier ones.
    pub fn extra_derives(self, extra_derives: Vec<String>) -> (r: Self)
        ensures
            r@ == self@.set_extra_derives(names_view(extra_derives@)),
    {
        let mut s = self;
        s.config.extra_derives = extra_derives;
        s
    }

    /// Adds overrides of fields in generated structs.
    pub fn override_fields(self, overrides: Vec<rsgen_avro::FieldOverride>) -> (r: Self)
        ensures
            r@ == self@.add_field_overrides(overrides@),
    {
        let mut s = self;
        let mut o = overrides;
        s.config.field_overrides.append(&mut o);
        s
    }

    /// Adds the override of one field in a generated struct.
    pub fn override_field(self, over: rsgen_avro::FieldOverride) -> (r: Self)
        ensures
            r@ == self@.add_field_overrides(seq![over]),
    {
        let mut s = self;
        s.config.field_overrides.push(over);
        assert(s@.field_overrides =~= self@.field_overrides + seq![over]);
        s
    }

    /// Makes the generator for this configuration.
    pub fn generator(&self) -> (r: Result<rsgen_avro::Generator, CompileError>)
        ensures
            r matches Err(e) ==> e == CompileError::Configuration,
    {
        match build_generator(&self.config) {
            Ok(g) => Ok(g),
            Err(_) => Err(CompileError::Configuration),
        }
    }

    /// Plans the compilation of schema paths: for each, the generated file's
    /// name and the dependency directive; fails on the first path without a
    /// file name.
    pub fn plan(&self, schemas: &Vec<String>) -> (r: Result<Vec<SchemaOutput>, CompileError>)
        ensures
            r matches Ok(v) ==> plan_spec(names_view(schemas@)) == Ok::<_, CompileError>(v@.map_values(|o: SchemaOutput| o.view())),
            r matches Err(e) ==> plan_spec(names_view(schemas@)) == Err::<Seq<(Seq<char>, Seq<char>, Seq<char>)>, _>(e),
    {
        let ghost names = names_view(schemas@);
        let mut out: Vec<SchemaOutput> = Vec::new();
        let mut i: usize = 0;
        while i < schemas.len()
            invariant
                i <= schemas.len(),
                names == names_view(schemas@),
                out@.len() == i,
                forall|k: int| 0 <= k < i ==> file_prefix_of(#[trigger] names[k]) is Some,
                forall|k: int| 0 <= k < i ==> (#[trigger] out@[k]).view() == (
                    names[k],
                    output_file_name(file_prefix_of(names[k])->Some_0),
                    rerun_line(names[k]),
                ),
            decreases schemas.len() - i,
        {
            let s = schemas[i].as_str();
            match schema_file_name(s) {
                Some(file_name) => {
                    let rerun = rerun_directive(s);
                    out.push(SchemaOutput { schema: schemas[i].clone(), file_name, rerun_directive: rerun });
                }
                None => {
                    proof {
                        let j = choose|j: int| 0 <= j < names.len() && (#[trigger] file_prefix_of(names[j])) is None
                            && forall|k: int| 0 <= k < j ==> file_prefix_of(names[k]) is Some;
                        assert(file_prefix_of(names[i as int]) is None);
                        if j < i {
                        } else if j > i {
                            assert(file_prefix_of(names[i as int]) is Some);
                        }
                    }
                    return Err(CompileError::InvalidPath(i));
                }
            }
            i = i + 1;
        }
        proof {
            assert(!exists|j: int| 0 <= j < names.len() && (#[trigger] file_prefix_of(names[j])) is None);
            let m = out@.map_values(|o: SchemaOutput| o.view());
            let e = Seq::new(names.len(), |k: int| (
                names[k],
                output_file_name(file_prefix_of(names[k])->Some_0),
                rerun_line(names[k]),
            ));
            assert(m =~= e);
        }
        Ok(out)
    }
}

/// Setting precision, the schema trait's implementation, builders, chrono
/// dates, avro unions and extra derives, one after another, yields a
/// configuration that holds exactly those six values and keeps the rest.
pub proof fn lemma_configured_options_kept(
    c: ConfigView,
    precision: usize,
    impl_schemas: ImplementAvroSchema,
    derive_builders: bool,
    use_chrono_dates: bool,
    use_avro_rs_unions: bool,
    extra_derives: Seq<Seq<char>>,
)
    ensures
        ({
            let r = c.set_precision(precision).set_impl_schemas(impl_schemas).set_derive_builders(
                derive_builders,
            ).set_use_chrono_dates(use_chrono_dates).set_use_avro_rs_unions(
                use_avro_rs_unions,
            ).set_extra_derives(extra_derives);
            &&& r.precision == precision
            &&& r.impl_schemas == impl_schemas
            &&& r.derive_builders == derive_builders
            &&& r.use_chrono_dates == use_chrono_dates
            &&& r.use_avro_rs_unions == use_avro_rs_unions
            &&& r.extra_derives == extra_derives
            &&& r.nullable == c.nullable
            &&& r.field_overrides == c.field_overrides
        }),
{
}

} // verus!
