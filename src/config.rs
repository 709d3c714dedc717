use vstd::prelude::*;

verus! {

/// A field override of the generator, carried through unchanged.
#[verifier::external_type_specification]
#[verifier::external_body]
pub struct ExFieldOverride(rsgen_avro::FieldOverride);

/// How generated types implement the avro schema trait.
#[derive(Clone, Copy, Debug, PartialEq, Eq, Structural)]
pub enum ImplementAvroSchema {
    /// Derive the implementation.
    Derive,
    /// Copy the schema used at build time.
    CopyBuildSchema,
    /// No implementation (written `None` in macro arguments).
    Omit,
}

/// Number of digits kept for default values of floating-point fields,
/// unless configured otherwise.
pub const DEFAULT_PRECISION: usize = 3;

/// The options that control code generation.
pub struct GeneratorConfig {
    pub precision: usize,
    pub nullable: bool,
    pub use_avro_rs_unions: bool,
    pub use_chrono_dates: bool,
    pub derive_builders: bool,
    pub impl_schemas: ImplementAvroSchema,
    pub extra_derives: Vec<String>,
    pub field_overrides: Vec<rsgen_avro::FieldOverride>,
}

/// The mathematical model of a [`GeneratorConfig`].
pub ghost struct ConfigView {
    pub precision: usize,
    pub nullable: bool,
    pub use_avro_rs_unions: bool,
    pub use_chrono_dates: bool,
    pub derive_builders: bool,
    pub impl_schemas: ImplementAvroSchema,
    pub extra_derives: Seq<Seq<char>>,
    pub field_overrides: Seq<rsgen_avro::FieldOverride>,
}

/// The view of a list of names: the characters of each name.
pub open spec fn names_view(v: Seq<String>) -> Seq<Seq<char>> {
    v.map_values(|s: String| s@)
}

impl View for GeneratorConfig {
    type V = ConfigView;

    open spec fn view(&self) -> ConfigView {
        ConfigView {
            precision: self.precision,
            nullable: self.nullable,
            use_avro_rs_unions: self.use_avro_rs_unions,
            use_chrono_dates: self.use_chrono_dates,
            derive_builders: self.derive_builders,
            impl_schemas: self.impl_schemas,
            extra_derives: names_view(self.extra_derives@),
            field_overrides: self.field_overrides@,
        }
    }
}

/// The configuration that generation starts from.
pub open spec fn default_config() -> ConfigView {
    ConfigView {
        precision: DEFAULT_PRECISION,
        nullable: false,
        use_avro_rs_unions: false,
        use_chrono_dates: false,
        derive_builders: false,
        impl_schemas: ImplementAvroSchema::Omit,
        extra_derives: Seq::empty(),
        field_overrides: Seq::empty(),
    }
}

impl ConfigView {
    pub open spec fn set_precision(self, p: usize) -> ConfigView {
        ConfigView { precision: p, ..self }
    }

    pub open spec fn set_nullable(self, b: bool) -> ConfigView {
        ConfigView { nullable: b, ..self }
    }

    pub open spec fn set_use_avro_rs_unions(self, b: bool) -> ConfigView {
        ConfigView { use_avro_rs_unions: b, ..self }
    }

    pub open spec fn set_use_chrono_dates(self, b: bool) -> ConfigView {
        ConfigView { use_chrono_dates: b, ..self }
    }

    pub open spec fn set_derive_builders(self, b: bool) -> ConfigView {
        ConfigView { derive_builders: b, ..self }
    }

    pub open spec fn set_impl_schemas(self, i: ImplementAvroSchema) -> ConfigView {
        ConfigView { impl_schemas: i, ..self }
    }

    pub open spec fn set_extra_derives(self, d: Seq<Seq<char>>) -> ConfigView {
        ConfigView { extra_derives: d, ..self }
    }

    pub open spec fn add_field_overrides(self, o: Seq<rsgen_avro::FieldOverride>) -> ConfigView {
        ConfigView { field_overrides: self.field_overrides + o, ..self }
    }
}

impl GeneratorConfig {
    /// The default configuration.
    pub fn new() -> (r: GeneratorConfig)
        ensures
            r@ == default_config(),
    {
        let r = GeneratorConfig {
            precision: DEFAULT_PRECISION,
            nullable: false,
            use_avro_rs_unions: false,
            use_chrono_dates: false,
            derive_builders: false,
            impl_schemas: ImplementAvroSchema::Omit,
            extra_derives: Vec::new(),
            field_overrides: Vec::new(),
        };
        assert(r@.extra_derives =~= Seq::<Seq<char>>::empty());
        assert(r@.field_overrides =~= Seq::<rsgen_avro::FieldOverride>::empty());
        r
    }
}

} // verus!
