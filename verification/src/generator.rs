//! The generator: from a schema to every artifact that is written out for
//! it.

use crate::check::{check_schema, schema_error};
use crate::cxx::{cxx_method_of, cxx_method_views, render_cxx_methods, CxxMethod, CxxMethodView};
use crate::deps::lemma_alias_order_sound;
use crate::error::GenerationError;
use crate::rust::{
    bridge_of, impl_code_of, pair_views, render_bridge, render_impl_code, render_spec_code,
    render_type_impls, spec_code_of, type_impls_of, RsCxxBridge, RsCxxBridgeView,
};
use crate::schema::{index_view, Schema, SchemaView};
use crate::templates::{render_templates, templates_of};
use crate::text::{snake_case, snake_case_of, views};
use vstd::prelude::*;
use vstd::string::StringExecFns;

verus! {

/// Everything that is generated for one schema.
#[derive(Debug, PartialEq, Eq)]
pub struct CodegenResult {
    pub module_name: String,
    pub impl_mod: String,
    pub spec_code: String,
    pub impl_code: String,
    pub rs_cxx_bridge: RsCxxBridge,
    pub rs_type_impls: Vec<(String, String)>,
    pub cxx_methods: Vec<CxxMethod>,
    pub cxx_bridging_templates: Vec<String>,
}

pub struct CodegenResultView {
    pub module_name: Seq<char>,
    pub impl_mod: Seq<char>,
    pub spec_code: Seq<char>,
    pub impl_code: Seq<char>,
    pub rs_cxx_bridge: RsCxxBridgeView,
    pub rs_type_impls: Seq<(Seq<char>, Seq<char>)>,
    pub cxx_methods: Seq<CxxMethodView>,
    pub cxx_bridging_templates: Seq<Seq<char>>,
}

impl View for CodegenResult {
    type V = CodegenResultView;

    open spec fn view(&self) -> CodegenResultView {
        CodegenResultView {
            module_name: self.module_name@,
            impl_mod: self.impl_mod@,
            spec_code: self.spec_code@,
            impl_code: self.impl_code@,
            rs_cxx_bridge: self.rs_cxx_bridge@,
            rs_type_impls: pair_views(self.rs_type_impls@),
            cxx_methods: cxx_method_views(self.cxx_methods@),
            cxx_bridging_templates: views(self.cxx_bridging_templates@),
        }
    }
}

/// The name of the Rust module that holds a module's implementation.
pub open spec fn impl_mod_name_of(module: Seq<char>) -> Seq<char> {
    snake_case_of(module) + "_impl"@
}

/// The host functions of a schema, in the order of its methods.
pub open spec fn cxx_methods_of(s: SchemaView) -> Seq<CxxMethodView> {
    Seq::new(s.methods.len(), |i: int| cxx_method_of(s.module_name, s.methods[i]))
}

/// Everything that is generated for a schema against which nothing stands.
pub open spec fn artifacts_of(s: SchemaView) -> CodegenResultView {
    CodegenResultView {
        module_name: s.module_name,
        impl_mod: impl_mod_name_of(s.module_name),
        spec_code: spec_code_of(s),
        impl_code: impl_code_of(s),
        rs_cxx_bridge: bridge_of(s),
        rs_type_impls: type_impls_of(s),
        cxx_methods: cxx_methods_of(s),
        cxx_bridging_templates: templates_of(s),
    }
}

/// What generation gives for a schema: its artifacts, or the error that
/// stands against it.
pub open spec fn generation_of(s: SchemaView) -> Result<CodegenResultView, GenerationError> {
    match schema_error(s) {
        Some(e) => Err(e),
        None => Ok(artifacts_of(s)),
    }
}

/// Determinism: what is generated depends on nothing but the declarations
/// of the schema. Two schemas with the same name and the same aliases,
/// enums, methods and signals give the same artifacts or the same error.
pub proof fn lemma_generation_is_deterministic(a: SchemaView, b: SchemaView)
    requires
        a.wf(),
        b.wf(),
        a.module_name == b.module_name,
        a.aliases == b.aliases,
        a.enums == b.enums,
        a.methods == b.methods,
        a.signals == b.signals,
    ensures
        generation_of(a) == generation_of(b),
{
    crate::schema::lemma_index_unique(a, b);
    assert(a == b);
}

/// The name of the Rust module that holds a module's implementation.
pub fn impl_mod_name(module_name: &String) -> (out: String)
    ensures
        out@ == impl_mod_name_of(module_name@),
{
    let mut out = snake_case(module_name.as_str());
    out.append("_impl");
    out
}

/// The generator of all artifacts of a schema.
#[derive(Debug, PartialEq, Eq)]
pub struct CodeGenerator;

impl CodeGenerator {
    /// A generator; it holds nothing, so that what it generates depends on
    /// the schema alone.
    pub fn new() -> (generator: Self)
        ensures
            generator == CodeGenerator,
    {
        CodeGenerator
    }

    /// Generates every artifact of the schema, or nothing: where anything
    /// stands against the schema, the error says what.
    pub fn generate(&self, schema: &Schema) -> (res: Result<CodegenResult, GenerationError>)
        ensures
            match res {
                Ok(r) => generation_of(schema@) == Ok::<CodegenResultView, GenerationError>(r@),
                Err(e) => generation_of(schema@) == Err::<CodegenResultView, GenerationError>(e),
            },
    {
        let order = match check_schema(schema) {
            Ok(order) => order,
            Err(e) => {
                return Err(e);
            },
        };
        proof {
            lemma_alias_order_sound(schema@.aliases);
            assert forall|k: int| 0 <= k < order.len() implies #[trigger] order[k]
                < schema@.aliases.len() by {
                assert(index_view(order@)[k] == order[k]);
            }
        }
        let spec_code = render_spec_code(schema);
        let impl_code = render_impl_code(schema);
        let rs_cxx_bridge = render_bridge(schema);
        let rs_type_impls = render_type_impls(schema);
        let cxx_methods = render_cxx_methods(schema);
        let cxx_bridging_templates = render_templates(schema, &order);
        Ok(
            CodegenResult {
                module_name: schema.module_name().clone(),
                impl_mod: impl_mod_name(schema.module_name()),
                spec_code,
                impl_code,
                rs_cxx_bridge,
                rs_type_impls,
                cxx_methods,
                cxx_bridging_templates,
            },
        )
    }

    /// The interface trait of the schema: one signature for each method, in
    /// declaration order.
    pub fn generate_spec(&self, schema: &Schema) -> (res: Result<String, GenerationError>)
        ensures
            match res {
                Ok(code) => schema_error(schema@) is None && code@ == spec_code_of(schema@),
                Err(e) => schema_error(schema@) == Some(e),
            },
    {
        match check_schema(schema) {
            Ok(_) => Ok(render_spec_code(schema)),
            Err(e) => Err(e),
        }
    }

    /// The stub implementation of the interface trait: every method only
    /// says that it is not implemented.
    pub fn generate_impl(&self, schema: &Schema) -> (res: Result<String, GenerationError>)
        ensures
            match res {
                Ok(code) => schema_error(schema@) is None && code@ == impl_code_of(schema@),
                Err(e) => schema_error(schema@) == Some(e),
            },
    {
        match check_schema(schema) {
            Ok(_) => Ok(render_impl_code(schema)),
            Err(e) => Err(e),
        }
    }

    /// The bridge declaration and the bridge function of each method.
    pub fn get_rs_cxx_bridges(&self, schema: &Schema) -> (res: Result<RsCxxBridge, GenerationError>)
        ensures
            match res {
                Ok(bridge) => schema_error(schema@) is None && bridge@ == bridge_of(schema@),
                Err(e) => schema_error(schema@) == Some(e),
            },
    {
        match check_schema(schema) {
            Ok(_) => Ok(render_bridge(schema)),
            Err(e) => Err(e),
        }
    }

    /// The conversion code of each named type, with the type's name, in the
    /// order of the names.
    pub fn get_rs_type_impls(&self, schema: &Schema) -> (res: Result<
        Vec<(String, String)>,
        GenerationError,
    >)
        ensures
            match res {
                Ok(impls) => schema_error(schema@) is None && pair_views(impls@) == type_impls_of(
                    schema@,
                ),
                Err(e) => schema_error(schema@) == Some(e),
            },
    {
        match check_schema(schema) {
            Ok(_) => Ok(render_type_impls(schema)),
            Err(e) => Err(e),
        }
    }

    /// The host function of each method, in declaration order.
    pub fn get_cxx_methods(&self, schema: &Schema) -> (res: Result<Vec<CxxMethod>, GenerationError>)
        ensures
            match res {
                Ok(methods) => schema_error(schema@) is None && cxx_method_views(methods@)
                    == cxx_methods_of(schema@),
                Err(e) => schema_error(schema@) == Some(e),
            },
    {
        match check_schema(schema) {
            Ok(_) => Ok(render_cxx_methods(schema)),
            Err(e) => Err(e),
        }
    }

    /// The bridging templates: the enums in the order of their names, then
    /// every named type in the order of emission, each alias followed by
    /// its nullable wrapper where the schema uses one, and last the
    /// wrappers of primitive types.
    pub fn get_cxx_bridging_templates(&self, schema: &Schema) -> (res: Result<
        Vec<String>,
        GenerationError,
    >)
        ensures
            match res {
                Ok(templates) => schema_error(schema@) is None && views(templates@)
                    == templates_of(schema@),
                Err(e) => schema_error(schema@) == Some(e),
            },
    {
        let order = match check_schema(schema) {
            Ok(order) => order,
            Err(e) => {
                return Err(e);
            },
        };
        proof {
            lemma_alias_order_sound(schema@.aliases);
            assert forall|k: int| 0 <= k < order.len() implies #[trigger] order[k]
                < schema@.aliases.len() by {
                assert(index_view(order@)[k] == order[k]);
            }
        }
        Ok(render_templates(schema, &order))
    }
}

} // verus!
