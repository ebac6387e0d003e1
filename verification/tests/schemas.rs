use craby::deps::calc_deps_order;
use craby::error::GenerationError;
use craby::generator::CodeGenerator;
use craby::schema::{
    EnumAlias, EnumMember, Method, ObjectAlias, Param, PrimitiveKind, Property, Schema,
    TypeAnnotation,
};

fn number() -> TypeAnnotation {
    TypeAnnotation::Primitive(PrimitiveKind::Number)
}

fn void() -> TypeAnnotation {
    TypeAnnotation::Primitive(PrimitiveKind::Void)
}

fn nullable(inner: TypeAnnotation) -> TypeAnnotation {
    TypeAnnotation::Nullable(Box::new(inner))
}

fn alias_ref(name: &str) -> TypeAnnotation {
    TypeAnnotation::ObjectAlias(ObjectAlias { name: name.to_string(), properties: vec![] })
}

fn enum_ref(name: &str) -> TypeAnnotation {
    TypeAnnotation::EnumAlias(EnumAlias { name: name.to_string(), members: vec![] })
}

fn alias(name: &str, properties: Vec<(&str, TypeAnnotation)>) -> ObjectAlias {
    ObjectAlias {
        name: name.to_string(),
        properties: properties
            .into_iter()
            .map(|(name, type_annotation)| Property {
                name: name.to_string(),
                type_annotation,
                optional: false,
            })
            .collect(),
    }
}

fn method(name: &str, params: Vec<(&str, TypeAnnotation)>, ret: TypeAnnotation) -> Method {
    Method {
        name: name.to_string(),
        type_annotation: TypeAnnotation::Function {
            params: params
                .into_iter()
                .map(|(name, type_annotation)| Param { name: name.to_string(), type_annotation })
                .collect(),
            return_type: Box::new(ret),
        },
    }
}

fn schema(module: &str, aliases: Vec<ObjectAlias>, enums: Vec<EnumAlias>, methods: Vec<Method>) -> Schema {
    Schema::new(module.to_string(), aliases, enums, methods, vec![]).unwrap()
}

fn math() -> Schema {
    schema(
        "Math",
        vec![],
        vec![],
        vec![method("multiply", vec![("a", number()), ("b", number())], number())],
    )
}

#[test]
fn math_module_has_one_signature_and_no_templates() {
    let result = CodeGenerator::new().generate(&math()).unwrap();

    assert_eq!(
        result.spec_code,
        "pub trait MathSpec {\n    fn multiply(a: f64, b: f64) -> f64;\n}"
    );
    assert_eq!(result.spec_code.matches("fn multiply").count(), 1);
    assert_eq!(
        result.impl_code,
        "use crate::{ffi::math::*, generated::*};\n\npub struct Math;\n\nimpl MathSpec for Math {\n    fn multiply(a: f64, b: f64) -> f64 {\n        unimplemented!();\n    }\n}"
    );
    assert!(result.cxx_bridging_templates.is_empty());
    assert!(result.rs_type_impls.is_empty());
    assert_eq!(result.module_name, "Math");
    assert_eq!(result.impl_mod, "math_impl");
}

#[test]
fn point_struct_template_stands_before_its_nullable_template() {
    let s = schema(
        "Geo",
        vec![alias("Point", vec![("x", number()), ("y", number())])],
        vec![],
        vec![method("locate", vec![("at", nullable(alias_ref("Point")))], void())],
    );
    let templates = CodeGenerator::new().generate(&s).unwrap().cxx_bridging_templates;

    assert_eq!(templates.len(), 2);
    assert!(templates[0].starts_with("template <>\nstruct Bridging<craby::geo::Point> {"));
    assert!(templates[1].starts_with("template <>\nstruct Bridging<craby::geo::NullablePoint> {"));
}

#[test]
fn nullable_type_used_three_times_has_one_template() {
    let s = schema(
        "Geo",
        vec![],
        vec![],
        vec![
            method("first", vec![("a", nullable(number()))], void()),
            method("second", vec![("b", nullable(number()))], void()),
            method("third", vec![("c", nullable(number()))], nullable(number())),
        ],
    );
    let templates = CodeGenerator::new().get_cxx_bridging_templates(&s).unwrap();

    assert_eq!(templates.len(), 1);
    assert!(templates[0].starts_with("template <>\nstruct Bridging<craby::geo::NullableNumber> {"));
    assert!(templates[0].contains("react::bridging::fromJs<double>(rt, value)"));
}

#[test]
fn nullable_named_type_used_by_methods_and_properties_has_one_template() {
    let s = schema(
        "Geo",
        vec![
            alias("Line", vec![("from", nullable(alias_ref("Point"))), ("to", nullable(alias_ref("Point")))]),
            alias("Point", vec![("x", number())]),
        ],
        vec![],
        vec![
            method("first", vec![("a", nullable(alias_ref("Point")))], void()),
            method("second", vec![], nullable(alias_ref("Point"))),
        ],
    );
    let templates = CodeGenerator::new().get_cxx_bridging_templates(&s).unwrap();
    let heads: Vec<&str> = templates.iter().map(|t| t.lines().nth(1).unwrap()).collect();

    assert_eq!(
        heads,
        vec![
            "struct Bridging<craby::geo::Point> {",
            "struct Bridging<craby::geo::NullablePoint> {",
            "struct Bridging<craby::geo::Line> {",
        ]
    );
}

#[test]
fn primitive_wrappers_come_last_in_the_order_of_their_names() {
    let s = schema(
        "Geo",
        vec![alias("Point", vec![("x", number())])],
        vec![EnumAlias {
            name: "Unit".to_string(),
            members: vec![EnumMember { name: "meter".to_string(), value: "m".to_string() }],
        }],
        vec![method(
            "all",
            vec![
                ("s", nullable(TypeAnnotation::Primitive(PrimitiveKind::String))),
                ("n", nullable(number())),
                ("b", nullable(TypeAnnotation::Primitive(PrimitiveKind::Boolean))),
                ("u", nullable(enum_ref("Unit"))),
            ],
            void(),
        )],
    );
    let templates = CodeGenerator::new().get_cxx_bridging_templates(&s).unwrap();
    let heads: Vec<&str> = templates.iter().map(|t| t.lines().nth(1).unwrap()).collect();

    assert_eq!(
        heads,
        vec![
            "struct Bridging<craby::geo::Unit> {",
            "struct Bridging<craby::geo::NullableUnit> {",
            "struct Bridging<craby::geo::Point> {",
            "struct Bridging<craby::geo::NullableBoolean> {",
            "struct Bridging<craby::geo::NullableNumber> {",
            "struct Bridging<craby::geo::NullableString> {",
        ]
    );
}

#[test]
fn enum_templates_stand_in_the_order_of_their_names() {
    let unit = |name: &str| EnumAlias { name: name.to_string(), members: vec![] };
    let s = schema("Geo", vec![], vec![unit("Zeta"), unit("Alpha"), unit("Mid")], vec![]);
    let templates = CodeGenerator::new().get_cxx_bridging_templates(&s).unwrap();
    let heads: Vec<&str> = templates.iter().map(|t| t.lines().nth(1).unwrap()).collect();

    assert_eq!(
        heads,
        vec![
            "struct Bridging<craby::geo::Alpha> {",
            "struct Bridging<craby::geo::Mid> {",
            "struct Bridging<craby::geo::Zeta> {",
        ]
    );
}

#[test]
fn dependencies_are_ordered_before_their_dependents() {
    let s = schema(
        "Geo",
        vec![
            alias("Scene", vec![("shape", alias_ref("Shape")), ("unit", enum_ref("Unit"))]),
            alias("Shape", vec![("origin", nullable(alias_ref("Point")))]),
            alias("Free", vec![("n", number())]),
            alias("Point", vec![("x", number())]),
        ],
        vec![EnumAlias { name: "Unit".to_string(), members: vec![] }],
        vec![],
    );

    assert_eq!(
        calc_deps_order(&s).unwrap(),
        vec!["Unit", "Free", "Point", "Shape", "Scene"]
    );
}

#[test]
fn independent_aliases_keep_their_declaration_order() {
    let s = schema(
        "Geo",
        vec![alias("B", vec![]), alias("A", vec![]), alias("C", vec![])],
        vec![],
        vec![],
    );

    assert_eq!(calc_deps_order(&s).unwrap(), vec!["B", "A", "C"]);
}

#[test]
fn aliases_that_refer_to_each_other_are_cyclic() {
    let s = schema(
        "Geo",
        vec![
            alias("A", vec![("b", alias_ref("B"))]),
            alias("B", vec![("a", alias_ref("A"))]),
        ],
        vec![],
        vec![],
    );

    assert_eq!(calc_deps_order(&s), Err(GenerationError::CyclicTypeDependency));
    assert_eq!(
        CodeGenerator::new().generate(&s),
        Err(GenerationError::CyclicTypeDependency)
    );
}

#[test]
fn alias_that_refers_to_itself_is_cyclic() {
    let s = schema("Geo", vec![alias("Node", vec![("next", nullable(alias_ref("Node")))])], vec![], vec![]);

    assert_eq!(
        CodeGenerator::new().get_cxx_bridging_templates(&s),
        Err(GenerationError::CyclicTypeDependency)
    );
}

#[test]
fn longer_circle_is_cyclic() {
    let s = schema(
        "Geo",
        vec![
            alias("Free", vec![]),
            alias("A", vec![("b", alias_ref("B"))]),
            alias("B", vec![("c", alias_ref("C"))]),
            alias("C", vec![("a", alias_ref("A"))]),
        ],
        vec![],
        vec![],
    );

    assert_eq!(calc_deps_order(&s), Err(GenerationError::CyclicTypeDependency));
}

#[test]
fn unknown_alias_is_unresolved() {
    let s = schema("Geo", vec![], vec![], vec![method("f", vec![("p", alias_ref("Point"))], void())]);

    assert_eq!(
        CodeGenerator::new().generate(&s),
        Err(GenerationError::UnresolvedTypeReference)
    );
    assert_eq!(
        CodeGenerator::new().generate_spec(&s),
        Err(GenerationError::UnresolvedTypeReference)
    );
}

#[test]
fn enum_named_where_an_alias_is_declared_is_unresolved() {
    let s = schema(
        "Geo",
        vec![alias("Point", vec![("unit", nullable(enum_ref("Point")))])],
        vec![],
        vec![],
    );

    assert_eq!(
        CodeGenerator::new().generate(&s),
        Err(GenerationError::UnresolvedTypeReference)
    );
}

#[test]
fn nullable_inside_nullable_is_malformed() {
    let s = schema(
        "Geo",
        vec![],
        vec![],
        vec![method("f", vec![("p", nullable(nullable(number())))], void())],
    );

    assert_eq!(CodeGenerator::new().generate(&s), Err(GenerationError::MalformedSignature));
}

#[test]
fn method_without_function_type_is_malformed() {
    let s = schema(
        "Geo",
        vec![],
        vec![],
        vec![Method { name: "f".to_string(), type_annotation: number() }],
    );

    assert_eq!(CodeGenerator::new().generate_impl(&s), Err(GenerationError::MalformedSignature));
    assert_eq!(CodeGenerator::new().get_cxx_methods(&s), Err(GenerationError::MalformedSignature));
    assert_eq!(
        CodeGenerator::new().get_rs_cxx_bridges(&s),
        Err(GenerationError::MalformedSignature)
    );
    assert_eq!(
        CodeGenerator::new().get_rs_type_impls(&s),
        Err(GenerationError::MalformedSignature)
    );
}

#[test]
fn void_parameter_and_function_property_are_malformed() {
    let with_void = schema("Geo", vec![], vec![], vec![method("f", vec![("p", void())], void())]);
    let with_function = schema(
        "Geo",
        vec![alias(
            "Callback",
            vec![(
                "run",
                TypeAnnotation::Function { params: vec![], return_type: Box::new(void()) },
            )],
        )],
        vec![],
        vec![],
    );

    assert_eq!(
        CodeGenerator::new().generate(&with_void),
        Err(GenerationError::MalformedSignature)
    );
    assert_eq!(
        CodeGenerator::new().generate(&with_function),
        Err(GenerationError::MalformedSignature)
    );
}

#[test]
fn malformed_comes_before_unresolved_and_unresolved_before_cyclic() {
    let circle = || {
        vec![
            alias("A", vec![("b", alias_ref("B"))]),
            alias("B", vec![("a", alias_ref("A"))]),
        ]
    };
    let all_three = schema(
        "Geo",
        circle(),
        vec![],
        vec![
            method("f", vec![("p", nullable(nullable(number())))], void()),
            method("g", vec![("p", alias_ref("Missing"))], void()),
        ],
    );
    let two = schema(
        "Geo",
        circle(),
        vec![],
        vec![method("g", vec![("p", alias_ref("Missing"))], void())],
    );

    assert_eq!(
        CodeGenerator::new().generate(&all_three),
        Err(GenerationError::MalformedSignature)
    );
    assert_eq!(
        CodeGenerator::new().generate(&two),
        Err(GenerationError::UnresolvedTypeReference)
    );
}

#[test]
fn named_types_with_the_same_name_make_no_schema() {
    let twice = Schema::new(
        "Geo".to_string(),
        vec![alias("Point", vec![]), alias("Point", vec![])],
        vec![],
        vec![],
        vec![],
    );
    let alias_and_enum = Schema::new(
        "Geo".to_string(),
        vec![alias("Point", vec![])],
        vec![EnumAlias { name: "Point".to_string(), members: vec![] }],
        vec![],
        vec![],
    );

    assert!(twice.is_none());
    assert!(alias_and_enum.is_none());
}

#[test]
fn schema_keeps_its_declarations_and_indexes_them_by_name() {
    let s = schema(
        "Geo",
        vec![alias("Zeta", vec![]), alias("Alpha", vec![])],
        vec![EnumAlias { name: "Mid".to_string(), members: vec![] }],
        vec![method("f", vec![], void())],
    );

    assert_eq!(s.module_name(), "Geo");
    assert_eq!(s.aliases().len(), 2);
    assert_eq!(s.aliases()[0].name, "Zeta");
    assert_eq!(s.enums()[0].name, "Mid");
    assert_eq!(s.methods()[0].name, "f");
    assert!(s.signals().is_empty());
    assert_eq!(s.types_by_name(), &vec![2, 0, 1]);
}

#[test]
fn alias_crosses_the_bridge_by_reference() {
    let s = schema(
        "Geo",
        vec![alias("Point", vec![("x", number())])],
        vec![EnumAlias { name: "Unit".to_string(), members: vec![] }],
        vec![method(
            "moveBy",
            vec![("delta", alias_ref("Point")), ("unit", enum_ref("Unit")), ("times", number())],
            alias_ref("Point"),
        )],
    );
    let generator = CodeGenerator::new();
    let bridge = generator.get_rs_cxx_bridges(&s).unwrap();

    assert_eq!(
        generator.generate_spec(&s).unwrap(),
        "pub trait GeoSpec {\n    fn move_by(delta: Point, unit: Unit, times: f64) -> Point;\n}"
    );
    assert_eq!(
        bridge.func_extern_sigs,
        vec!["#[cxx_name = \"moveBy\"]\nfn geo_move_by(delta: &Point, unit: Unit, times: f64) -> Point;"]
    );
    assert_eq!(
        bridge.func_impls,
        vec!["fn geo_move_by(delta: &Point, unit: Unit, times: f64) -> Point {\n    Geo::move_by(delta.into(), unit.into(), times.into()).into()\n}"]
    );
}
