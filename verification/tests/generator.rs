use craby::generator::CodeGenerator;
use craby::schema::{
    EnumAlias, EnumMember, Method, ObjectAlias, Param, PrimitiveKind, Property, Schema, Signal,
    TypeAnnotation,
};

fn primitive(kind: PrimitiveKind) -> TypeAnnotation {
    TypeAnnotation::Primitive(kind)
}

fn nullable(inner: TypeAnnotation) -> TypeAnnotation {
    TypeAnnotation::Nullable(Box::new(inner))
}

fn alias_ref(name: &str) -> TypeAnnotation {
    TypeAnnotation::ObjectAlias(ObjectAlias { name: name.to_string(), properties: vec![] })
}

fn enum_ref(name: &str) -> TypeAnnotation {
    TypeAnnotation::EnumAlias(EnumAlias { name: name.to_string(), members: vec![] })
}

fn property(name: &str, type_annotation: TypeAnnotation) -> Property {
    Property { name: name.to_string(), type_annotation, optional: false }
}

fn method(name: &str, params: Vec<(&str, TypeAnnotation)>, ret: TypeAnnotation) -> Method {
    Method {
        name: name.to_string(),
        type_annotation: TypeAnnotation::Function {
            params: params
                .into_iter()
                .map(|(name, type_annotation)| Param { name: name.to_string(), type_annotation })
                .collect(),
            return_type: Box::new(ret),
        },
    }
}

fn load_schema() -> Schema {
    let shape = ObjectAlias {
        name: "Shape".to_string(),
        properties: vec![
            property("origin", alias_ref("Point")),
            property("label", nullable(primitive(PrimitiveKind::String))),
            property("kind", enum_ref("MyEnum")),
        ],
    };
    let point = ObjectAlias {
        name: "Point".to_string(),
        properties: vec![
            property("x", primitive(PrimitiveKind::Number)),
            property("y", primitive(PrimitiveKind::Number)),
        ],
    };
    let my_enum = EnumAlias {
        name: "MyEnum".to_string(),
        members: vec![
            EnumMember { name: "foo".to_string(), value: "foo".to_string() },
            EnumMember { name: "bar".to_string(), value: "bar".to_string() },
        ],
    };
    let methods = vec![
        method(
            "multiply",
            vec![("a", primitive(PrimitiveKind::Number)), ("b", primitive(PrimitiveKind::Number))],
            primitive(PrimitiveKind::Number),
        ),
        method(
            "greet",
            vec![("name", nullable(primitive(PrimitiveKind::String)))],
            primitive(PrimitiveKind::String),
        ),
        method(
            "moveTo",
            vec![("target", nullable(alias_ref("Point")))],
            primitive(PrimitiveKind::Void),
        ),
        method("getShape", vec![], alias_ref("Shape")),
    ];
    let signals = vec![Signal {
        name: "onChange".to_string(),
        type_annotation: TypeAnnotation::Function {
            params: vec![],
            return_type: Box::new(primitive(PrimitiveKind::Void)),
        },
    }];
    Schema::new("CrabyTest".to_string(), vec![shape, point], vec![my_enum], methods, signals)
        .unwrap()
}

#[test]
fn test_generate_spec() {
    let schema = load_schema();
    let generator = CodeGenerator::new();
    let result = generator.generate_spec(&schema).unwrap();

    assert_eq!(
        result,
        "pub trait CrabyTestSpec {\n    fn multiply(a: f64, b: f64) -> f64;\n    fn greet(name: Option<String>) -> String;\n    fn move_to(target: Option<Point>) -> ();\n    fn get_shape() -> Shape;\n}"
    );
}

#[test]
fn test_generate_impl() {
    let schema = load_schema();
    let generator = CodeGenerator::new();
    let result = generator.generate_impl(&schema).unwrap();

    assert_eq!(
        result,
        "use crate::{ffi::craby_test::*, generated::*};\n\npub struct CrabyTest;\n\nimpl CrabyTestSpec for CrabyTest {\n    fn multiply(a: f64, b: f64) -> f64 {\n        unimplemented!();\n    }\n\n    fn greet(name: Option<String>) -> String {\n        unimplemented!();\n    }\n\n    fn move_to(target: Option<Point>) -> () {\n        unimplemented!();\n    }\n\n    fn get_shape() -> Shape {\n        unimplemented!();\n    }\n}"
    );
}

#[test]
fn test_generate_rs_cxx_bridges() {
    let schema = load_schema();
    let generator = CodeGenerator::new();
    let result = generator.get_rs_cxx_bridges(&schema).unwrap();

    assert_eq!(
        result.func_extern_sigs.join("\n\n"),
        r#"#[cxx_name = "multiply"]
fn craby_test_multiply(a: f64, b: f64) -> f64;

#[cxx_name = "greet"]
fn craby_test_greet(name: NullableString) -> String;

#[cxx_name = "moveTo"]
fn craby_test_move_to(target: NullablePoint) -> ();

#[cxx_name = "getShape"]
fn craby_test_get_shape() -> Shape;"#
    );
    assert_eq!(
        result.func_impls.join("\n\n"),
        r#"fn craby_test_multiply(a: f64, b: f64) -> f64 {
    CrabyTest::multiply(a.into(), b.into()).into()
}

fn craby_test_greet(name: NullableString) -> String {
    CrabyTest::greet(name.into()).into()
}

fn craby_test_move_to(target: NullablePoint) -> () {
    CrabyTest::move_to(target.into()).into()
}

fn craby_test_get_shape() -> Shape {
    CrabyTest::get_shape().into()
}"#
    );
}

#[test]
fn test_get_rs_type_impls() {
    let schema = load_schema();
    let generator = CodeGenerator::new();
    let result = generator.get_rs_type_impls(&schema).unwrap();

    assert_eq!(
        result.iter().map(|(name, _)| name.as_str()).collect::<Vec<_>>(),
        vec!["MyEnum", "Point", "Shape"]
    );
    assert_eq!(
        result.into_iter().map(|(_, code)| code).collect::<Vec<_>>().join("\n"),
        r#"impl MyEnum {
    pub fn literal(&self) -> &'static str {
        match self {
            MyEnum::Foo => "foo",
            MyEnum::Bar => "bar",
        }
    }
}
impl From<&Point> for Point {
    fn from(value: &Point) -> Self {
        Point {
            x: value.x.clone(),
            y: value.y.clone(),
        }
    }
}
impl From<&Shape> for Shape {
    fn from(value: &Shape) -> Self {
        Shape {
            origin: value.origin.clone(),
            label: value.label.clone(),
            kind: value.kind.clone(),
        }
    }
}"#
    );
}

const ENUM_TEMPLATE: &str = r#"template <>
struct Bridging<craby::crabytest::MyEnum> {
  static craby::crabytest::MyEnum fromJs(jsi::Runtime &rt, const jsi::Value &value) {
    auto raw = value.asString(rt).utf8(rt);
    if (raw == "foo") {
      return craby::crabytest::MyEnum::Foo;
    }
    if (raw == "bar") {
      return craby::crabytest::MyEnum::Bar;
    }
    throw jsi::JSError(rt, "Invalid value for MyEnum");
  }

  static jsi::Value toJs(jsi::Runtime &rt, craby::crabytest::MyEnum value) {
    switch (value) {
      case craby::crabytest::MyEnum::Foo:
        return jsi::String::createFromUtf8(rt, "foo");
      case craby::crabytest::MyEnum::Bar:
        return jsi::String::createFromUtf8(rt, "bar");
    }
    throw jsi::JSError(rt, "Invalid value for MyEnum");
  }
};"#;

const POINT_TEMPLATE: &str = r#"template <>
struct Bridging<craby::crabytest::Point> {
  static craby::crabytest::Point fromJs(jsi::Runtime &rt, const jsi::Value &value) {
    auto obj = value.asObject(rt);
    craby::crabytest::Point ret;
    ret.x = react::bridging::fromJs<double>(rt, obj.getProperty(rt, "x"));
    ret.y = react::bridging::fromJs<double>(rt, obj.getProperty(rt, "y"));
    return ret;
  }

  static jsi::Value toJs(jsi::Runtime &rt, const craby::crabytest::Point &value) {
    jsi::Object obj(rt);
    obj.setProperty(rt, "x", react::bridging::toJs(rt, value.x));
    obj.setProperty(rt, "y", react::bridging::toJs(rt, value.y));
    return jsi::Value(rt, obj);
  }
};"#;

const NULLABLE_POINT_TEMPLATE: &str = r#"template <>
struct Bridging<craby::crabytest::NullablePoint> {
  static craby::crabytest::NullablePoint fromJs(jsi::Runtime &rt, const jsi::Value &value) {
    if (value.isNull() || value.isUndefined()) {
      return craby::crabytest::NullablePoint{true, {}};
    }
    return craby::crabytest::NullablePoint{false, react::bridging::fromJs<craby::crabytest::Point>(rt, value)};
  }

  static jsi::Value toJs(jsi::Runtime &rt, const craby::crabytest::NullablePoint &value) {
    if (value.null) {
      return jsi::Value::null();
    }
    return react::bridging::toJs(rt, value.val);
  }
};"#;

const SHAPE_TEMPLATE: &str = r#"template <>
struct Bridging<craby::crabytest::Shape> {
  static craby::crabytest::Shape fromJs(jsi::Runtime &rt, const jsi::Value &value) {
    auto obj = value.asObject(rt);
    craby::crabytest::Shape ret;
    ret.origin = react::bridging::fromJs<craby::crabytest::Point>(rt, obj.getProperty(rt, "origin"));
    ret.label = react::bridging::fromJs<craby::crabytest::NullableString>(rt, obj.getProperty(rt, "label"));
    ret.kind = react::bridging::fromJs<craby::crabytest::MyEnum>(rt, obj.getProperty(rt, "kind"));
    return ret;
  }

  static jsi::Value toJs(jsi::Runtime &rt, const craby::crabytest::Shape &value) {
    jsi::Object obj(rt);
    obj.setProperty(rt, "origin", react::bridging::toJs(rt, value.origin));
    obj.setProperty(rt, "label", react::bridging::toJs(rt, value.label));
    obj.setProperty(rt, "kind", react::bridging::toJs(rt, value.kind));
    return jsi::Value(rt, obj);
  }
};"#;

const NULLABLE_STRING_TEMPLATE: &str = r#"template <>
struct Bridging<craby::crabytest::NullableString> {
  static craby::crabytest::NullableString fromJs(jsi::Runtime &rt, const jsi::Value &value) {
    if (value.isNull() || value.isUndefined()) {
      return craby::crabytest::NullableString{true, {}};
    }
    return craby::crabytest::NullableString{false, react::bridging::fromJs<rust::String>(rt, value)};
  }

  static jsi::Value toJs(jsi::Runtime &rt, const craby::crabytest::NullableString &value) {
    if (value.null) {
      return jsi::Value::null();
    }
    return react::bridging::toJs(rt, value.val);
  }
};"#;

#[test]
fn test_get_cxx_bridging_templates() {
    let schema = load_schema();
    let generator = CodeGenerator::new();
    let result = generator.get_cxx_bridging_templates(&schema).unwrap();

    assert_eq!(
        result.join("\n"),
        vec![
            ENUM_TEMPLATE,
            POINT_TEMPLATE,
            NULLABLE_POINT_TEMPLATE,
            SHAPE_TEMPLATE,
            NULLABLE_STRING_TEMPLATE,
        ]
        .join("\n")
    );
}

#[test]
fn test_get_cxx_methods() {
    let schema = load_schema();
    let generator = CodeGenerator::new();
    let result = generator.get_cxx_methods(&schema).unwrap();

    assert_eq!(
        result
            .into_iter()
            .map(|method| vec![method.name, method.impl_func, method.metadata])
            .flatten()
            .collect::<Vec<_>>()
            .join("\n"),
        r#"multiply
jsi::Value CxxCrabyTestModule::multiply(jsi::Runtime &rt, const jsi::Value args[], size_t count) {
  if (count != 2) {
    throw jsi::JSError(rt, "Expected 2 argument(s)");
  }
  auto arg0 = react::bridging::fromJs<double>(rt, args[0]);
  auto arg1 = react::bridging::fromJs<double>(rt, args[1]);
  auto ret = craby::crabytest::multiply(arg0, arg1);
  return react::bridging::toJs(rt, ret);
}
MethodMetadata{2, &CxxCrabyTestModule::multiply}
greet
jsi::Value CxxCrabyTestModule::greet(jsi::Runtime &rt, const jsi::Value args[], size_t count) {
  if (count != 1) {
    throw jsi::JSError(rt, "Expected 1 argument(s)");
  }
  auto arg0 = react::bridging::fromJs<craby::crabytest::NullableString>(rt, args[0]);
  auto ret = craby::crabytest::greet(arg0);
  return react::bridging::toJs(rt, ret);
}
MethodMetadata{1, &CxxCrabyTestModule::greet}
moveTo
jsi::Value CxxCrabyTestModule::moveTo(jsi::Runtime &rt, const jsi::Value args[], size_t count) {
  if (count != 1) {
    throw jsi::JSError(rt, "Expected 1 argument(s)");
  }
  auto arg0 = react::bridging::fromJs<craby::crabytest::NullablePoint>(rt, args[0]);
  craby::crabytest::moveTo(arg0);
  return jsi::Value::undefined();
}
MethodMetadata{1, &CxxCrabyTestModule::moveTo}
getShape
jsi::Value CxxCrabyTestModule::getShape(jsi::Runtime &rt, const jsi::Value args[], size_t count) {
  if (count != 0) {
    throw jsi::JSError(rt, "Expected 0 argument(s)");
  }
  auto ret = craby::crabytest::getShape();
  return react::bridging::toJs(rt, ret);
}
MethodMetadata{0, &CxxCrabyTestModule::getShape}"#
    );
}

#[test]
fn generate_holds_every_part() {
    let schema = load_schema();
    let generator = CodeGenerator::new();
    let result = generator.generate(&schema).unwrap();

    assert_eq!(result.module_name, "CrabyTest");
    assert_eq!(result.impl_mod, "craby_test_impl");
    assert_eq!(result.spec_code, generator.generate_spec(&schema).unwrap());
    assert_eq!(result.impl_code, generator.generate_impl(&schema).unwrap());
    assert_eq!(result.rs_cxx_bridge, generator.get_rs_cxx_bridges(&schema).unwrap());
    assert_eq!(result.rs_type_impls, generator.get_rs_type_impls(&schema).unwrap());
    assert_eq!(result.cxx_methods, generator.get_cxx_methods(&schema).unwrap());
    assert_eq!(
        result.cxx_bridging_templates,
        generator.get_cxx_bridging_templates(&schema).unwrap()
    );
}

#[test]
fn generating_twice_gives_the_same_artifacts() {
    let generator = CodeGenerator::new();
    let first = generator.generate(&load_schema()).unwrap();
    let second = generator.generate(&load_schema()).unwrap();

    assert_eq!(first, second);
}
