use craby::canonical::{encode_schema, encode_schemas, encode_type};
use craby::error::ValidationError;
use craby::hash::{
    fingerprint, get_hash_from_src, stamp, to_hex16, validate_schema, HASH_COMMAND_PREFIX,
};
use craby::schema::{
    EnumAlias, EnumMember, Method, ObjectAlias, Param, PrimitiveKind, Property, Schema, Signal,
    TypeAnnotation,
};

fn number() -> TypeAnnotation {
    TypeAnnotation::Primitive(PrimitiveKind::Number)
}

fn void() -> TypeAnnotation {
    TypeAnnotation::Primitive(PrimitiveKind::Void)
}

fn method(name: &str, params: Vec<(&str, TypeAnnotation)>, ret: TypeAnnotation) -> Method {
    Method {
        name: name.to_string(),
        type_annotation: TypeAnnotation::Function {
            params: params
                .into_iter()
                .map(|(name, type_annotation)| Param { name: name.to_string(), type_annotation })
                .collect(),
            return_type: Box::new(ret),
        },
    }
}

fn schemas(method_name: &str) -> Vec<Schema> {
    let point = ObjectAlias {
        name: "Point".to_string(),
        properties: vec![Property {
            name: "x".to_string(),
            type_annotation: number(),
            optional: true,
        }],
    };
    let first = Schema::new(
        "Geo".to_string(),
        vec![point],
        vec![],
        vec![method(method_name, vec![("a", number())], void())],
        vec![],
    )
    .unwrap();
    let second = Schema::new("Other".to_string(), vec![], vec![], vec![], vec![]).unwrap();
    vec![first, second]
}

#[test]
fn hexadecimal_has_sixteen_lower_case_digits() {
    assert_eq!(to_hex16(0), "0000000000000000");
    assert_eq!(to_hex16(0x0123456789abcdef), "0123456789abcdef");
    assert_eq!(to_hex16(u64::MAX), "ffffffffffffffff");
    assert_eq!(to_hex16(255), format!("{:016x}", 255u64));
}

#[test]
fn fingerprint_is_the_xxh3_hash_of_the_bytes() {
    assert_eq!(fingerprint(""), "2d06800538d394c2");
    assert_eq!(fingerprint("a"), fingerprint("a"));
    assert_ne!(fingerprint("a"), fingerprint("b"));
    assert_ne!(fingerprint("a"), "a");
}

#[test]
fn canonical_text_frames_every_name_and_counts_every_list() {
    let empty = Schema::new("M".to_string(), vec![], vec![], vec![], vec![]).unwrap();
    let zero = "0000000000000000";
    let one = "0000000000000001";

    assert_eq!(encode_schema(&empty), format!("{one}M{zero}{zero}{zero}{zero}"));
    assert_eq!(encode_schemas(&vec![]), zero);
    assert_eq!(
        encode_schemas(&vec![empty]),
        format!("{one}{one}M{zero}{zero}{zero}{zero}")
    );
}

#[test]
fn canonical_text_holds_every_declaration() {
    let zero = "0000000000000000";
    let one = "0000000000000001";
    let two = "0000000000000002";
    let unit = EnumAlias {
        name: "Unit".to_string(),
        members: vec![EnumMember { name: "m".to_string(), value: "meter".to_string() }],
    };
    let point = ObjectAlias {
        name: "Pt".to_string(),
        properties: vec![
            Property { name: "x".to_string(), type_annotation: number(), optional: true },
            Property {
                name: "u".to_string(),
                type_annotation: TypeAnnotation::Nullable(Box::new(TypeAnnotation::EnumAlias(
                    EnumAlias { name: "Unit".to_string(), members: vec![] },
                ))),
                optional: false,
            },
        ],
    };
    let signal = Signal {
        name: "on".to_string(),
        type_annotation: TypeAnnotation::Function { params: vec![], return_type: Box::new(void()) },
    };
    let s = Schema::new(
        "Geo".to_string(),
        vec![point],
        vec![unit],
        vec![method("f", vec![("a", number())], void())],
        vec![signal],
    )
    .unwrap();

    let four = "0000000000000004";
    let five = "0000000000000005";
    let three = "0000000000000003";
    let expected = format!(
        "{three}Geo{one}{two}Pt{two}{one}xPn?{one}uNE{four}Unit{zero}!{one}{four}Unit{one}{one}m{five}meter{one}{one}fF{one}{one}aPnPv{one}{two}onF{zero}Pv"
    );
    assert_eq!(encode_schema(&s), expected);
}

#[test]
fn canonical_text_of_a_type_starts_with_the_letter_of_its_kind() {
    assert_eq!(encode_type(&TypeAnnotation::Primitive(PrimitiveKind::Boolean)), "Pb");
    assert_eq!(encode_type(&TypeAnnotation::Primitive(PrimitiveKind::String)), "Ps");
    assert_eq!(encode_type(&TypeAnnotation::Nullable(Box::new(number()))), "NPn");
    assert_eq!(
        encode_type(&TypeAnnotation::ObjectAlias(ObjectAlias {
            name: "\u{e9}".to_string(),
            properties: vec![],
        })),
        "O0000000000000001\u{e9}0000000000000000"
    );
}

#[test]
fn hash_of_schemas_is_a_fingerprint_of_their_canonical_text() {
    let hash = Schema::to_hash(&schemas("move"));

    assert_eq!(hash.len(), 16);
    assert!(hash.chars().all(|c| c.is_ascii_digit() || ('a'..='f').contains(&c)));
    assert_eq!(hash, fingerprint(&encode_schemas(&schemas("move"))));
    assert_eq!(hash, Schema::to_hash(&schemas("move")));
}

#[test]
fn hash_changes_with_a_method_name_and_with_the_order() {
    let hash = Schema::to_hash(&schemas("move"));
    let mut reversed = schemas("move");
    reversed.reverse();

    assert_ne!(hash, Schema::to_hash(&schemas("moved")));
    assert_ne!(hash, Schema::to_hash(&reversed));
    assert_ne!(hash, Schema::to_hash(&vec![]));
}

#[test]
fn stamped_code_records_the_hash() {
    let hash = Schema::to_hash(&schemas("move"));
    let code = stamp(&hash, "pub trait GeoSpec {\n}\n");

    assert_eq!(code, format!("// Hash: {hash}\npub trait GeoSpec {{\n}}\n"));
    assert_eq!(get_hash_from_src(&code), Ok(hash));
    assert_eq!(validate_schema(&code, &schemas("move")), Ok(()));
}

#[test]
fn code_of_other_schemas_does_not_match() {
    let code = stamp(&Schema::to_hash(&schemas("move")), "");

    assert_eq!(validate_schema(&code, &schemas("moved")), Err(ValidationError::HashMismatch));
}

#[test]
fn code_without_marker_line_is_refused() {
    assert_eq!(get_hash_from_src(""), Err(ValidationError::MissingHashMarker));
    assert_eq!(get_hash_from_src("fn main() {}\n"), Err(ValidationError::MissingHashMarker));
    assert_eq!(
        get_hash_from_src("  // Hash: abc\nlet x = 1; // Hash: def\n"),
        Err(ValidationError::MissingHashMarker)
    );
    assert_eq!(
        validate_schema("no marker here", &schemas("move")),
        Err(ValidationError::MissingHashMarker)
    );
}

#[test]
fn marker_is_read_from_the_first_line_that_starts_with_it() {
    assert_eq!(HASH_COMMAND_PREFIX, "// Hash:");
    assert_eq!(get_hash_from_src("// Hash: xxx"), Ok("xxx".to_string()));
    assert_eq!(get_hash_from_src("// Hash:xxx\n"), Ok("xxx".to_string()));
    assert_eq!(get_hash_from_src("// Hash: \t xxx \r\nrest"), Ok("xxx".to_string()));
    assert_eq!(get_hash_from_src("// Hash:"), Ok("".to_string()));
    assert_eq!(get_hash_from_src("// Hash:   \n"), Ok("".to_string()));
    assert_eq!(
        get_hash_from_src("use a;\n\n// Hash: first\n// Hash: second\n"),
        Ok("first".to_string())
    );
    assert_eq!(get_hash_from_src("// Hash: a b\n"), Ok("a b".to_string()));
    assert_eq!(get_hash_from_src("// Hash: abc // Hash: def\n"), Ok("abc".to_string()));
    assert_eq!(get_hash_from_src("// Hash:\u{a0}abc\u{3000}\n"), Ok("abc".to_string()));
}
