use derive_asref::{
    is_ident_str, AsRefError, AttrArgs, AttrPath, Attribute, DeriveInput, ErrorKind, Field, Lit,
    Location, NestedMeta, PathSegment, RawAttribute, RawData, RawField, RawFields, Struct,
};

fn path(name: &str) -> AttrPath {
    AttrPath {
        leading_colon: false,
        segments: vec![PathSegment { ident: name.to_owned(), bare: true }],
    }
}

fn marker(items: Vec<NestedMeta>) -> RawAttribute {
    RawAttribute { path: path("as_ref"), args: AttrArgs::List(items) }
}

fn pair(key: &str, value: Lit) -> NestedMeta {
    NestedMeta::NameValue(path(key), value)
}

fn text(s: &str) -> Lit {
    Lit::Str(s.to_owned())
}

fn target(t: &str) -> RawAttribute {
    marker(vec![pair("target", text(t))])
}

fn field(name: &str, attrs: Vec<RawAttribute>) -> RawField {
    RawField { ident: Some(name.to_owned()), attrs }
}

fn named(name: &str, fields: Vec<RawField>) -> DeriveInput {
    DeriveInput {
        ident: name.to_owned(),
        attrs: vec![],
        data: RawData::Struct(RawFields::Named(fields)),
    }
}

fn fragment(name: &str, field: &str, target: &str) -> String {
    format!(
        "impl ::core::convert::AsRef<{}> for {} {{ fn as_ref(&self) -> &{} {{ &self.{} }} }}",
        target, name, target, field
    )
}

fn expand(input: &DeriveInput) -> Result<Vec<String>, AsRefError> {
    derive_asref::expand::derive(input)
}

fn refused(kind: ErrorKind, at: Location) -> Result<Vec<String>, AsRefError> {
    Err(AsRefError { kind, at })
}

#[test]
fn should_impl_asref() {
    // #[derive(AsRef)]
    // pub struct UserWithName {
    //     #[as_ref(target = "User")]
    //     inner: User,
    //     _name: String,
    // }
    let input = named(
        "UserWithName",
        vec![field("inner", vec![target("User")]), field("_name", vec![])],
    );
    assert_eq!(
        expand(&input),
        Ok(vec![
            "impl ::core::convert::AsRef<User> for UserWithName { fn as_ref(&self) -> &User { &self.inner } }"
                .to_owned()
        ])
    );
}

#[test]
fn wrapper_borrows_inner_only() {
    let input = named(
        "Wrapper",
        vec![field("inner", vec![target("Inner")]), field("label", vec![])],
    );
    assert_eq!(expand(&input), Ok(vec![fragment("Wrapper", "inner", "Inner")]));
}

#[test]
fn target_that_is_no_identifier_fails() {
    let input = named("Wrapper", vec![field("inner", vec![target("NotAnIdentifier!!")])]);
    assert_eq!(expand(&input), refused(ErrorKind::InvalidTarget, Location::FieldAttr(0, 0)));
}

#[test]
fn unrelated_attribute_is_ignored() {
    let serde = RawAttribute {
        path: path("serde"),
        args: AttrArgs::List(vec![pair("rename", text("x"))]),
    };
    let doc = RawAttribute { path: path("doc"), args: AttrArgs::NameValue(text(" a field")) };
    let odd = RawAttribute { path: path("weird"), args: AttrArgs::Unparsable };
    let input = named(
        "Wrapper",
        vec![
            field("inner", vec![serde, target("Inner"), doc]),
            field("label", vec![odd]),
        ],
    );
    assert_eq!(expand(&input), Ok(vec![fragment("Wrapper", "inner", "Inner")]));
}

#[test]
fn marker_under_another_path_is_ignored() {
    let mut global = target("Inner");
    global.path.leading_colon = true;
    let mut nested = target("Inner");
    nested.path.segments.insert(0, PathSegment { ident: "x".to_owned(), bare: true });
    let mut generic = target("Inner");
    generic.path.segments[0].bare = false;
    let input = named("Wrapper", vec![field("inner", vec![global, nested, generic])]);
    assert_eq!(expand(&input), Ok(vec![]));
}

#[test]
fn no_markers_no_output() {
    let input = named("Plain", vec![field("a", vec![]), field("b", vec![])]);
    assert_eq!(expand(&input), Ok(vec![]));
}

#[test]
fn several_targets_in_order() {
    let input = named(
        "Multi",
        vec![
            field("first", vec![target("A"), target("B")]),
            field("second", vec![target("C")]),
        ],
    );
    assert_eq!(
        expand(&input),
        Ok(vec![
            fragment("Multi", "first", "A"),
            fragment("Multi", "first", "B"),
            fragment("Multi", "second", "C"),
        ])
    );
}

#[test]
fn two_pairs_fail() {
    let bad = marker(vec![pair("target", text("A")), pair("target", text("B"))]);
    let input = named("S", vec![field("a", vec![bad])]);
    assert_eq!(expand(&input), refused(ErrorKind::InvalidFormat, Location::FieldAttr(0, 0)));
}

#[test]
fn zero_pairs_fail() {
    let input = named("S", vec![field("a", vec![]), field("b", vec![marker(vec![])])]);
    assert_eq!(expand(&input), refused(ErrorKind::InvalidFormat, Location::FieldAttr(1, 0)));
}

#[test]
fn bare_or_unparsable_marker_fails() {
    let bare = RawAttribute { path: path("as_ref"), args: AttrArgs::Path };
    let input = named("S", vec![field("a", vec![bare])]);
    assert_eq!(expand(&input), refused(ErrorKind::InvalidFormat, Location::FieldAttr(0, 0)));
    let assigned = RawAttribute { path: path("as_ref"), args: AttrArgs::NameValue(text("A")) };
    let input = named("S", vec![field("a", vec![assigned])]);
    assert_eq!(expand(&input), refused(ErrorKind::InvalidFormat, Location::FieldAttr(0, 0)));
    let broken = RawAttribute { path: path("as_ref"), args: AttrArgs::Unparsable };
    let input = named("S", vec![field("a", vec![broken])]);
    assert_eq!(expand(&input), refused(ErrorKind::InvalidFormat, Location::FieldAttr(0, 0)));
}

#[test]
fn item_that_is_no_pair_fails() {
    let flag = marker(vec![NestedMeta::Path(path("target"))]);
    let input = named("S", vec![field("a", vec![flag])]);
    assert_eq!(expand(&input), refused(ErrorKind::InvalidFormat, Location::FieldAttr(0, 0)));
    let lit = marker(vec![NestedMeta::Lit(text("A"))]);
    let input = named("S", vec![field("a", vec![lit])]);
    assert_eq!(expand(&input), refused(ErrorKind::InvalidFormat, Location::FieldAttr(0, 0)));
    let list = marker(vec![NestedMeta::List(path("target"))]);
    let input = named("S", vec![field("a", vec![list])]);
    assert_eq!(expand(&input), refused(ErrorKind::InvalidFormat, Location::FieldAttr(0, 0)));
}

#[test]
fn key_that_is_a_path_fails() {
    let key = AttrPath {
        leading_colon: false,
        segments: vec![
            PathSegment { ident: "a".to_owned(), bare: true },
            PathSegment { ident: "target".to_owned(), bare: true },
        ],
    };
    let bad = marker(vec![NestedMeta::NameValue(key, text("A"))]);
    let input = named("S", vec![field("a", vec![bad])]);
    assert_eq!(expand(&input), refused(ErrorKind::InvalidFormat, Location::FieldAttr(0, 0)));
}

#[test]
fn value_that_is_no_string_fails() {
    let bad = marker(vec![pair("target", Lit::Other)]);
    let input = named("S", vec![field("a", vec![target("A"), bad])]);
    assert_eq!(expand(&input), refused(ErrorKind::NotString, Location::FieldAttr(0, 1)));
}

#[test]
fn unknown_key_fails() {
    let bad = marker(vec![pair("tagret", text("A"))]);
    let input = named("S", vec![field("a", vec![bad])]);
    assert_eq!(expand(&input), refused(ErrorKind::UnsupportedKey, Location::FieldAttr(0, 0)));
}

#[test]
fn unit_struct_fails() {
    let input = DeriveInput {
        ident: "S".to_owned(),
        attrs: vec![target("A")],
        data: RawData::Struct(RawFields::Unit),
    };
    assert_eq!(expand(&input), refused(ErrorKind::NoField, Location::Item));
}

#[test]
fn empty_struct_fails() {
    assert_eq!(expand(&named("S", vec![])), refused(ErrorKind::NoField, Location::Item));
    let input = DeriveInput {
        ident: "S".to_owned(),
        attrs: vec![],
        data: RawData::Struct(RawFields::Unnamed(vec![])),
    };
    assert_eq!(expand(&input), refused(ErrorKind::NoField, Location::Item));
}

#[test]
fn tuple_struct_fails() {
    let input = DeriveInput {
        ident: "S".to_owned(),
        attrs: vec![],
        data: RawData::Struct(RawFields::Unnamed(vec![
            RawField { ident: None, attrs: vec![] },
            RawField { ident: None, attrs: vec![target("A")] },
        ])),
    };
    assert_eq!(expand(&input), refused(ErrorKind::UnnamedField, Location::Field(0)));
}

#[test]
fn field_markers_are_read_before_its_name() {
    let input = DeriveInput {
        ident: "S".to_owned(),
        attrs: vec![],
        data: RawData::Struct(RawFields::Unnamed(vec![RawField {
            ident: None,
            attrs: vec![target("A!")],
        }])),
    };
    assert_eq!(expand(&input), refused(ErrorKind::InvalidTarget, Location::FieldAttr(0, 0)));
}

#[test]
fn enum_and_union_fail() {
    for data in [RawData::Enum, RawData::Union] {
        let input = DeriveInput { ident: "E".to_owned(), attrs: vec![], data };
        assert_eq!(expand(&input), refused(ErrorKind::NotStruct, Location::Item));
    }
}

#[test]
fn struct_markers_generate_nothing() {
    let mut input = named("S", vec![field("a", vec![])]);
    input.attrs = vec![target("A")];
    assert_eq!(expand(&input), Ok(vec![]));
}

#[test]
fn struct_markers_are_read_after_fields() {
    let mut input = named("S", vec![field("a", vec![]), field("b", vec![marker(vec![])])]);
    input.attrs = vec![marker(vec![pair("key", text("A"))])];
    assert_eq!(expand(&input), refused(ErrorKind::InvalidFormat, Location::FieldAttr(1, 0)));
    let mut input = named("S", vec![field("a", vec![target("A")])]);
    input.attrs = vec![target("B"), marker(vec![pair("key", text("A"))])];
    assert_eq!(expand(&input), refused(ErrorKind::UnsupportedKey, Location::ItemAttr(1)));
}

#[test]
fn target_is_kept_as_written() {
    for t in ["Inner", "_", "_0", "struct", "Self", "\u{e9}", "e\u{301}", "\u{4e2d}\u{6587}"] {
        let input = named("S", vec![field("a", vec![target(t)])]);
        assert_eq!(expand(&input), Ok(vec![fragment("S", "a", t)]), "{}", t);
    }
}

#[test]
fn target_that_is_no_single_identifier_fails() {
    for t in ["", " Inner ", "r#Inner", "1abc", "123", "A B", "a::B", "Vec<u8>", "a-b", "\u{301}e"] {
        let input = named("S", vec![field("a", vec![target(t)])]);
        assert_eq!(
            expand(&input),
            refused(ErrorKind::InvalidTarget, Location::FieldAttr(0, 0)),
            "{}",
            t
        );
    }
}

#[test]
fn identifier_check() {
    assert!(is_ident_str("Inner"));
    assert!(is_ident_str("_"));
    assert!(is_ident_str("a1_b"));
    assert!(is_ident_str("\u{e9}t\u{e9}"));
    assert!(!is_ident_str(""));
    assert!(!is_ident_str("9a"));
    assert!(!is_ident_str("a b"));
    assert!(!is_ident_str("a!"));
}

#[test]
fn model_keeps_fields_and_markers() {
    let mut input = named(
        "S",
        vec![field("a", vec![target("A"), target("B")]), field("b", vec![])],
    );
    input.attrs = vec![target("C")];
    let model = Struct::try_from(&input).ok().unwrap();
    assert_eq!(model.ident, "S");
    assert_eq!(model.fields.len(), 2);
    assert_eq!(model.fields[0].ident, "a");
    assert_eq!(model.fields[1].ident, "b");
    assert_eq!(model.fields[1].attrs.len(), 0);
    let targets: Vec<&str> = model.fields[0]
        .attrs
        .iter()
        .map(|a| a.to_target().unwrap().target.as_str())
        .collect();
    assert_eq!(targets, vec!["A", "B"]);
    assert_eq!(model.attrs[0].to_target().unwrap().target, "C");
}

#[test]
fn field_reports_its_index() {
    let raw = RawField { ident: None, attrs: vec![] };
    assert_eq!(
        Field::try_from(&raw, 3).err(),
        Some(AsRefError { kind: ErrorKind::UnnamedField, at: Location::Field(3) })
    );
    let raw = RawField { ident: Some("x".to_owned()), attrs: vec![marker(vec![])] };
    assert_eq!(
        Field::try_from(&raw, 2).err(),
        Some(AsRefError { kind: ErrorKind::InvalidFormat, at: Location::FieldAttr(2, 0) })
    );
}

#[test]
fn attribute_parses_target() {
    let parsed = Attribute::try_from(&target("Inner")).ok().unwrap();
    assert_eq!(parsed.to_target().unwrap().target, "Inner");
    let other = RawAttribute { path: path("serde"), args: AttrArgs::Path };
    assert_eq!(Attribute::try_from(&other).err(), Some(ErrorKind::InvalidFormat));
}
