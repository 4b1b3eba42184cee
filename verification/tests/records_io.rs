use instant_xml::Error;
use instant_xml::records::{Bar, Baz, Foo, ManyField, OneField, StructWithNamedFields};

#[test]
fn wrapped_enum() {
    let v = Foo::Bar(Bar { bar: 42 });
    assert_eq!(v.to_xml().unwrap(), "<Bar><bar>42</bar></Bar>");
    assert_eq!(Foo::from_xml("<Bar><bar>42</bar></Bar>").unwrap(), v);
}

#[test]
fn struct_with_named_fields() {
    assert_eq!(
        StructWithNamedFields { flag: true, string: "test".to_string(), number: 1 }
            .to_xml()
            .unwrap(),
        "<StructWithNamedFields xmlns:bar=\"BAZ\" xmlns:foo=\"BAR\"><flag>true</flag><bar:string>test</bar:string><number xmlns=\"typo\">1</number></StructWithNamedFields>"
    );
}

#[test]
fn forward_enum_other_variant() {
    let v = Foo::Baz(Baz { baz: "a&b".to_string() });
    let xml = v.to_xml().unwrap();
    assert_eq!(xml, "<Baz><baz>a&amp;b</baz></Baz>");
    assert_eq!(Foo::from_xml(&xml).unwrap(), v);
}

#[test]
fn forward_enum_unknown_variant() {
    assert_eq!(Foo::from_xml("<Quux/>"), Err(Error::UnexpectedTag));
}

#[test]
fn duplicate_once_optional_field() {
    assert_eq!(
        OneField::from_xml("<r><x>1</x><x>2</x></r>"),
        Err(Error::DuplicateValue)
    );
}

#[test]
fn unknown_children_are_skipped() {
    assert_eq!(
        OneField::from_xml("<r><y><z>deep</z><w/></y><x>7</x><q/></r>").unwrap(),
        OneField { x: 7 }
    );
}

#[test]
fn sequence_field_collects_in_order() {
    assert_eq!(
        ManyField::from_xml("<r><x>1</x><x>2</x><x>3</x></r>").unwrap(),
        ManyField { xs: vec![1, 2, 3] }
    );
    assert_eq!(ManyField::from_xml("<r/>").unwrap(), ManyField { xs: vec![] });
}

#[test]
fn sequence_serializes_each_item() {
    let v = ManyField { xs: vec![1, 2, 3] };
    assert_eq!(v.to_xml().unwrap(), "<r><x>1</x><x>2</x><x>3</x></r>");
    let none = ManyField { xs: vec![] };
    assert_eq!(none.to_xml().unwrap(), "<r></r>");
}

#[test]
fn record_round_trips() {
    let v = OneField { x: 4294967295 };
    let xml = v.to_xml().unwrap();
    assert_eq!(xml, "<r><x>4294967295</x></r>");
    assert_eq!(OneField::from_xml(&xml).unwrap(), v);

    let m = ManyField { xs: vec![0, 10, 42] };
    assert_eq!(ManyField::from_xml(&m.to_xml().unwrap()).unwrap(), m);

    let b = Bar { bar: 0 };
    assert_eq!(Bar::from_xml(&b.to_xml().unwrap()).unwrap(), b);
}

#[test]
fn missing_required_field() {
    assert_eq!(OneField::from_xml("<r></r>"), Err(Error::MissingValue));
    assert_eq!(OneField::from_xml("<r/>"), Err(Error::MissingValue));
    assert_eq!(OneField::from_xml("<r><x/></r>"), Err(Error::MissingValue));
}

#[test]
fn mismatched_root() {
    assert_eq!(OneField::from_xml("<q><x>1</x></q>"), Err(Error::UnexpectedTag));
}

#[test]
fn wrong_namespace_on_root() {
    assert_eq!(
        OneField::from_xml("<r xmlns=\"other\"><x>1</x></r>"),
        Err(Error::WrongNamespace)
    );
}

#[test]
fn unparsable_scalar_text() {
    assert_eq!(OneField::from_xml("<r><x>abc</x></r>"), Err(Error::UnexpectedValue));
    assert_eq!(
        OneField::from_xml("<r><x>4294967296</x></r>"),
        Err(Error::UnexpectedValue)
    );
    assert_eq!(Bar::from_xml("<Bar><bar>256</bar></Bar>"), Err(Error::UnexpectedValue));
}

#[test]
fn invalid_entity_inside_field() {
    assert_eq!(
        OneField::from_xml("<r><x>&nope;</x></r>"),
        Err(Error::InvalidEntity("nope".to_string()))
    );
}

#[test]
fn lexical_error_is_parse() {
    assert_eq!(Bar::from_xml("<Bar bar=1/>"), Err(Error::Parse));
    assert_eq!(Bar::from_xml("<Bar"), Err(Error::UnexpectedEndOfStream));
}

#[test]
fn numeric_scalars_round_trip_through_text() {
    let b = Bar { bar: 255 };
    assert_eq!(b.to_xml().unwrap(), "<Bar><bar>255</bar></Bar>");
    assert_eq!(Bar::from_xml("<Bar><bar>255</bar></Bar>").unwrap(), b);
    assert_eq!(Bar::from_xml("<Bar><bar>+7</bar></Bar>").unwrap(), Bar { bar: 7 });
}
