use instant_xml::{Error, Id};
use instant_xml::adapters::{
    bool_to_str, deserialize_str, deserialize_string, deserialize_text, from_xml_str,
    finalize_required, OptionAccumulator,
};
use instant_xml::de::Deserializer;
use instant_xml::num::{i64_to_string, parse_i64, parse_u64, u64_to_string};
use instant_xml::scope::{Binding, Frame, ScopeStack};
use instant_xml::ser::{
    display_opt_to_xml, display_to_xml, FieldAttribute, FieldContext, Serializer,
};
use instant_xml::token::{tokenize, XmlToken};

#[test]
fn scope_stack_resolution_and_balance() {
    let mut stack = ScopeStack::new();
    let outer = stack.push(Frame {
        default_ns: "d1".to_string(),
        bindings: vec![Binding { prefix: "a".to_string(), uri: "u1".to_string() }],
    });
    assert_eq!(stack.effective_default(), "d1");
    assert_eq!(stack.resolve_prefix_binding("a"), Some("u1".to_string()));
    assert_eq!(stack.resolve_prefix_binding("b"), None);

    let inner = stack.push(Frame {
        default_ns: "d2".to_string(),
        bindings: vec![
            Binding { prefix: "b".to_string(), uri: "u2".to_string() },
            Binding { prefix: "a".to_string(), uri: "u3".to_string() },
        ],
    });
    assert_eq!(stack.effective_default(), "d2");
    // the nearest enclosing declaration shadows the outer one
    assert_eq!(stack.resolve_prefix_binding("a"), Some("u3".to_string()));
    assert_eq!(stack.resolve_prefix_binding("b"), Some("u2".to_string()));
    // for serialization the outermost declaration of a URI wins
    assert_eq!(stack.resolve_prefix_from_uri("u1"), Some("a".to_string()));

    stack.pop(inner);
    assert_eq!(stack.effective_default(), "d1");
    assert_eq!(stack.resolve_prefix_binding("b"), None);
    assert_eq!(stack.resolve_prefix_binding("a"), Some("u1".to_string()));
    stack.pop(outer);
    assert_eq!(stack.effective_default(), "");
    assert_eq!(stack.resolve_prefix_binding("a"), None);
}

#[test]
fn no_redundant_default_declaration() {
    let mut s = Serializer::new();
    // effective default is "" outside any frame: declaring "" adds nothing
    s.write_start(None, "a", Some("")).unwrap();
    s.end_start().unwrap();
    s.write_close(None, "a").unwrap();
    assert_eq!(s.output, "<a></a>");

    let mut t = Serializer::new();
    t.write_start(None, "a", Some("ns")).unwrap();
    t.end_start().unwrap();
    t.write_close(None, "a").unwrap();
    assert_eq!(t.output, "<a xmlns=\"ns\"></a>");
}

#[test]
fn push_suppresses_outer_declared_uris() {
    let mut s = Serializer::new();
    s.write_start(None, "a", None).unwrap();
    let outer = s
        .push(Frame {
            default_ns: "".to_string(),
            bindings: vec![Binding { prefix: "p".to_string(), uri: "u".to_string() }],
        })
        .unwrap();
    s.end_start().unwrap();
    s.write_start(None, "b", None).unwrap();
    let inner = s
        .push(Frame {
            default_ns: "".to_string(),
            bindings: vec![
                Binding { prefix: "q".to_string(), uri: "u".to_string() },
                Binding { prefix: "r".to_string(), uri: "v".to_string() },
            ],
        })
        .unwrap();
    s.end_start().unwrap();
    s.write_close(None, "b").unwrap();
    s.pop(inner);
    s.write_close(None, "a").unwrap();
    s.pop(outer);
    // "u" is already declared outside, so only "v" is declared on <b>
    assert_eq!(s.output, "<a xmlns:p=\"u\"><b xmlns:r=\"v\"></b></a>");
}

#[test]
fn serializer_state_machine_guards() {
    let mut s = Serializer::new();
    assert_eq!(s.end_start(), Err(Error::UnexpectedState));
    assert_eq!(s.write_attr("k", "v"), Err(Error::UnexpectedState));
    s.write_start(None, "a", None).unwrap();
    assert_eq!(s.write_start(None, "b", None), Err(Error::UnexpectedState));
    s.write_attr("k", "a&b").unwrap();
    s.end_start().unwrap();
    s.write_str("x<y").unwrap();
    s.write_close(None, "a").unwrap();
    assert_eq!(s.output, "<a k=\"a&amp;b\">x&lt;y</a>");
}

#[test]
fn field_context_staging() {
    let mut s = Serializer::new();
    s.add_attribute_key("class").unwrap();
    s.add_attribute_value("top").unwrap();
    s.add_attribute_key("alt").unwrap();
    s.add_attribute_value("a&b").unwrap();
    s.consume_current_attributes().unwrap();
    assert_eq!(s.output, " class=\"top\" alt=\"a&amp;b\"");
    assert_eq!(s.current_attributes, "");

    s.set_field_context(FieldContext { name: "f".to_string(), attribute: None }).unwrap();
    assert_eq!(
        s.set_field_context(FieldContext { name: "g".to_string(), attribute: None }),
        Err(Error::UnexpectedState)
    );
    let fc = s.consume_field_context().unwrap();
    assert_eq!(fc.name, "f");
    assert!(s.consume_field_context().is_none());
}

#[test]
fn field_context_tags() {
    let mut s = Serializer::new();
    let fc = FieldContext {
        name: "n".to_string(),
        attribute: Some(FieldAttribute::Prefix("p".to_string())),
    };
    s.add_open_tag(&fc).unwrap();
    s.add_close_tag(fc).unwrap();
    assert_eq!(s.output, "<p:n></p:n>");

    let mut t = Serializer::new();
    t.set_parent_default_namespace("ns").unwrap();
    assert_eq!(t.parent_default_namespace(), "ns");
    let same = FieldContext {
        name: "n".to_string(),
        attribute: Some(FieldAttribute::Namespace("ns".to_string())),
    };
    t.add_open_tag(&same).unwrap();
    // the namespace equals the parent default: no inline declaration
    assert_eq!(t.output, "<n>");

    let differs = FieldContext {
        name: "m".to_string(),
        attribute: Some(FieldAttribute::Namespace("other".to_string())),
    };
    t.add_open_tag(&differs).unwrap();
    assert_eq!(t.output, "<n><m xmlns=\"other\">");

    t.update_parent_default_namespace("inner");
    assert_eq!(t.parent_default_namespace(), "inner");
    t.retrieve_parent_default_namespace();
    assert_eq!(t.parent_default_namespace(), "ns");
}

#[test]
fn display_to_xml_wraps_scalars() {
    let mut s = Serializer::new();
    s.write_start(None, "root", None).unwrap();
    let tok = s
        .push(Frame {
            default_ns: "".to_string(),
            bindings: vec![Binding { prefix: "p".to_string(), uri: "known".to_string() }],
        })
        .unwrap();
    s.end_start().unwrap();
    let in_default = Id { ns: "".to_string(), name: "a".to_string() };
    display_to_xml("1", Some(&in_default), &mut s).unwrap();
    let prefixed = Id { ns: "known".to_string(), name: "b".to_string() };
    display_to_xml("2", Some(&prefixed), &mut s).unwrap();
    let inline = Id { ns: "fresh".to_string(), name: "c".to_string() };
    display_to_xml("3&", Some(&inline), &mut s).unwrap();
    display_opt_to_xml(&None, Some(&in_default), &mut s).unwrap();
    display_opt_to_xml(&Some("4".to_string()), Some(&in_default), &mut s).unwrap();
    s.write_close(None, "root").unwrap();
    s.pop(tok);
    assert_eq!(
        s.output,
        "<root xmlns:p=\"known\"><a>1</a><p:b>2</p:b><c xmlns=\"fresh\">3&amp;</c><a>4</a></root>"
    );
}

#[test]
fn borrowed_text_needs_no_substitution() {
    let toks = tokenize("<x>hi</x>").unwrap();
    let mut de = Deserializer::new(toks);
    de.enter_element(None).unwrap();
    let mut into: Option<String> = None;
    deserialize_str(&mut de, &mut into).unwrap();
    assert_eq!(into, Some("hi".to_string()));
    de.exit_element().unwrap();

    let toks = tokenize("<x>hi &amp; bye</x>").unwrap();
    let mut de = Deserializer::new(toks);
    de.enter_element(None).unwrap();
    let mut into: Option<String> = None;
    assert_eq!(deserialize_str(&mut de, &mut into), Err(Error::UnexpectedValue));
    assert_eq!(into, None);
}

#[test]
fn owned_and_cow_text_decode() {
    let toks = tokenize("<x>hi &amp; bye</x>").unwrap();
    let mut de = Deserializer::new(toks);
    de.enter_element(None).unwrap();
    let mut into: Option<String> = None;
    deserialize_string(&mut de, &mut into).unwrap();
    assert_eq!(into, Some("hi & bye".to_string()));

    let toks = tokenize("<x>hi &amp; bye</x>").unwrap();
    let mut de = Deserializer::new(toks);
    de.enter_element(None).unwrap();
    let mut cow = None;
    deserialize_text(&mut de, &mut cow).unwrap();
    let coded = cow.unwrap();
    assert_eq!(coded.text, "hi & bye");
    assert!(coded.substituted);
}

#[test]
fn duplicate_value_guard_in_adapter() {
    let toks = tokenize("<x>1</x>").unwrap();
    let mut de = Deserializer::new(toks);
    de.enter_element(None).unwrap();
    let mut into: Option<u32> = Some(9);
    assert_eq!(from_xml_str::<u32>(&mut de, &mut into), Err(Error::DuplicateValue));
    assert_eq!(into, Some(9));
}

#[test]
fn deserializer_over_hand_built_tokens() {
    let toks = vec![
        XmlToken::Misc,
        XmlToken::ElemStart { prefix: "".to_string(), local: "x".to_string() },
        XmlToken::StartClose,
        XmlToken::Text { raw: "4".to_string() },
        XmlToken::Text { raw: "2".to_string() },
        XmlToken::ElemClose { prefix: "".to_string(), local: "x".to_string() },
    ];
    let mut de = Deserializer::new(toks);
    de.enter_element(None).unwrap();
    let mut into: Option<u8> = None;
    from_xml_str::<u8>(&mut de, &mut into).unwrap();
    assert_eq!(into, Some(42));
    de.exit_element().unwrap();
}

#[test]
fn attributes_resolve_prefixes() {
    let toks = tokenize("<a xmlns:k=\"u\" plain=\"1\" k:deep=\"2&amp;3\"/>").unwrap();
    let mut de = Deserializer::new(toks);
    de.enter_element(None).unwrap();
    let (id, raw) = de.next_attribute().unwrap().unwrap();
    assert_eq!(id.ns, "");
    assert_eq!(id.name, "plain");
    assert_eq!(raw, "1");
    let (id, raw) = de.next_attribute().unwrap().unwrap();
    assert_eq!(id.ns, "u");
    assert_eq!(id.name, "deep");
    assert_eq!(raw, "2&amp;3");
    assert!(de.next_attribute().unwrap().is_none());
    de.exit_element().unwrap();
}

#[test]
fn child_namespace_declarations_apply() {
    let toks = tokenize("<a><b xmlns=\"typo\">1</b></a>").unwrap();
    let mut de = Deserializer::new(toks);
    de.enter_element(None).unwrap();
    assert!(de.next_child().unwrap());
    let id = de.current_id();
    assert_eq!(id.ns, "typo");
    assert_eq!(id.name, "b");
    de.skip_element().unwrap();
    assert!(!de.next_child().unwrap());
    de.exit_element().unwrap();
}

#[test]
fn unknown_prefix_is_missing() {
    let toks = tokenize("<no:pe>1</no:pe>").unwrap();
    let mut de = Deserializer::new(toks);
    assert_eq!(de.enter_element(None), Err(Error::MissingPrefix));
}

#[test]
fn mixed_content_is_rejected() {
    let toks = tokenize("<a>text<b/></a>").unwrap();
    let mut de = Deserializer::new(toks);
    de.enter_element(None).unwrap();
    assert_eq!(de.next_child(), Err(Error::UnexpectedToken));
}

#[test]
fn option_accumulator_finalizes() {
    let acc: OptionAccumulator<u32> = OptionAccumulator::default();
    assert_eq!(acc.try_done(), Ok(None));
    let full = OptionAccumulator { value: Some(3u32) };
    assert_eq!(full.try_done(), Ok(Some(3)));
    assert_eq!(finalize_required::<u32>(None), Err(Error::MissingValue));
    assert_eq!(finalize_required(Some(5u32)), Ok(5));
}

#[test]
fn numeric_text_forms() {
    assert_eq!(u64_to_string(0), "0");
    assert_eq!(u64_to_string(18446744073709551615), "18446744073709551615");
    assert_eq!(i64_to_string(-9223372036854775808), "-9223372036854775808");
    assert_eq!(i64_to_string(120), "120");
    assert_eq!(parse_u64("18446744073709551615"), Some(18446744073709551615));
    assert_eq!(parse_u64("18446744073709551616"), None);
    assert_eq!(parse_u64("+12"), Some(12));
    assert_eq!(parse_u64(""), None);
    assert_eq!(parse_u64("1a"), None);
    assert_eq!(parse_i64("-9223372036854775808"), Some(-9223372036854775808));
    assert_eq!(parse_i64("-9223372036854775809"), None);
    assert_eq!(parse_i64("-+5"), None);
    assert_eq!(bool_to_str(true), "true");
    assert_eq!(bool_to_str(false), "false");
}

#[test]
fn char_adapter_wants_one_character() {
    let toks = tokenize("<x>é</x>").unwrap();
    let mut de = Deserializer::new(toks);
    de.enter_element(None).unwrap();
    let mut into: Option<char> = None;
    from_xml_str::<char>(&mut de, &mut into).unwrap();
    assert_eq!(into, Some('é'));

    let toks = tokenize("<x>ab</x>").unwrap();
    let mut de = Deserializer::new(toks);
    de.enter_element(None).unwrap();
    let mut into: Option<char> = None;
    assert_eq!(from_xml_str::<char>(&mut de, &mut into), Err(Error::UnexpectedValue));
}

#[test]
fn signed_adapter_handles_signs() {
    let toks = tokenize("<x>-120</x>").unwrap();
    let mut de = Deserializer::new(toks);
    de.enter_element(None).unwrap();
    let mut into: Option<i64> = None;
    from_xml_str::<i64>(&mut de, &mut into).unwrap();
    assert_eq!(into, Some(-120));
}

#[test]
fn empty_element_leaves_accumulator_empty() {
    let toks = tokenize("<x/>").unwrap();
    let mut de = Deserializer::new(toks);
    de.enter_element(None).unwrap();
    let mut into: Option<u32> = None;
    from_xml_str::<u32>(&mut de, &mut into).unwrap();
    assert_eq!(into, None);
    de.exit_element().unwrap();
}

#[test]
fn ids_and_kinds() {
    let a = Id { ns: "u".to_string(), name: "n".to_string() };
    let b = Id { ns: "u".to_string(), name: "n".to_string() };
    let c = Id { ns: "".to_string(), name: "n".to_string() };
    assert!(a.matches(&b));
    assert!(!a.matches(&c));

    match (instant_xml::records::Bar { bar: 1 }).kind() {
        instant_xml::Kind::Element(id) => {
            assert_eq!(id.name, "Bar");
            assert_eq!(id.ns, "");
        }
        instant_xml::Kind::Scalar => panic!("a record is no text leaf"),
    }

    let named = instant_xml::ser::TagName::Custom("n");
    match named {
        instant_xml::ser::TagName::Custom(n) => assert_eq!(n, "n"),
        instant_xml::ser::TagName::FieldName => panic!("a fixed name was chosen"),
    }
}

#[test]
fn sequence_adapter_appends_per_occurrence() {
    let toks = tokenize("<x>1</x>").unwrap();
    let mut de = Deserializer::new(toks);
    de.enter_element(None).unwrap();
    let mut xs: Vec<u32> = vec![7];
    instant_xml::adapters::from_xml_seq::<u32>(&mut de, &mut xs).unwrap();
    assert_eq!(xs, vec![7, 1]);
    de.exit_element().unwrap();

    let toks = tokenize("<x/>").unwrap();
    let mut de = Deserializer::new(toks);
    de.enter_element(None).unwrap();
    let mut xs: Vec<u32> = vec![];
    assert_eq!(
        instant_xml::adapters::from_xml_seq::<u32>(&mut de, &mut xs),
        Err(Error::MissingValue)
    );
    assert_eq!(xs, vec![]);
}

#[test]
fn option_adapter_delegates_to_inner() {
    let toks = tokenize("<x>5</x>").unwrap();
    let mut de = Deserializer::new(toks);
    de.enter_element(None).unwrap();
    let mut acc: OptionAccumulator<u32> = OptionAccumulator::default();
    instant_xml::adapters::from_xml_opt::<u32>(&mut de, &mut acc).unwrap();
    assert_eq!(
        instant_xml::adapters::from_xml_opt::<u32>(&mut de, &mut acc),
        Err(Error::DuplicateValue)
    );
    assert_eq!(acc.try_done(), Ok(Some(5)));

    let empty: OptionAccumulator<u32> = OptionAccumulator::default();
    assert_eq!(empty.try_done(), Ok(None));
}

#[test]
fn narrow_integer_adapters_check_ranges() {
    let cases = [
        ("300", true),
        ("70000", false),
    ];
    let mut k: usize = 0;
    while k < cases.len() {
        let (text, fits_u16) = cases[k];
        let doc = format!("<x>{}</x>", text);
        let toks = tokenize(&doc).unwrap();
        let mut de = Deserializer::new(toks);
        de.enter_element(None).unwrap();
        let mut into: Option<u16> = None;
        let got = from_xml_str::<u16>(&mut de, &mut into);
        if fits_u16 {
            assert!(got.is_ok());
        } else {
            assert_eq!(got, Err(Error::UnexpectedValue));
        }
        k += 1;
    }

    let toks = tokenize("<x>-128</x>").unwrap();
    let mut de = Deserializer::new(toks);
    de.enter_element(None).unwrap();
    let mut into: Option<i8> = None;
    from_xml_str::<i8>(&mut de, &mut into).unwrap();
    assert_eq!(into, Some(-128));

    let toks = tokenize("<x>-129</x>").unwrap();
    let mut de = Deserializer::new(toks);
    de.enter_element(None).unwrap();
    let mut into: Option<i8> = None;
    assert_eq!(from_xml_str::<i8>(&mut de, &mut into), Err(Error::UnexpectedValue));
}
