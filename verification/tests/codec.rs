use svd_parser::scalar::format_hex8;
use svd_parser::scalar::parse_bool_text;
use svd_parser::scalar::parse_u32_text;
use svd_parser::EnumeratedValue;
use svd_parser::EnumeratedValues;
use svd_parser::FieldError;
use svd_parser::SvdError;
use svd_parser::Usage;
use svd_parser::XmlNode;

fn text_el(tag: &str, text: &str) -> XmlNode {
    XmlNode {
        name: String::from(tag),
        attributes: Vec::new(),
        children: Vec::new(),
        text: Some(String::from(text)),
    }
}

fn entry(children: Vec<XmlNode>) -> XmlNode {
    XmlNode {
        name: String::from("enumeratedValue"),
        attributes: Vec::new(),
        children,
        text: None,
    }
}

fn collection(attributes: Vec<(String, String)>, children: Vec<XmlNode>) -> XmlNode {
    XmlNode {
        name: String::from("enumeratedValues"),
        attributes,
        children,
        text: None,
    }
}

#[test]
fn numeric_formatting_is_fixed_width_lowercase_hex() {
    assert_eq!(format_hex8(0), "0x00000000");
    assert_eq!(format_hex8(1), "0x00000001");
    assert_eq!(format_hex8(0xdead_beef), "0xdeadbeef");
    assert_eq!(format_hex8(u32::MAX), "0xffffffff");
}

#[test]
fn numeric_literal_grammar() {
    assert_eq!(parse_u32_text("42"), Some(42));
    assert_eq!(parse_u32_text("0"), Some(0));
    assert_eq!(parse_u32_text("0x2a"), Some(42));
    assert_eq!(parse_u32_text("0X2A"), Some(42));
    assert_eq!(parse_u32_text("0b101010"), Some(42));
    assert_eq!(parse_u32_text("0B101010"), Some(42));
    assert_eq!(parse_u32_text("#101010"), Some(42));
    assert_eq!(parse_u32_text("4294967295"), Some(u32::MAX));
    assert_eq!(parse_u32_text("0xffffffff"), Some(u32::MAX));
    assert_eq!(parse_u32_text("4294967296"), None);
    assert_eq!(parse_u32_text("0x100000000"), None);
    assert_eq!(parse_u32_text(""), None);
    assert_eq!(parse_u32_text("0x"), None);
    assert_eq!(parse_u32_text("#"), None);
    assert_eq!(parse_u32_text("12junk"), None);
    assert_eq!(parse_u32_text("-1"), None);
    assert_eq!(parse_u32_text("0b2"), None);
}

#[test]
fn boolean_literal_tokens_are_exact() {
    assert_eq!(parse_bool_text("true"), Some(true));
    assert_eq!(parse_bool_text("false"), Some(false));
    assert_eq!(parse_bool_text("True"), None);
    assert_eq!(parse_bool_text("TRUE"), None);
    assert_eq!(parse_bool_text("1"), None);
    assert_eq!(parse_bool_text(""), None);
}

#[test]
fn usage_closed_enumeration() {
    assert_eq!(Usage::parse(&text_el("usage", "read")).unwrap(), Usage::Read);
    assert_eq!(
        Usage::parse(&text_el("usage", "write")).unwrap(),
        Usage::Write
    );
    assert_eq!(
        Usage::parse(&text_el("usage", "read-write")).unwrap(),
        Usage::ReadWrite
    );
    let err = Usage::parse(&text_el("usage", "readwrite"));
    assert!(matches!(err, Err(FieldError::UnknownUsageVariant(t)) if t == "readwrite"));
    let empty = XmlNode {
        name: String::from("usage"),
        attributes: Vec::new(),
        children: Vec::new(),
        text: None,
    };
    assert!(matches!(
        Usage::parse(&empty),
        Err(FieldError::EmptyTag(t)) if t == "usage"
    ));
}

#[test]
fn usage_encodes_its_token() {
    let n = Usage::ReadWrite.encode().unwrap();
    assert_eq!(n.name, "usage");
    assert_eq!(n.text.as_deref(), Some("read-write"));
    assert!(n.children.is_empty());
    assert!(n.attributes.is_empty());
}

#[test]
fn entry_requires_a_name() {
    let e = EnumeratedValue::parse(&entry(vec![text_el("value", "0x01")]));
    assert!(matches!(e, Err(FieldError::MissingTag(t)) if t == "name"));
}

#[test]
fn entry_name_child_must_carry_text() {
    let nameless = XmlNode {
        name: String::from("name"),
        attributes: Vec::new(),
        children: Vec::new(),
        text: None,
    };
    let e = EnumeratedValue::parse(&entry(vec![nameless]));
    assert!(matches!(e, Err(FieldError::EmptyTag(t)) if t == "name"));
}

#[test]
fn entry_rejects_bad_number() {
    let e = EnumeratedValue::parse(&entry(vec![
        text_el("name", "A"),
        text_el("value", "junk"),
    ]));
    assert!(matches!(e, Err(FieldError::InvalidNumber(t)) if t == "junk"));
}

#[test]
fn entry_rejects_bad_bool() {
    let e = EnumeratedValue::parse(&entry(vec![
        text_el("name", "A"),
        text_el("isDefault", "maybe"),
    ]));
    assert!(matches!(e, Err(FieldError::InvalidBool(t)) if t == "maybe"));
}

#[test]
fn optional_fields_decode_to_absent() {
    let v = EnumeratedValue::parse(&entry(vec![text_el("name", "A")])).unwrap();
    assert_eq!(
        v,
        EnumeratedValue {
            name: String::from("A"),
            description: None,
            value: None,
            is_default: None,
        }
    );
    let c = collection(Vec::new(), Vec::new());
    let r = EnumeratedValues::parse(&c).unwrap();
    assert_eq!(r.name, None);
    assert_eq!(r.usage, None);
    assert_eq!(r.derived_from, None);
    assert!(r.values.is_empty());
}

#[test]
fn optional_fields_are_omitted_when_encoding() {
    let v = EnumeratedValue {
        name: String::from("A"),
        description: None,
        value: None,
        is_default: None,
    };
    let n = v.encode().unwrap();
    assert_eq!(n.children.len(), 1);
    assert_eq!(n.children[0].name, "name");
    let false_default = EnumeratedValue {
        name: String::from("A"),
        description: None,
        value: None,
        is_default: Some(false),
    };
    let n2 = false_default.encode().unwrap();
    assert!(n2.children.iter().all(|c| c.name != "isDefault"));
    let r = EnumeratedValues {
        name: None,
        usage: None,
        derived_from: None,
        values: Vec::new(),
    };
    let node = r.encode().unwrap();
    assert!(node.children.is_empty());
    assert!(node.attributes.is_empty());
}

#[test]
fn collection_propagates_bad_usage() {
    let doc = collection(Vec::new(), vec![text_el("usage", "sometimes")]);
    let e = EnumeratedValues::parse(&doc);
    assert!(matches!(
        e,
        Err(SvdError::Field(FieldError::UnknownUsageVariant(t))) if t == "sometimes"
    ));
}

#[test]
fn collection_name_child_must_carry_text() {
    let nameless = XmlNode {
        name: String::from("name"),
        attributes: Vec::new(),
        children: Vec::new(),
        text: None,
    };
    let e = EnumeratedValues::parse(&collection(Vec::new(), vec![nameless]));
    assert!(matches!(e, Err(SvdError::Field(FieldError::EmptyTag(t))) if t == "name"));
}

#[test]
fn collection_decodes_name_and_usage() {
    let doc = collection(
        Vec::new(),
        vec![text_el("name", "WaitStates"), text_el("usage", "read-write")],
    );
    let r = EnumeratedValues::parse(&doc).unwrap();
    assert_eq!(r.name.as_deref(), Some("WaitStates"));
    assert_eq!(r.usage, Some(Usage::ReadWrite));
}

#[test]
fn error_ordinal_counts_entries_only() {
    // The third entry's value is unparsable; unrelated siblings in between
    // must not shift its 0-based ordinal of 2.
    let doc = collection(
        Vec::new(),
        vec![
            text_el("unrelated", "x"),
            entry(vec![text_el("name", "A"), text_el("value", "0x01")]),
            text_el("alsoUnrelated", "y"),
            entry(vec![text_el("name", "B")]),
            entry(vec![text_el("name", "C"), text_el("value", "junk")]),
        ],
    );
    let e = EnumeratedValues::parse(&doc);
    assert!(matches!(
        e,
        Err(SvdError::InEnumeratedValue(2, FieldError::InvalidNumber(t))) if t == "junk"
    ));
}

#[test]
fn derived_from_carries_through_verbatim() {
    let doc = collection(
        vec![(
            String::from("derivedFrom"),
            String::from("fake-derivation.png"),
        )],
        Vec::new(),
    );
    let r = EnumeratedValues::parse(&doc).unwrap();
    assert_eq!(r.derived_from.as_deref(), Some("fake-derivation.png"));
    assert!(r.values.is_empty());
    let node = r.encode().unwrap();
    assert_eq!(node.attributes.len(), 1);
    assert_eq!(node.attributes[0].0, "derivedFrom");
    assert_eq!(node.attributes[0].1, "fake-derivation.png");
}

#[test]
fn full_record_round_trips() {
    let r = EnumeratedValues {
        name: Some(String::from("WaitStates")),
        usage: Some(Usage::Read),
        derived_from: Some(String::from("other")),
        values: vec![
            EnumeratedValue {
                name: String::from("WS0"),
                description: Some(String::from("none")),
                value: Some(0),
                is_default: None,
            },
            EnumeratedValue {
                name: String::from("WS1"),
                description: None,
                value: Some(4096),
                is_default: Some(true),
            },
            EnumeratedValue {
                name: String::from("RESERVED"),
                description: None,
                value: None,
                is_default: None,
            },
        ],
    };
    let node = r.encode().unwrap();
    // schema-mandated child order: name, usage, then the entries
    assert_eq!(node.children[0].name, "name");
    assert_eq!(node.children[1].name, "usage");
    assert_eq!(node.children[2].name, "enumeratedValue");
    let back = EnumeratedValues::parse(&node).unwrap();
    assert_eq!(back, r);
}

#[test]
fn decode_accepts_decimal_and_reencodes_canonically() {
    let doc = collection(
        Vec::new(),
        vec![entry(vec![text_el("name", "A"), text_el("value", "17")])],
    );
    let r = EnumeratedValues::parse(&doc).unwrap();
    assert_eq!(r.values[0].value, Some(17));
    let node = r.encode().unwrap();
    let value_child = node.children[0]
        .children
        .iter()
        .find(|c| c.name == "value")
        .unwrap();
    assert_eq!(value_child.text.as_deref(), Some("0x00000011"));
}
