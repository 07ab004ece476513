use svd_parser::EnumeratedValue;
use svd_parser::EnumeratedValues;
use svd_parser::XmlNode;
use xmltree::Element;
use xmltree::XMLNode;

fn elem_to_node(e: &Element) -> XmlNode {
    let text = e
        .get_text()
        .map(|c| c.trim().to_string())
        .filter(|s| !s.is_empty());
    let mut attributes: Vec<(String, String)> = e
        .attributes
        .iter()
        .map(|(k, v)| (k.clone(), v.clone()))
        .collect();
    attributes.sort();
    let children = e
        .children
        .iter()
        .filter_map(|c| c.as_element())
        .map(elem_to_node)
        .collect();
    XmlNode {
        name: e.name.clone(),
        attributes,
        children,
        text,
    }
}

fn node_to_elem(n: &XmlNode) -> Element {
    let mut e = Element::new(&n.name);
    for (k, v) in &n.attributes {
        e.attributes.insert(k.clone(), v.clone());
    }
    for c in &n.children {
        e.children.push(XMLNode::Element(node_to_elem(c)));
    }
    if let Some(t) = &n.text {
        e.children.push(XMLNode::Text(t.clone()));
    }
    e
}

#[test]
fn decode_encode() {
    let tests = vec![(
        EnumeratedValues {
            name: None,
            usage: None,
            derived_from: Some(String::from("fake-derivation.png")),
            values: vec![
                EnumeratedValue {
                    name: String::from("WS0"),
                    description: Some(String::from(
                        "Zero wait-states inserted in fetch or read transfers",
                    )),
                    value: Some(0),
                    is_default: Some(true),
                },
                EnumeratedValue {
                    name: String::from("WS1"),
                    description: Some(String::from(
                        "One wait-state inserted for each fetch or read transfer. See Flash Wait-States table for details",
                    )),
                    value: Some(1),
                    is_default: None,
                },
            ],
        },
        "
            <enumeratedValues derivedFrom=\"fake-derivation.png\">
                <enumeratedValue>
                    <name>WS0</name>
                    <description>Zero wait-states inserted in fetch or read transfers</description>
                    <value>0x00000000</value>
                    <isDefault>true</isDefault>
                </enumeratedValue>
                <enumeratedValue>
                    <name>WS1</name>
                    <description>One wait-state inserted for each fetch or read transfer. See Flash Wait-States table for details</description>
                    <value>0x00000001</value>
                </enumeratedValue>
            </enumeratedValues>
        ",
    )];

    for (expected, xml) in tests {
        let tree = Element::parse(xml.as_bytes()).unwrap();
        let node = elem_to_node(&tree);
        let parsed = EnumeratedValues::parse(&node).unwrap();
        assert_eq!(parsed, expected);
        let encoded = parsed.encode().unwrap();
        assert_eq!(node_to_elem(&node), node_to_elem(&encoded));
    }
}
