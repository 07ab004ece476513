use crate::error::FieldError;
use crate::error::SpecFieldError;
use crate::error::SvdError;
use crate::scalar::format_hex8;
use crate::scalar::parse_bool_text;
use crate::scalar::parse_u32_text;
use crate::scalar::spec_hex8;
use crate::scalar::spec_parse_bool_text;
use crate::scalar::spec_parse_u32_text;
use crate::scalar::str_eq;
use crate::tree::lemma_nodes_view;
use crate::tree::new_element;
use crate::tree::nodes_view;
use crate::tree::opt_string_view;
use crate::tree::spec_child_text_opt;
use crate::tree::spec_text_element;
use crate::tree::SpecNode;
use crate::tree::XmlNode;
use vstd::prelude::*;
use vstd::string::*;

verus! {

/// One concrete value in an enumerated range: a required name, an optional
/// description, an optional literal value (absence means "don't care"),
/// and an optional marking as the fallback entry for unmatched values.
#[derive(Clone, Debug)]
pub struct EnumeratedValue {
    pub name: String,
    pub description: Option<String>,
    pub value: Option<u32>,
    pub is_default: Option<bool>,
}

/// Mathematical model of one enumerated value.
#[verifier::ext_equal]
pub struct SpecEnumeratedValue {
    pub name: Seq<char>,
    pub description: Option<Seq<char>>,
    pub value: Option<u32>,
    pub is_default: Option<bool>,
}

impl View for EnumeratedValue {
    type V = SpecEnumeratedValue;

    open spec fn view(&self) -> SpecEnumeratedValue {
        SpecEnumeratedValue {
            name: self.name@,
            description: opt_string_view(self.description),
            value: self.value,
            is_default: self.is_default,
        }
    }
}

impl PartialEq for EnumeratedValue {
    fn eq(&self, other: &EnumeratedValue) -> (r: bool) {
        let name_eq = str_eq(self.name.as_str(), other.name.as_str());
        let desc_eq = match (&self.description, &other.description) {
            (None, None) => true,
            (Some(a), Some(b)) => str_eq(a.as_str(), b.as_str()),
            _ => false,
        };
        let value_eq = match (&self.value, &other.value) {
            (None, None) => true,
            (Some(a), Some(b)) => *a == *b,
            _ => false,
        };
        let default_eq = match (&self.is_default, &other.is_default) {
            (None, None) => true,
            (Some(a), Some(b)) => *a == *b,
            _ => false,
        };
        let r = name_eq && desc_eq && value_eq && default_eq;
        proof {
            if r {
                assert(self@ =~= other@);
            }
        }
        r
    }
}

impl vstd::std_specs::cmp::PartialEqSpecImpl for EnumeratedValue {
    open spec fn obeys_eq_spec() -> bool {
        true
    }

    open spec fn eq_spec(&self, other: &EnumeratedValue) -> bool {
        self@ == other@
    }
}

// ---------------------------------------------------------------------------
// Decoding
// ---------------------------------------------------------------------------
/// The optional literal value: text of an optional "value" child, parsed
/// under the numeric literal grammar; an unparsable literal names the
/// offending text.
pub open spec fn spec_opt_u32(n: SpecNode) -> Result<Option<u32>, SpecFieldError> {
    match spec_child_text_opt(n, "value"@) {
        Ok(None) => Ok(None),
        Ok(Some(t)) => match spec_parse_u32_text(t) {
            Some(v) => Ok(Some(v)),
            None => Err(SpecFieldError::InvalidNumber(t)),
        },
        Err(e) => Err(e),
    }
}

/// The optional fallback marking: text of an optional "isDefault" child,
/// exactly one of the literal boolean tokens.
pub open spec fn spec_opt_bool(n: SpecNode) -> Result<Option<bool>, SpecFieldError> {
    match spec_child_text_opt(n, "isDefault"@) {
        Ok(None) => Ok(None),
        Ok(Some(t)) => match spec_parse_bool_text(t) {
            Some(b) => Ok(Some(b)),
            None => Err(SpecFieldError::InvalidBool(t)),
        },
        Err(e) => Err(e),
    }
}

/// Decoding one enumerated value: required name text, optional
/// description text, optional numeric value, optional boolean fallback
/// marking, checked in that order; the first malformed field fails the
/// whole decode.
pub open spec fn spec_parse_value(n: SpecNode) -> Result<SpecEnumeratedValue, SpecFieldError> {
    match spec_child_text_opt(n, "name"@) {
        Err(e) => Err(e),
        Ok(None) => Err(SpecFieldError::MissingTag("name"@)),
        Ok(Some(nm)) => match spec_child_text_opt(n, "description"@) {
            Err(e) => Err(e),
            Ok(desc) => match spec_opt_u32(n) {
                Err(e) => Err(e),
                Ok(value) => match spec_opt_bool(n) {
                    Err(e) => Err(e),
                    Ok(isd) => Ok(
                        SpecEnumeratedValue {
                            name: nm,
                            description: desc,
                            value: value,
                            is_default: isd,
                        },
                    ),
                },
            },
        },
    }
}

/// The view of an enumerated-value decode result.
pub open spec fn res_value_view(r: Result<EnumeratedValue, FieldError>) -> Result<
    SpecEnumeratedValue,
    SpecFieldError,
> {
    match r {
        Ok(v) => Ok(v@),
        Err(e) => Err(e@),
    }
}

// ---------------------------------------------------------------------------
// Encoding
// ---------------------------------------------------------------------------
/// Encoding one enumerated value: name always, then description, value
/// (in canonical hexadecimal form) and fallback marking each only when
/// present, in that fixed order; the marking is emitted only when it is
/// explicitly true.
pub open spec fn spec_encode_value(v: SpecEnumeratedValue) -> SpecNode {
    SpecNode {
        name: "enumeratedValue"@,
        attributes: Seq::empty(),
        children: seq![spec_text_element("name"@, v.name)] + (match v.description {
            Some(d) => seq![spec_text_element("description"@, d)],
            None => Seq::empty(),
        }) + (match v.value {
            Some(x) => seq![spec_text_element("value"@, spec_hex8(x))],
            None => Seq::empty(),
        }) + (if v.is_default == Some(true) {
            seq![spec_text_element("isDefault"@, "true"@)]
        } else {
            Seq::empty()
        }),
        text: None,
    }
}

impl EnumeratedValue {
    /// Decodes one enumerated value from its element.
    pub fn parse(tree: &XmlNode) -> (r: Result<EnumeratedValue, FieldError>)
        requires
            tree@.name == "enumeratedValue"@,
        ensures
            res_value_view(r) == spec_parse_value(tree@),
    {
        let name = match tree.get_child_text_opt("name") {
            Ok(Some(s)) => s,
            Ok(None) => { return Err(FieldError::MissingTag("name".to_owned())) },
            Err(e) => { return Err(e) },
        };
        let description = match tree.get_child_text_opt("description") {
            Ok(v) => v,
            Err(e) => { return Err(e) },
        };
        let value = match tree.get_child_text_opt("value") {
            Ok(None) => None,
            Ok(Some(t)) => match parse_u32_text(t.as_str()) {
                Some(v) => Some(v),
                None => { return Err(FieldError::InvalidNumber(t)) },
            },
            Err(e) => { return Err(e) },
        };
        let is_default = match tree.get_child_text_opt("isDefault") {
            Ok(None) => None,
            Ok(Some(t)) => match parse_bool_text(t.as_str()) {
                Some(b) => Some(b),
                None => { return Err(FieldError::InvalidBool(t)) },
            },
            Err(e) => { return Err(e) },
        };
        Ok(EnumeratedValue { name, description, value, is_default })
    }

    /// Encodes this enumerated value as an "enumeratedValue" element.
    pub fn encode(&self) -> (r: Result<XmlNode, SvdError>)
        ensures
            r matches Ok(n) && n@ == spec_encode_value(self@),
    {
        let mut children: Vec<XmlNode> = Vec::new();
        children.push(new_element("name", Some(self.name.clone())));
        match &self.description {
            Some(d) => children.push(new_element("description", Some(d.clone()))),
            None => {},
        }
        match &self.value {
            Some(x) => children.push(new_element("value", Some(format_hex8(*x)))),
            None => {},
        }
        match &self.is_default {
            Some(b) => if *b {
                children.push(new_element("isDefault", Some(String::from_str("true"))))
            },
            None => {},
        }
        let n = XmlNode {
            name: String::from_str("enumeratedValue"),
            attributes: Vec::new(),
            children,
            text: None,
        };
        proof {
            lemma_nodes_view(n.children@);
            assert(n@.children =~= spec_encode_value(self@).children);
            assert(n@.attributes =~= Seq::<(Seq<char>, Seq<char>)>::empty());
            assert(n@ =~= spec_encode_value(self@));
        }
        Ok(n)
    }
}

} // verus!
