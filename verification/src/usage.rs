use crate::error::FieldError;
use crate::error::SpecFieldError;
use crate::error::SvdError;
use crate::scalar::str_eq;
use crate::tree::new_element;
use crate::tree::SpecNode;
use crate::tree::XmlNode;
use vstd::prelude::*;
use vstd::string::*;

verus! {

/// How a set of enumerated values applies to accesses of its register or
/// field: to reads, to writes, or to both.
#[derive(Clone, Copy, PartialEq, Eq, Structural, Debug)]
pub enum Usage {
    Read,
    Write,
    ReadWrite,
}

/// The recognized token of each qualifier.
pub open spec fn spec_usage_token(u: Usage) -> Seq<char> {
    match u {
        Usage::Read => "read"@,
        Usage::Write => "write"@,
        Usage::ReadWrite => "read-write"@,
    }
}

/// The qualifier of a token, for exactly the closed set of recognized
/// tokens.
pub open spec fn spec_usage_from_token(t: Seq<char>) -> Option<Usage> {
    if t == "read"@ {
        Some(Usage::Read)
    } else if t == "write"@ {
        Some(Usage::Write)
    } else if t == "read-write"@ {
        Some(Usage::ReadWrite)
    } else {
        None
    }
}

/// Decoding a usage element: its direct text must be a recognized token;
/// a missing text is a structural error, an unrecognized token names the
/// offending text.
pub open spec fn spec_parse_usage(n: SpecNode) -> Result<Usage, SpecFieldError> {
    match n.text {
        None => Err(SpecFieldError::EmptyTag("usage"@)),
        Some(t) => match spec_usage_from_token(t) {
            Some(u) => Ok(u),
            None => Err(SpecFieldError::UnknownUsageVariant(t)),
        },
    }
}

/// Encoding a qualifier: a "usage" element whose text is the token.
pub open spec fn spec_encode_usage(u: Usage) -> SpecNode {
    SpecNode {
        name: "usage"@,
        attributes: Seq::empty(),
        children: Seq::empty(),
        text: Some(spec_usage_token(u)),
    }
}

/// The view of a usage decode result.
pub open spec fn res_usage_view(r: Result<Usage, FieldError>) -> Result<Usage, SpecFieldError> {
    match r {
        Ok(u) => Ok(u),
        Err(e) => Err(e@),
    }
}

impl Usage {
    /// Decodes a usage qualifier from the element's direct text.
    pub fn parse(tree: &XmlNode) -> (r: Result<Usage, FieldError>)
        ensures
            res_usage_view(r) == spec_parse_usage(tree@),
    {
        match &tree.text {
            None => Err(FieldError::EmptyTag("usage".to_owned())),
            Some(t) => {
                if str_eq(t.as_str(), "read") {
                    Ok(Usage::Read)
                } else if str_eq(t.as_str(), "write") {
                    Ok(Usage::Write)
                } else if str_eq(t.as_str(), "read-write") {
                    Ok(Usage::ReadWrite)
                } else {
                    Err(FieldError::UnknownUsageVariant(t.clone()))
                }
            },
        }
    }

    /// Encodes the qualifier as a "usage" element carrying its token.
    pub fn encode(&self) -> (r: Result<XmlNode, SvdError>)
        ensures
            r matches Ok(n) && n@ == spec_encode_usage(*self),
    {
        let token: &str = match self {
            Usage::Read => "read",
            Usage::Write => "write",
            Usage::ReadWrite => "read-write",
        };
        let n = new_element("usage", Some(token.to_owned()));
        proof {
            assert(n@ =~= spec_encode_usage(*self));
        }
        Ok(n)
    }
}

} // verus!
