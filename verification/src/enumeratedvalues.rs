use crate::enumeratedvalue::res_value_view;
use crate::enumeratedvalue::spec_encode_value;
use crate::enumeratedvalue::spec_parse_value;
use crate::enumeratedvalue::EnumeratedValue;
use crate::enumeratedvalue::SpecEnumeratedValue;
use crate::error::FieldError;
use crate::error::SpecFieldError;
use crate::error::SpecSvdError;
use crate::error::SvdError;
use crate::scalar::str_eq;
use crate::tree::attrs_view;
use crate::tree::lemma_nodes_view;
use crate::tree::new_element;
use crate::tree::nodes_view;
use crate::tree::opt_string_view;
use crate::tree::spec_attr_named;
use crate::tree::spec_child_named;
use crate::tree::spec_child_text_opt;
use crate::tree::SpecNode;
use crate::tree::XmlNode;
use crate::usage::res_usage_view;
use crate::usage::spec_encode_usage;
use crate::usage::spec_parse_usage;
use crate::usage::Usage;
use vstd::prelude::*;
use vstd::string::*;

verus! {

/// One named, optionally usage-scoped, optionally derived collection of
/// enumerated values. When `derived_from` is present an empty `values`
/// sequence is legitimate: the content is inherited from the referenced
/// collection by a downstream pass.
#[derive(Clone, Debug)]
pub struct EnumeratedValues {
    pub name: Option<String>,
    pub usage: Option<Usage>,
    pub derived_from: Option<String>,
    pub values: Vec<EnumeratedValue>,
}

/// Mathematical model of one collection of enumerated values.
#[verifier::ext_equal]
pub struct SpecEnumeratedValues {
    pub name: Option<Seq<char>>,
    pub usage: Option<Usage>,
    pub derived_from: Option<Seq<char>>,
    pub values: Seq<SpecEnumeratedValue>,
}

impl View for EnumeratedValues {
    type V = SpecEnumeratedValues;

    open spec fn view(&self) -> SpecEnumeratedValues {
        SpecEnumeratedValues {
            name: opt_string_view(self.name),
            usage: self.usage,
            derived_from: opt_string_view(self.derived_from),
            values: Seq::new(self.values@.len(), |i: int| self.values@[i]@),
        }
    }
}

impl PartialEq for EnumeratedValues {
    fn eq(&self, other: &EnumeratedValues) -> (r: bool) {
        let name_eq = match (&self.name, &other.name) {
            (None, None) => true,
            (Some(a), Some(b)) => str_eq(a.as_str(), b.as_str()),
            _ => false,
        };
        let usage_eq = match (&self.usage, &other.usage) {
            (None, None) => true,
            (Some(a), Some(b)) => *a == *b,
            _ => false,
        };
        let derived_eq = match (&self.derived_from, &other.derived_from) {
            (None, None) => true,
            (Some(a), Some(b)) => str_eq(a.as_str(), b.as_str()),
            _ => false,
        };
        if !(name_eq && usage_eq && derived_eq) {
            return false;
        }
        if self.values.len() != other.values.len() {
            proof {
                assert(self@.values.len() != other@.values.len());
            }
            return false;
        }
        let n = self.values.len();
        let mut i: usize = 0;
        while i < n
            invariant
                i <= n,
                n == self.values.len(),
                n == other.values.len(),
                forall|j: int| 0 <= j < i ==> self@.values[j] == other@.values[j],
            decreases n - i,
        {
            if !(self.values[i] == other.values[i]) {
                proof {
                    assert(self@.values[i as int] != other@.values[i as int]);
                }
                return false;
            }
            i = i + 1;
        }
        proof {
            assert(self@.values =~= other@.values);
            assert(self@ =~= other@);
        }
        true
    }
}

impl vstd::std_specs::cmp::PartialEqSpecImpl for EnumeratedValues {
    open spec fn obeys_eq_spec() -> bool {
        true
    }

    open spec fn eq_spec(&self, other: &EnumeratedValues) -> bool {
        self@ == other@
    }
}

// ---------------------------------------------------------------------------
// Decoding
// ---------------------------------------------------------------------------
/// Whether a node is an enumerated-value entry.
pub open spec fn spec_is_entry(c: SpecNode) -> bool {
    c.name == "enumeratedValue"@
}

/// The entry predicate as a function value, shared by every use of it.
pub open spec fn entry_pred() -> spec_fn(SpecNode) -> bool {
    |c: SpecNode| spec_is_entry(c)
}

/// The enumerated-value entries among a node's children, in document
/// order; unrelated siblings do not count.
pub open spec fn spec_entries(children: Seq<SpecNode>) -> Seq<SpecNode> {
    children.filter(entry_pred())
}

/// Decoding a run of entries, the first of which sits at 0-based ordinal
/// `start` among entries: each is decoded independently, and the first
/// failure fails the run, wrapped with that entry's ordinal.
pub open spec fn spec_parse_entries(entries: Seq<SpecNode>, start: nat) -> Result<
    Seq<SpecEnumeratedValue>,
    SpecSvdError,
>
    decreases entries.len(),
{
    if entries.len() == 0 {
        Ok(Seq::empty())
    } else {
        match spec_parse_value(entries[0]) {
            Err(e) => Err(SpecSvdError::InEnumeratedValue(start, e)),
            Ok(v) => match spec_parse_entries(entries.drop_first(), (start + 1) as nat) {
                Err(e) => Err(e),
                Ok(rest) => Ok(seq![v] + rest),
            },
        }
    }
}

/// The optional usage qualifier: decoded from the first "usage" child when
/// one exists.
pub open spec fn spec_opt_usage(n: SpecNode) -> Result<Option<Usage>, SpecFieldError> {
    match spec_child_named(n.children, "usage"@) {
        None => Ok(None),
        Some(c) => match spec_parse_usage(c) {
            Ok(u) => Ok(Some(u)),
            Err(e) => Err(e),
        },
    }
}

/// Decoding a collection: optional name text, optional usage qualifier,
/// the "derivedFrom" attribute read verbatim, and the entries in document
/// order; decode is all-or-nothing.
pub open spec fn spec_parse_values(n: SpecNode) -> Result<SpecEnumeratedValues, SpecSvdError> {
    match spec_child_text_opt(n, "name"@) {
        Err(e) => Err(SpecSvdError::Field(e)),
        Ok(name) => match spec_opt_usage(n) {
            Err(e) => Err(SpecSvdError::Field(e)),
            Ok(usage) => match spec_parse_entries(spec_entries(n.children), 0) {
                Err(e) => Err(e),
                Ok(vals) => Ok(
                    SpecEnumeratedValues {
                        name: name,
                        usage: usage,
                        derived_from: spec_attr_named(n.attributes, "derivedFrom"@),
                        values: vals,
                    },
                ),
            },
        },
    }
}

/// The view of a collection decode result.
pub open spec fn res_values_view(r: Result<EnumeratedValues, SvdError>) -> Result<
    SpecEnumeratedValues,
    SpecSvdError,
> {
    match r {
        Ok(v) => Ok(v@),
        Err(e) => Err(e@),
    }
}

// ---------------------------------------------------------------------------
// Lemmas about runs of entries
// ---------------------------------------------------------------------------
/// Appending a node extends the entry run exactly when the node is an
/// entry.
pub proof fn lemma_entries_push(s: Seq<SpecNode>, x: SpecNode)
    ensures
        spec_entries(s.push(x)) == if spec_is_entry(x) {
            spec_entries(s).push(x)
        } else {
            spec_entries(s)
        },
{
    reveal(Seq::filter);
    assert(s.push(x).drop_last() =~= s);
    assert(s.push(x).last() == x);
}

/// A run whose entries all decode yields exactly their decodes, in order.
pub proof fn lemma_parse_entries_all_ok(entries: Seq<SpecNode>, start: nat)
    requires
        forall|j: int| 0 <= j < entries.len() ==> spec_parse_value(#[trigger] entries[j]) is Ok,
    ensures
        spec_parse_entries(entries, start) matches Ok(vs) && vs.len() == entries.len() && forall|
            j: int,
        | 0 <= j < entries.len() ==> vs[j] == spec_parse_value(#[trigger] entries[j])->Ok_0,
    decreases entries.len(),
{
    if entries.len() > 0 {
        assert(spec_parse_value(entries[0]) is Ok);
        assert forall|j: int|
            0 <= j < entries.drop_first().len() implies spec_parse_value(
            #[trigger] entries.drop_first()[j],
        ) is Ok by {
            assert(entries.drop_first()[j] == entries[j + 1]);
        }
        lemma_parse_entries_all_ok(entries.drop_first(), (start + 1) as nat);
        let vs = spec_parse_entries(entries, start)->Ok_0;
        let rest = spec_parse_entries(entries.drop_first(), (start + 1) as nat)->Ok_0;
        assert forall|j: int| 0 <= j < entries.len() implies vs[j] == spec_parse_value(
            #[trigger] entries[j],
        )->Ok_0 by {
            if j > 0 {
                assert(vs[j] == rest[j - 1]);
                assert(entries.drop_first()[j - 1] == entries[j]);
            }
        }
    }
}

/// A run fails on its first failing entry, wrapped with that entry's
/// ordinal, whatever follows it.
pub proof fn lemma_parse_entries_first_err(entries: Seq<SpecNode>, start: nat, i: int)
    requires
        0 <= i < entries.len(),
        forall|j: int| 0 <= j < i ==> spec_parse_value(#[trigger] entries[j]) is Ok,
        spec_parse_value(entries[i]) is Err,
    ensures
        spec_parse_entries(entries, start) == Err::<Seq<SpecEnumeratedValue>, SpecSvdError>(
            SpecSvdError::InEnumeratedValue(
                (start + i) as nat,
                spec_parse_value(entries[i])->Err_0,
            ),
        ),
    decreases i,
{
    if i > 0 {
        assert(spec_parse_value(entries[0]) is Ok);
        assert forall|j: int| 0 <= j < i - 1 implies spec_parse_value(
            #[trigger] entries.drop_first()[j],
        ) is Ok by {
            assert(entries.drop_first()[j] == entries[j + 1]);
        }
        assert(entries.drop_first()[i - 1] == entries[i]);
        lemma_parse_entries_first_err(entries.drop_first(), (start + 1) as nat, i - 1);
    }
}

// ---------------------------------------------------------------------------
// Encoding
// ---------------------------------------------------------------------------
/// Encoding a collection: a "name" child first when present, the usage
/// qualifier next when present, the "derivedFrom" attribute when present,
/// then every entry in collection order. Absent fields are omitted, never
/// emitted as placeholders.
pub open spec fn spec_encode_values(r: SpecEnumeratedValues) -> SpecNode {
    SpecNode {
        name: "enumeratedValues"@,
        attributes: match r.derived_from {
            Some(d) => seq![("derivedFrom"@, d)],
            None => Seq::empty(),
        },
        children: (match r.name {
            Some(nm) => seq![crate::tree::spec_text_element("name"@, nm)],
            None => Seq::empty(),
        }) + (match r.usage {
            Some(u) => seq![spec_encode_usage(u)],
            None => Seq::empty(),
        }) + Seq::new(r.values.len(), |i: int| spec_encode_value(r.values[i])),
        text: None,
    }
}

impl EnumeratedValues {
    /// Decodes a collection from an "enumeratedValues" element. The decode
    /// is all-or-nothing: the first malformed field or entry fails it, an
    /// entry failure wrapped with the entry's 0-based ordinal among
    /// entries.
    #[verifier::loop_isolation(false)]
    pub fn parse(tree: &XmlNode) -> (r: Result<EnumeratedValues, SvdError>)
        requires
            tree@.name == "enumeratedValues"@,
        ensures
            res_values_view(r) == spec_parse_values(tree@),
    {
        let name = match tree.get_child_text_opt("name") {
            Ok(v) => v,
            Err(e) => { return Err(SvdError::Field(e)) },
        };
        let usage = match tree.find_child("usage") {
            None => None,
            Some(i) => match Usage::parse(&tree.children[i]) {
                Ok(u) => Some(u),
                Err(e) => { return Err(SvdError::Field(e)) },
            },
        };
        let derived_from = tree.get_attribute("derivedFrom");

        let ghost sv = tree@.children;
        proof {
            lemma_nodes_view(tree.children@);
        }
        let n = tree.children.len();
        let mut values: Vec<EnumeratedValue> = Vec::new();
        let mut i: usize = 0;
        while i < n
            invariant
                i <= n,
                n == tree.children.len(),
                sv == nodes_view(tree.children@),
                sv.len() == n,
                forall|k: int| 0 <= k < n ==> #[trigger] sv[k] == crate::tree::node_view(
                    tree.children@[k],
                ),
                values@.len() == spec_entries(sv.subrange(0, i as int)).len(),
                forall|j: int|
                    0 <= j < values@.len() ==> spec_parse_value(
                        #[trigger] spec_entries(sv.subrange(0, i as int))[j],
                    ) == Ok::<SpecEnumeratedValue, SpecFieldError>(values@[j]@),
            decreases n - i,
        {
            let ghost prefix = sv.subrange(0, i as int);
            let ghost prefix2 = sv.subrange(0, i as int + 1);
            proof {
                assert(prefix2 =~= prefix.push(sv[i as int]));
                lemma_entries_push(prefix, sv[i as int]);
            }
            let child = &tree.children[i];
            if str_eq(child.name.as_str(), "enumeratedValue") {
                match EnumeratedValue::parse(child) {
                    Ok(v) => {
                        values.push(v);
                    },
                    Err(e) => {
                        proof {
                            let ents = spec_entries(sv);
                            let k = values@.len() as int;
                            let suffix = sv.subrange(i as int + 1, n as int);
                            assert(sv =~= prefix2 + suffix);
                            Seq::<SpecNode>::filter_distributes_over_add(
                                prefix2,
                                suffix,
                                entry_pred(),
                            );
                            assert(spec_entries(prefix2) == spec_entries(prefix).push(
                                sv[i as int],
                            ));
                            assert(ents == spec_entries(prefix).push(sv[i as int]) + spec_entries(
                                suffix,
                            ));
                            assert(ents[k] == sv[i as int]);
                            assert forall|j: int| 0 <= j < k implies spec_parse_value(
                                #[trigger] ents[j],
                            ) is Ok by {
                                assert(ents[j] == spec_entries(prefix)[j]);
                                assert(spec_parse_value(spec_entries(prefix)[j]) == Ok::<
                                    SpecEnumeratedValue,
                                    SpecFieldError,
                                >(values@[j]@));
                            }
                            assert(sv[i as int] == child@);
                            assert(spec_parse_value(ents[k]) is Err && spec_parse_value(
                                ents[k],
                            )->Err_0 == e@);
                            lemma_parse_entries_first_err(ents, 0, k);
                            assert(spec_child_text_opt(tree@, "name"@) is Ok);
                            assert(spec_opt_usage(tree@) is Ok);
                            assert(spec_parse_entries(ents, 0) == Err::<
                                Seq<SpecEnumeratedValue>,
                                SpecSvdError,
                            >(SpecSvdError::InEnumeratedValue(values@.len(), e@)));
                            assert(spec_parse_values(tree@) == Err::<
                                SpecEnumeratedValues,
                                SpecSvdError,
                            >(SpecSvdError::InEnumeratedValue(values@.len(), e@)));
                        }
                        return Err(SvdError::InEnumeratedValue(values.len(), e));
                    },
                }
            }
            i = i + 1;
            proof {
                if spec_is_entry(sv[i - 1]) {
                    assert forall|j: int| 0 <= j < values@.len() implies spec_parse_value(
                        #[trigger] spec_entries(sv.subrange(0, i as int))[j],
                    ) == Ok::<SpecEnumeratedValue, SpecFieldError>(values@[j]@) by {
                        let ents2 = spec_entries(sv.subrange(0, i as int));
                        if j < values@.len() - 1 {
                            assert(ents2[j] == spec_entries(sv.subrange(0, i as int - 1))[j]);
                        } else {
                            assert(ents2[j] == sv[i - 1]);
                        }
                    }
                }
            }
        }
        proof {
            assert(sv.subrange(0, n as int) =~= sv);
            let ents = spec_entries(sv);
            assert(values@.len() == ents.len());
            assert forall|j: int| 0 <= j < ents.len() implies spec_parse_value(#[trigger] ents[j])
                == Ok::<SpecEnumeratedValue, SpecFieldError>(values@[j]@) by {
                assert(spec_parse_value(spec_entries(sv.subrange(0, n as int))[j]) == Ok::<
                    SpecEnumeratedValue,
                    SpecFieldError,
                >(values@[j]@));
            }
            lemma_parse_entries_all_ok(ents, 0);
        }
        let result = EnumeratedValues { name, usage, derived_from, values };
        proof {
            let ents = spec_entries(sv);
            let vs = spec_parse_entries(ents, 0)->Ok_0;
            assert forall|j: int| 0 <= j < vs.len() implies result@.values[j] == vs[j] by {
                assert(spec_parse_value(ents[j]) == Ok::<SpecEnumeratedValue, SpecFieldError>(
                    values@[j]@,
                ));
            }
            assert(result@.values =~= vs);
        }
        Ok(result)
    }

    /// Encodes this collection as an "enumeratedValues" element, absent
    /// fields omitted, children in the schema-mandated order.
    #[verifier::rlimit(50)]
    pub fn encode(&self) -> (r: Result<XmlNode, SvdError>)
        ensures
            r matches Ok(n) && n@ == spec_encode_values(self@),
    {
        let mut children: Vec<XmlNode> = Vec::new();
        match &self.name {
            Some(d) => children.push(new_element("name", Some(d.clone()))),
            None => {},
        }
        match &self.usage {
            Some(u) => match u.encode() {
                Ok(c) => children.push(c),
                Err(e) => { return Err(e) },
            },
            None => {},
        }
        let mut attributes: Vec<(String, String)> = Vec::new();
        match &self.derived_from {
            Some(d) => attributes.push((String::from_str("derivedFrom"), d.clone())),
            None => {},
        }
        let ghost base = children@.len();
        let ghost head = children@;
        let n = self.values.len();
        let mut i: usize = 0;
        while i < n
            invariant
                i <= n,
                n == self.values.len(),
                children@.len() == base + i,
                base == head.len(),
                children@.subrange(0, base as int) =~= head,
                forall|j: int| 0 <= j < i ==> #[trigger] crate::tree::node_view(
                    children@[base + j],
                ) == spec_encode_value(self.values@[j]@),
            decreases n - i,
        {
            match self.values[i].encode() {
                Ok(c) => children.push(c),
                Err(e) => { return Err(e) },
            }
            i = i + 1;
        }
        let node = XmlNode {
            name: String::from_str("enumeratedValues"),
            attributes,
            children,
            text: None,
        };
        proof {
            lemma_nodes_view(node.children@);
            let spec = spec_encode_values(self@);
            let head_spec = (match self@.name {
                Some(nm) => seq![crate::tree::spec_text_element("name"@, nm)],
                None => Seq::<SpecNode>::empty(),
            }) + (match self@.usage {
                Some(u) => seq![spec_encode_usage(u)],
                None => Seq::<SpecNode>::empty(),
            });
            assert(head_spec.len() == base);
            assert(spec.children.len() == base + n);
            assert forall|j: int| 0 <= j < base implies nodes_view(node.children@)[j]
                == spec.children[j] by {
                assert(node.children@[j] == children@.subrange(0, base as int)[j]);
                assert(node.children@[j] == head[j]);
                assert(spec.children[j] == head_spec[j]);
            }
            assert forall|j: int| base <= j < base + n implies nodes_view(node.children@)[j]
                == spec.children[j] by {
                let jj = j - base;
                assert(crate::tree::node_view(children@[base + jj]) == spec_encode_value(
                    self.values@[jj]@,
                ));
                assert(spec.children[j] == spec_encode_value(self@.values[jj]));
            }
            assert(node@.attributes =~= spec.attributes);
            assert(node@.children =~= spec.children);
            assert(node@ =~= spec);
        }
        Ok(node)
    }
}

} // verus!
