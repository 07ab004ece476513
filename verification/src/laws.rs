use crate::enumeratedvalue::spec_encode_value;
use crate::enumeratedvalue::spec_parse_value;
use crate::enumeratedvalue::SpecEnumeratedValue;
use crate::enumeratedvalues::entry_pred;
use crate::enumeratedvalues::lemma_parse_entries_all_ok;
use crate::enumeratedvalues::lemma_parse_entries_first_err;
use crate::enumeratedvalues::spec_encode_values;
use crate::enumeratedvalues::spec_entries;
use crate::enumeratedvalues::spec_is_entry;
use crate::enumeratedvalues::spec_opt_usage;
use crate::enumeratedvalues::spec_parse_values;
use crate::enumeratedvalues::SpecEnumeratedValues;
use crate::error::SpecFieldError;
use crate::error::SpecSvdError;
use crate::scalar::lemma_parse_hex8;
use crate::scalar::spec_hex8;
use crate::tree::lemma_child_named_absent;
use crate::tree::lemma_child_named_at;
use crate::tree::spec_attr_named;
use crate::tree::spec_child_named;
use crate::tree::spec_child_text_opt;
use crate::tree::spec_text_element;
use crate::tree::SpecNode;
use crate::usage::spec_encode_usage;
use crate::usage::spec_parse_usage;
use crate::usage::spec_usage_from_token;
use crate::usage::spec_usage_token;
use crate::usage::Usage;
use vstd::prelude::*;

verus! {

/// The schema's tag and token literals are pairwise distinct where the
/// decoder tells them apart.
proof fn lemma_tags_distinct()
    ensures
        "name"@ != "description"@,
        "name"@ != "value"@,
        "name"@ != "isDefault"@,
        "name"@ != "usage"@,
        "name"@ != "enumeratedValue"@,
        "description"@ != "value"@,
        "description"@ != "isDefault"@,
        "value"@ != "isDefault"@,
        "usage"@ != "enumeratedValue"@,
        "read"@ != "write"@,
        "read"@ != "read-write"@,
        "write"@ != "read-write"@,
{
    reveal_strlit("name");
    reveal_strlit("description");
    reveal_strlit("value");
    reveal_strlit("isDefault");
    reveal_strlit("usage");
    reveal_strlit("enumeratedValue");
    reveal_strlit("read");
    reveal_strlit("write");
    reveal_strlit("read-write");
    assert("name"@.len() == 4);
    assert("description"@.len() == 11);
    assert("value"@.len() == 5);
    assert("isDefault"@.len() == 9);
    assert("usage"@.len() == 5);
    assert("enumeratedValue"@.len() == 15);
    assert("read"@.len() == 4);
    assert("write"@.len() == 5);
    assert("read-write"@.len() == 10);
    assert("value"@[0] == 'v');
    assert("usage"@[0] == 'u');
    assert("name"@[0] == 'n');
    assert("read"@[0] == 'r');
    assert("write"@[0] == 'w');
}

/// Filtering keeps a sequence whose members all satisfy the entry
/// predicate.
proof fn lemma_entries_all_pos(s: Seq<SpecNode>)
    requires
        forall|j: int| 0 <= j < s.len() ==> spec_is_entry(#[trigger] s[j]),
    ensures
        spec_entries(s) == s,
    decreases s.len(),
{
    reveal(Seq::filter);
    if s.len() > 0 {
        lemma_entries_all_pos(s.drop_last());
        assert(s.drop_last().push(s.last()) =~= s);
    }
}

/// Filtering drops a sequence none of whose members satisfies the entry
/// predicate.
proof fn lemma_entries_all_neg(s: Seq<SpecNode>)
    requires
        forall|j: int| 0 <= j < s.len() ==> !spec_is_entry(#[trigger] s[j]),
    ensures
        spec_entries(s) == Seq::<SpecNode>::empty(),
    decreases s.len(),
{
    reveal(Seq::filter);
    if s.len() > 0 {
        lemma_entries_all_neg(s.drop_last());
    }
}

/// A usage qualifier's token is recognized back as that qualifier: the
/// closed-enumeration mapping inverts itself.
pub proof fn lemma_usage_token_roundtrip(u: Usage)
    ensures
        spec_usage_from_token(spec_usage_token(u)) == Some(u),
        spec_parse_usage(spec_encode_usage(u)) == Ok::<Usage, SpecFieldError>(u),
{
    lemma_tags_distinct();
}

/// A record whose fallback marking is explicitly false cannot survive a
/// round trip: the encoder never emits the marking for false, so such a
/// record re-decodes with the marking absent. Round-trip identity is
/// stated for records without that one field value.
pub open spec fn no_explicit_false_default(r: SpecEnumeratedValues) -> bool {
    forall|j: int| 0 <= j < r.values.len() ==> (#[trigger] r.values[j]).is_default != Some(false)
}

/// Encoding one enumerated value and decoding the result restores it,
/// provided its fallback marking is not the explicit false that encoding
/// does not represent.
#[verifier::rlimit(100)]
pub proof fn lemma_value_roundtrip(v: SpecEnumeratedValue)
    requires
        v.is_default != Some(false),
    ensures
        spec_parse_value(spec_encode_value(v)) == Ok::<SpecEnumeratedValue, SpecFieldError>(v),
{
    lemma_tags_distinct();
    let n = spec_encode_value(v);
    let ne = spec_text_element("name"@, v.name);
    let dpart: Seq<SpecNode> = match v.description {
        Some(d) => seq![spec_text_element("description"@, d)],
        None => Seq::empty(),
    };
    let vpart: Seq<SpecNode> = match v.value {
        Some(x) => seq![spec_text_element("value"@, spec_hex8(x))],
        None => Seq::empty(),
    };
    let bpart: Seq<SpecNode> = if v.is_default == Some(true) {
        seq![spec_text_element("isDefault"@, "true"@)]
    } else {
        Seq::empty()
    };
    let ch = n.children;
    assert(ch =~= seq![ne] + dpart + vpart + bpart);
    // name: always the first child
    lemma_child_named_at(ch, "name"@, 0);
    assert(spec_child_text_opt(n, "name"@) == Ok::<Option<Seq<char>>, SpecFieldError>(
        Some(v.name),
    ));
    // description
    match v.description {
        Some(d) => {
            assert(ch[1] == dpart[0]);
            lemma_child_named_at(ch, "description"@, 1);
        },
        None => {
            assert forall|j: int| 0 <= j < ch.len() implies ch[j].name != "description"@ by {}
            lemma_child_named_absent(ch, "description"@);
        },
    }
    assert(spec_child_text_opt(n, "description"@) == Ok::<Option<Seq<char>>, SpecFieldError>(
        v.description,
    ));
    // value
    let iv = 1 + dpart.len() as int;
    match v.value {
        Some(x) => {
            assert(ch[iv] == vpart[0]);
            lemma_child_named_at(ch, "value"@, iv);
            lemma_parse_hex8(x);
        },
        None => {
            assert forall|j: int| 0 <= j < ch.len() implies ch[j].name != "value"@ by {}
            lemma_child_named_absent(ch, "value"@);
        },
    }
    // fallback marking
    let ib = iv + vpart.len() as int;
    match v.is_default {
        Some(b) => {
            assert(b);
            assert(ch[ib] == bpart[0]);
            lemma_child_named_at(ch, "isDefault"@, ib);
            assert(spec_child_text_opt(n, "isDefault"@) == Ok::<Option<Seq<char>>, SpecFieldError>(
                Some("true"@),
            ));
            assert(crate::scalar::spec_parse_bool_text("true"@) == Some(true));
        },
        None => {
            assert forall|j: int| 0 <= j < ch.len() implies ch[j].name != "isDefault"@ by {}
            lemma_child_named_absent(ch, "isDefault"@);
        },
    }
    assert(crate::enumeratedvalue::spec_opt_u32(n) == Ok::<Option<u32>, SpecFieldError>(v.value));
    assert(crate::enumeratedvalue::spec_opt_bool(n) == Ok::<Option<bool>, SpecFieldError>(
        v.is_default,
    ));
    let parsed = spec_parse_value(n);
    assert(parsed is Ok);
    assert(parsed->Ok_0 =~= v);
}

/// Round-trip identity for a whole collection: encoding a record and
/// decoding the result restores it, for every record without an explicit
/// false fallback marking.
#[verifier::rlimit(100)]
pub proof fn lemma_values_roundtrip(r: SpecEnumeratedValues)
    requires
        no_explicit_false_default(r),
    ensures
        spec_parse_values(spec_encode_values(r)) == Ok::<SpecEnumeratedValues, SpecSvdError>(r),
{
    lemma_tags_distinct();
    let n = spec_encode_values(r);
    let npart: Seq<SpecNode> = match r.name {
        Some(nm) => seq![spec_text_element("name"@, nm)],
        None => Seq::empty(),
    };
    let upart: Seq<SpecNode> = match r.usage {
        Some(u) => seq![spec_encode_usage(u)],
        None => Seq::empty(),
    };
    let vpart: Seq<SpecNode> = Seq::new(r.values.len(), |i: int| spec_encode_value(r.values[i]));
    let ch = n.children;
    assert(ch =~= npart + upart + vpart);
    assert(forall|j: int| 0 <= j < vpart.len() ==> (#[trigger] vpart[j]).name
        == "enumeratedValue"@);
    // name
    match r.name {
        Some(nm) => {
            lemma_child_named_at(ch, "name"@, 0);
        },
        None => {
            assert forall|j: int| 0 <= j < ch.len() implies ch[j].name != "name"@ by {}
            lemma_child_named_absent(ch, "name"@);
        },
    }
    assert(spec_child_text_opt(n, "name"@) == Ok::<Option<Seq<char>>, SpecFieldError>(r.name));
    // usage
    let iu = npart.len() as int;
    match r.usage {
        Some(u) => {
            assert(ch[iu] == upart[0]);
            lemma_child_named_at(ch, "usage"@, iu);
            lemma_usage_token_roundtrip(u);
        },
        None => {
            assert forall|j: int| 0 <= j < ch.len() implies ch[j].name != "usage"@ by {}
            lemma_child_named_absent(ch, "usage"@);
        },
    }
    assert(spec_opt_usage(n) == Ok::<Option<Usage>, SpecFieldError>(r.usage));
    // the attribute
    assert(spec_attr_named(n.attributes, "derivedFrom"@) == r.derived_from);
    // the entries are exactly the encoded values
    assert forall|j: int| 0 <= j < npart.len() implies !spec_is_entry(#[trigger] npart[j]) by {}
    assert forall|j: int| 0 <= j < upart.len() implies !spec_is_entry(#[trigger] upart[j]) by {}
    lemma_entries_all_neg(npart);
    lemma_entries_all_neg(upart);
    lemma_entries_all_pos(vpart);
    Seq::<SpecNode>::filter_distributes_over_add(npart + upart, vpart, entry_pred());
    Seq::<SpecNode>::filter_distributes_over_add(npart, upart, entry_pred());
    assert(spec_entries(npart + upart) =~= Seq::<SpecNode>::empty());
    assert(spec_entries(ch) =~= vpart);
    // every encoded entry decodes back to its value
    assert forall|j: int| 0 <= j < vpart.len() implies spec_parse_value(#[trigger] vpart[j])
        == Ok::<SpecEnumeratedValue, SpecFieldError>(r.values[j]) by {
        lemma_value_roundtrip(r.values[j]);
    }
    assert forall|j: int| 0 <= j < vpart.len() implies spec_parse_value(
        #[trigger] vpart[j],
    ) is Ok by {}
    lemma_parse_entries_all_ok(vpart, 0);
    let parsed = spec_parse_values(n);
    let vs = crate::enumeratedvalues::spec_parse_entries(spec_entries(ch), 0);
    assert(spec_entries(ch) == vpart);
    assert(vs is Ok);
    let ws = vs->Ok_0;
    assert forall|j: int| 0 <= j < ws.len() implies ws[j] == r.values[j] by {
        assert(spec_parse_value(vpart[j]) == Ok::<SpecEnumeratedValue, SpecFieldError>(
            r.values[j],
        ));
        assert(ws[j] == spec_parse_value(vpart[j])->Ok_0);
    }
    assert(ws =~= r.values);
    assert(parsed is Ok);
    assert(parsed->Ok_0 =~= r);
}

/// Decode-encode-decode is decode: any record a well-formed document
/// decodes to (without an explicit false fallback marking) re-encodes into
/// a document that decodes to the same record.
pub proof fn lemma_decode_encode_decode(d: SpecNode)
    requires
        spec_parse_values(d) matches Ok(r) && no_explicit_false_default(r),
    ensures
        spec_parse_values(d) matches Ok(r) ==> spec_parse_values(spec_encode_values(r))
            == spec_parse_values(d),
{
    let r = spec_parse_values(d)->Ok_0;
    lemma_values_roundtrip(r);
}

/// Optional-field omission, encoder side: an absent field is never
/// emitted, neither as a child nor as an attribute nor as a placeholder.
pub proof fn lemma_encode_omits_absent(r: SpecEnumeratedValues)
    ensures
        r.name is None ==> spec_child_named(spec_encode_values(r).children, "name"@) is None,
        r.usage is None ==> spec_child_named(spec_encode_values(r).children, "usage"@) is None,
        r.derived_from is None ==> spec_attr_named(
            spec_encode_values(r).attributes,
            "derivedFrom"@,
        ) is None,
{
    lemma_tags_distinct();
    let n = spec_encode_values(r);
    let vpart: Seq<SpecNode> = Seq::new(r.values.len(), |i: int| spec_encode_value(r.values[i]));
    if r.name is None {
        assert forall|j: int| 0 <= j < n.children.len() implies n.children[j].name != "name"@ by {}
        lemma_child_named_absent(n.children, "name"@);
    }
    if r.usage is None {
        assert forall|j: int| 0 <= j < n.children.len() implies n.children[j].name != "usage"@ by {}
        lemma_child_named_absent(n.children, "usage"@);
    }
}

/// Optional-field omission, entry encoder side: absent description, value
/// and fallback marking are omitted; so is a marking of explicit false.
pub proof fn lemma_encode_value_omits_absent(v: SpecEnumeratedValue)
    ensures
        v.description is None ==> spec_child_named(
            spec_encode_value(v).children,
            "description"@,
        ) is None,
        v.value is None ==> spec_child_named(spec_encode_value(v).children, "value"@) is None,
        v.is_default != Some(true) ==> spec_child_named(
            spec_encode_value(v).children,
            "isDefault"@,
        ) is None,
{
    lemma_tags_distinct();
    let n = spec_encode_value(v);
    if v.description is None {
        assert forall|j: int|
            0 <= j < n.children.len() implies n.children[j].name != "description"@ by {}
        lemma_child_named_absent(n.children, "description"@);
    }
    if v.value is None {
        assert forall|j: int| 0 <= j < n.children.len() implies n.children[j].name != "value"@ by {}
        lemma_child_named_absent(n.children, "value"@);
    }
    if v.is_default != Some(true) {
        assert forall|j: int|
            0 <= j < n.children.len() implies n.children[j].name != "isDefault"@ by {}
        lemma_child_named_absent(n.children, "isDefault"@);
    }
}

/// Optional-field omission, decoder side: a document without the child or
/// attribute decodes to an absent field, never to a default sentinel.
pub proof fn lemma_decode_absent_yields_none(d: SpecNode)
    ensures
        spec_parse_values(d) matches Ok(r) ==> ((spec_child_named(d.children, "name"@) is None
            ==> r.name is None) && (spec_child_named(d.children, "usage"@) is None
            ==> r.usage is None) && (spec_attr_named(d.attributes, "derivedFrom"@) is None
            ==> r.derived_from is None)),
{
}

/// Ordinal error context: when every enumerated-value entry before
/// position i decodes and the entry at i does not, the document fails with
/// exactly that entry's 0-based ordinal, counted among enumerated-value
/// children only — unrelated siblings do not shift it.
pub proof fn lemma_error_ordinal(d: SpecNode, i: int)
    requires
        spec_child_text_opt(d, "name"@) is Ok,
        spec_opt_usage(d) is Ok,
        0 <= i < spec_entries(d.children).len(),
        forall|j: int| 0 <= j < i ==> spec_parse_value(#[trigger] spec_entries(d.children)[j]) is Ok,
        spec_parse_value(spec_entries(d.children)[i]) is Err,
    ensures
        spec_parse_values(d) == Err::<SpecEnumeratedValues, SpecSvdError>(
            SpecSvdError::InEnumeratedValue(
                i as nat,
                spec_parse_value(spec_entries(d.children)[i])->Err_0,
            ),
        ),
{
    lemma_parse_entries_first_err(spec_entries(d.children), 0, i);
}

/// Numeric formatting of the canonical fixed-width form on the values the
/// validation fixtures pin down.
pub proof fn lemma_hex8_zero_one()
    ensures
        spec_hex8(0) == "0x00000000"@,
        spec_hex8(1) == "0x00000001"@,
{
    reveal_strlit("0x00000000");
    reveal_strlit("0x00000001");
    assert(spec_hex8(0) =~= "0x00000000"@);
    assert(spec_hex8(1) =~= "0x00000001"@);
}

} // verus!
