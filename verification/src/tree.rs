use crate::error::FieldError;
use crate::error::SpecFieldError;
use crate::scalar::str_eq;
use vstd::prelude::*;
use vstd::string::*;

verus! {

// ---------------------------------------------------------------------------
// The markup tree
// ---------------------------------------------------------------------------
/// Mathematical model of one markup tree node: a tag name, an attribute
/// list (key order insignificant; the decoder reads the first binding of a
/// key), ordered children, and optional direct text content.
#[verifier::ext_equal]
pub struct SpecNode {
    pub name: Seq<char>,
    pub attributes: Seq<(Seq<char>, Seq<char>)>,
    pub children: Seq<SpecNode>,
    pub text: Option<Seq<char>>,
}

/// One markup tree node, the library's own representation of the generic
/// tree that documents are tokenized into. Unverified edge code converts
/// between this type and the tokenizer's tree before and after the codec
/// runs.
#[derive(Debug)]
pub struct XmlNode {
    pub name: String,
    pub attributes: Vec<(String, String)>,
    pub children: Vec<XmlNode>,
    pub text: Option<String>,
}

/// The view of optional owned text.
pub open spec fn opt_string_view(o: Option<String>) -> Option<Seq<char>> {
    match o {
        Some(s) => Some(s@),
        None => None,
    }
}

/// The view of an attribute list.
pub open spec fn attrs_view(attrs: Seq<(String, String)>) -> Seq<(Seq<char>, Seq<char>)> {
    Seq::new(attrs.len(), |i: int| (attrs[i].0@, attrs[i].1@))
}

/// The view of one node, recursively over its children.
pub open spec fn node_view(n: XmlNode) -> SpecNode
    decreases n,
{
    SpecNode {
        name: n.name@,
        attributes: attrs_view(n.attributes@),
        children: nodes_view(n.children@),
        text: opt_string_view(n.text),
    }
}

/// The view of a sequence of nodes.
pub open spec fn nodes_view(ns: Seq<XmlNode>) -> Seq<SpecNode>
    decreases ns,
{
    if ns.len() == 0 {
        Seq::empty()
    } else {
        seq![node_view(ns[0])] + nodes_view(ns.drop_first())
    }
}

impl View for XmlNode {
    type V = SpecNode;

    open spec fn view(&self) -> SpecNode {
        node_view(*self)
    }
}

/// A node sequence and its view line up element by element.
pub proof fn lemma_nodes_view(ns: Seq<XmlNode>)
    ensures
        nodes_view(ns).len() == ns.len(),
        forall|i: int| 0 <= i < ns.len() ==> #[trigger] nodes_view(ns)[i] == node_view(ns[i]),
    decreases ns,
{
    if ns.len() > 0 {
        lemma_nodes_view(ns.drop_first());
        assert forall|i: int| 0 <= i < ns.len() implies #[trigger] nodes_view(ns)[i] == node_view(
            ns[i],
        ) by {
            if i > 0 {
                assert(nodes_view(ns)[i] == nodes_view(ns.drop_first())[i - 1]);
                assert(ns.drop_first()[i - 1] == ns[i]);
            }
        }
    }
}

// ---------------------------------------------------------------------------
// Child and attribute lookup: always the first match in order
// ---------------------------------------------------------------------------
/// The first child with the given tag name, if any.
pub open spec fn spec_child_named(children: Seq<SpecNode>, tag: Seq<char>) -> Option<SpecNode>
    decreases children.len(),
{
    if children.len() == 0 {
        None
    } else if children[0].name == tag {
        Some(children[0])
    } else {
        spec_child_named(children.drop_first(), tag)
    }
}

/// The value under the first binding of the given key, if any.
pub open spec fn spec_attr_named(attrs: Seq<(Seq<char>, Seq<char>)>, key: Seq<char>) -> Option<
    Seq<char>,
>
    decreases attrs.len(),
{
    if attrs.len() == 0 {
        None
    } else if attrs[0].0 == key {
        Some(attrs[0].1)
    } else {
        spec_attr_named(attrs.drop_first(), key)
    }
}

/// Lookup lands on position i when it holds the tag and no earlier one does.
pub proof fn lemma_child_named_at(children: Seq<SpecNode>, tag: Seq<char>, i: int)
    requires
        0 <= i < children.len(),
        children[i].name == tag,
        forall|j: int| 0 <= j < i ==> children[j].name != tag,
    ensures
        spec_child_named(children, tag) == Some(children[i]),
    decreases i,
{
    if i > 0 {
        assert forall|j: int| 0 <= j < i - 1 implies children.drop_first()[j].name != tag by {
            assert(children.drop_first()[j] == children[j + 1]);
        }
        assert(children.drop_first()[i - 1] == children[i]);
        lemma_child_named_at(children.drop_first(), tag, i - 1);
    }
}

/// Lookup misses when no child holds the tag.
pub proof fn lemma_child_named_absent(children: Seq<SpecNode>, tag: Seq<char>)
    requires
        forall|j: int| 0 <= j < children.len() ==> children[j].name != tag,
    ensures
        spec_child_named(children, tag) is None,
    decreases children.len(),
{
    if children.len() > 0 {
        assert forall|j: int|
            0 <= j < children.drop_first().len() implies children.drop_first()[j].name != tag by {
            assert(children.drop_first()[j] == children[j + 1]);
        }
        lemma_child_named_absent(children.drop_first(), tag);
    }
}

/// Attribute lookup lands on position i when it binds the key first.
pub proof fn lemma_attr_named_at(attrs: Seq<(Seq<char>, Seq<char>)>, key: Seq<char>, i: int)
    requires
        0 <= i < attrs.len(),
        attrs[i].0 == key,
        forall|j: int| 0 <= j < i ==> attrs[j].0 != key,
    ensures
        spec_attr_named(attrs, key) == Some(attrs[i].1),
    decreases i,
{
    if i > 0 {
        assert forall|j: int| 0 <= j < i - 1 implies attrs.drop_first()[j].0 != key by {
            assert(attrs.drop_first()[j] == attrs[j + 1]);
        }
        assert(attrs.drop_first()[i - 1] == attrs[i]);
        lemma_attr_named_at(attrs.drop_first(), key, i - 1);
    }
}

/// Attribute lookup misses when no binding holds the key.
pub proof fn lemma_attr_named_absent(attrs: Seq<(Seq<char>, Seq<char>)>, key: Seq<char>)
    requires
        forall|j: int| 0 <= j < attrs.len() ==> attrs[j].0 != key,
    ensures
        spec_attr_named(attrs, key) is None,
    decreases attrs.len(),
{
    if attrs.len() > 0 {
        assert forall|j: int| 0 <= j < attrs.drop_first().len() implies attrs.drop_first()[j].0
            != key by {
            assert(attrs.drop_first()[j] == attrs[j + 1]);
        }
        lemma_attr_named_absent(attrs.drop_first(), key);
    }
}

// ---------------------------------------------------------------------------
// The shared optional-field extraction pattern
// ---------------------------------------------------------------------------
/// The text carried by the first child with the given tag: absent child
/// gives `Ok(None)`, a child without text is a structural error.
pub open spec fn spec_child_text_opt(n: SpecNode, tag: Seq<char>) -> Result<
    Option<Seq<char>>,
    SpecFieldError,
> {
    match spec_child_named(n.children, tag) {
        None => Ok(None),
        Some(c) => match c.text {
            Some(t) => Ok(Some(t)),
            None => Err(SpecFieldError::EmptyTag(tag)),
        },
    }
}

/// The view of an optional-text extraction result.
pub open spec fn res_opt_text_view(r: Result<Option<String>, FieldError>) -> Result<
    Option<Seq<char>>,
    SpecFieldError,
> {
    match r {
        Ok(v) => Ok(opt_string_view(v)),
        Err(e) => Err(e@),
    }
}

impl XmlNode {
    /// The position of the first child with the given tag name.
    pub fn find_child(&self, tag: &str) -> (r: Option<usize>)
        ensures
            match r {
                Some(i) => i < self.children.len() && self@.children[i as int] == node_view(
                    self.children@[i as int],
                ) && spec_child_named(self@.children, tag@) == Some(self@.children[i as int]),
                None => spec_child_named(self@.children, tag@) is None,
            },
    {
        proof {
            lemma_nodes_view(self.children@);
        }
        let n = self.children.len();
        let mut i: usize = 0;
        while i < n
            invariant
                i <= n,
                n == self.children.len(),
                nodes_view(self.children@).len() == self.children@.len(),
                forall|k: int| 0 <= k < n ==> #[trigger] nodes_view(self.children@)[k]
                    == node_view(self.children@[k]),
                forall|j: int| 0 <= j < i ==> self@.children[j].name != tag@,
            decreases n - i,
        {
            if str_eq(self.children[i].name.as_str(), tag) {
                proof {
                    lemma_child_named_at(self@.children, tag@, i as int);
                }
                return Some(i);
            }
            i = i + 1;
        }
        proof {
            lemma_child_named_absent(self@.children, tag@);
        }
        None
    }

    /// Extracts the optional text of the first child with the given tag.
    pub fn get_child_text_opt(&self, tag: &str) -> (r: Result<Option<String>, FieldError>)
        ensures
            res_opt_text_view(r) == spec_child_text_opt(self@, tag@),
    {
        match self.find_child(tag) {
            None => Ok(None),
            Some(i) => match &self.children[i].text {
                Some(t) => Ok(Some(t.clone())),
                None => Err(FieldError::EmptyTag(tag.to_owned())),
            },
        }
    }

    /// The value of the attribute with the given key, if present.
    pub fn get_attribute(&self, key: &str) -> (r: Option<String>)
        ensures
            opt_string_view(r) == spec_attr_named(self@.attributes, key@),
    {
        let n = self.attributes.len();
        let mut i: usize = 0;
        while i < n
            invariant
                i <= n,
                n == self.attributes.len(),
                forall|j: int| 0 <= j < i ==> self@.attributes[j].0 != key@,
            decreases n - i,
        {
            if str_eq(self.attributes[i].0.as_str(), key) {
                proof {
                    lemma_attr_named_at(self@.attributes, key@, i as int);
                }
                return Some(self.attributes[i].1.clone());
            }
            i = i + 1;
        }
        proof {
            lemma_attr_named_absent(self@.attributes, key@);
        }
        None
    }
}

/// The model of an element that carries only a tag name and text.
pub open spec fn spec_text_element(tag: Seq<char>, t: Seq<char>) -> SpecNode {
    SpecNode { name: tag, attributes: Seq::empty(), children: Seq::empty(), text: Some(t) }
}

/// A fresh element with the given tag name and optional text, no
/// attributes and no children.
pub fn new_element(name: &str, text: Option<String>) -> (r: XmlNode)
    ensures
        r@ == (SpecNode {
            name: name@,
            attributes: Seq::empty(),
            children: Seq::empty(),
            text: opt_string_view(text),
        }),
{
    let r = XmlNode { name: name.to_owned(), attributes: Vec::new(), children: Vec::new(), text };
    proof {
        assert(r@.attributes =~= Seq::<(Seq<char>, Seq<char>)>::empty());
        assert(r@.children =~= Seq::<SpecNode>::empty());
        assert(r@ =~= (SpecNode {
            name: name@,
            attributes: Seq::empty(),
            children: Seq::empty(),
            text: opt_string_view(r.text),
        }));
    }
    r
}

} // verus!
