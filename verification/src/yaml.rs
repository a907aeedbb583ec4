//! YAML documents as plain values, and the reading of a YAML text into them.
use vstd::prelude::*;
use yaml_rust::{ScanError, Yaml, YamlLoader};

verus! {

#[verifier::external_type_specification]
#[verifier::external_body]
pub struct ExYaml(Yaml);

#[verifier::external_type_specification]
#[verifier::external_body]
pub struct ExScanError(ScanError);

/// A YAML node. A mapping keeps its entries in document order.
#[derive(Debug)]
pub enum YamlNode {
    Real(String),
    Integer(i64),
    String(String),
    Boolean(bool),
    Array(Vec<YamlNode>),
    Hash(Vec<(YamlNode, YamlNode)>),
    Alias(usize),
    Null,
    BadValue,
}

/// The documents that `yaml_rust::YamlLoader::load_from_str` reads from a
/// text, or `None` when it reports a scan error.
pub uninterp spec fn yaml_documents(text: Seq<char>) -> Option<Seq<YamlNode>>;

/// One-for-one copy of a `yaml_rust::Yaml` tree into a [`YamlNode`] tree.
#[verifier::external_body]
fn node_of(y: &Yaml) -> YamlNode {
    match y {
        Yaml::Real(s) => YamlNode::Real(s.clone()),
        Yaml::Integer(i) => YamlNode::Integer(*i),
        Yaml::String(s) => YamlNode::String(s.clone()),
        Yaml::Boolean(b) => YamlNode::Boolean(*b),
        Yaml::Array(items) => YamlNode::Array(items.iter().map(node_of).collect()),
        Yaml::Hash(h) => YamlNode::Hash(h.iter().map(|(k, v)| (node_of(k), node_of(v))).collect()),
        Yaml::Alias(a) => YamlNode::Alias(*a),
        Yaml::Null => YamlNode::Null,
        Yaml::BadValue => YamlNode::BadValue,
    }
}

/// `yaml_rust::YamlLoader::load_from_str`, with the documents copied into
/// [`YamlNode`] trees. The documents are named, not described: what the
/// YAML grammar makes of a text is left to the outside crate.
#[verifier::external_body]
pub(crate) fn load_yaml(text: &str) -> (r: Result<Vec<YamlNode>, ScanError>)
    ensures
        r is Ok <==> yaml_documents(text@) is Some,
        r matches Ok(docs) ==> yaml_documents(text@) == Some(docs@),
{
    match YamlLoader::load_from_str(text) {
        Ok(docs) => Ok(docs.iter().map(node_of).collect()),
        Err(e) => Err(e),
    }
}

/// The node is the string `key`.
pub open spec fn key_is(node: YamlNode, key: Seq<char>) -> bool {
    node matches YamlNode::String(s) && s@ == key
}

/// The text of a string node.
pub open spec fn as_text(node: YamlNode) -> Option<Seq<char>> {
    match node {
        YamlNode::String(s) => Some(s@),
        _ => None,
    }
}

/// The value stored under the string key `key` in a mapping's entries.
#[verifier::opaque]
pub open spec fn lookup(pairs: Seq<(YamlNode, YamlNode)>, key: Seq<char>) -> Option<YamlNode> {
    if exists|i: int| 0 <= i < pairs.len() && key_is(pairs[i].0, key) {
        let i = choose|i: int|
            0 <= i < pairs.len() && key_is(pairs[i].0, key) && forall|j: int|
                0 <= j < i ==> !key_is(#[trigger] pairs[j].0, key);
        Some(pairs[i].1)
    } else {
        None
    }
}

/// Finds the value under the string key `key`.
pub fn find_key<'a>(pairs: &'a Vec<(YamlNode, YamlNode)>, key: &str) -> (r: Option<&'a YamlNode>)
    ensures
        r matches Some(v) ==> lookup(pairs@, key@) == Some(*v),
        r is None ==> lookup(pairs@, key@) is None,
{
    let wanted = String::from_str(key);
    let mut i: usize = 0;
    while i < pairs.len()
        invariant
            i <= pairs@.len(),
            wanted@ == key@,
            forall|j: int| 0 <= j < i ==> !key_is(#[trigger] pairs@[j].0, key@),
        decreases pairs@.len() - i,
    {
        let hit = match &pairs[i].0 {
            YamlNode::String(s) => *s == wanted,
            _ => false,
        };
        if hit {
            proof {
                reveal(lookup);
                let c = choose|c: int|
                    0 <= c < pairs@.len() && key_is(pairs@[c].0, key@) && forall|j: int|
                        0 <= j < c ==> !key_is(#[trigger] pairs@[j].0, key@);
                assert(key_is(pairs@[i as int].0, key@));
                if c < i {
                } else if c > i {
                    assert(!key_is(pairs@[i as int].0, key@));
                }
            }
            return Some(&pairs[i].1);
        }
        i = i + 1;
    }
    proof {
        reveal(lookup);
    }
    None
}

/// A lookup finds the value of the first entry whose key is the string
/// `key`, and nothing when no entry has that key.
pub proof fn lemma_lookup_first(pairs: Seq<(YamlNode, YamlNode)>, key: Seq<char>)
    ensures
        lookup(pairs, key) is None <==> forall|i: int|
            0 <= i < pairs.len() ==> !key_is(#[trigger] pairs[i].0, key),
        forall|i: int|
            0 <= i < pairs.len() && key_is(#[trigger] pairs[i].0, key) && (forall|j: int|
                0 <= j < i ==> !key_is(pairs[j].0, key)) ==> lookup(pairs, key) == Some(pairs[i].1),
{
    reveal(lookup);
    assert forall|i: int|
        0 <= i < pairs.len() && key_is(#[trigger] pairs[i].0, key) && (forall|j: int|
            0 <= j < i ==> !key_is(pairs[j].0, key)) implies lookup(pairs, key) == Some(pairs[i].1) by {
        let c = choose|c: int|
            0 <= c < pairs.len() && key_is(pairs[c].0, key) && forall|j: int|
                0 <= j < c ==> !key_is(#[trigger] pairs[j].0, key);
        if c < i {
            assert(!key_is(pairs[c].0, key));
        } else if c > i {
            assert(!key_is(pairs[i].0, key));
        }
    }
}

} // verus!
