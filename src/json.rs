//! JSON and JSON Lines documents as trees: a value becomes a node, its
//! members or items become child nodes.
use vstd::prelude::*;
use crate::error::XtvError;
use crate::node::{NodeView, TreeNode, ATTRIBUTE_TYPE};
use crate::text::{append_decimal, append_str, chars_of, string_of_range};
use crate::tree::Tree;

verus! {

/// A JSON value as the tree builder reads it; numbers keep their text.
#[derive(Debug)]
pub enum JsonValue {
    Null,
    Bool(bool),
    Number(String),
    Str(String),
    Array(Vec<JsonValue>),
    Object(Vec<(String, JsonValue)>),
}

/// The decoded value type of `serde_json`, carried through opaquely.
#[verifier::external_type_specification]
#[verifier::external_body]
pub struct ExJsonValue(serde_json::Value);

/// What `serde_json` decodes a text to; none when the text is not JSON.
pub uninterp spec fn json_decoded(text: Seq<char>) -> Option<JsonValue>;

/// Carries a decoded `serde_json::Value` over into a `JsonValue`, one
/// variant for one; relies on `serde_json::Number`'s `to_string` for the
/// text of numbers and on `serde_json::Map` iteration for member order.
#[verifier::external_body]
fn from_serde(v: &serde_json::Value) -> JsonValue {
    match v {
        serde_json::Value::Null => JsonValue::Null,
        serde_json::Value::Bool(b) => JsonValue::Bool(*b),
        serde_json::Value::Number(n) => JsonValue::Number(n.to_string()),
        serde_json::Value::String(s) => JsonValue::Str(s.clone()),
        serde_json::Value::Array(a) => JsonValue::Array(a.iter().map(from_serde).collect()),
        serde_json::Value::Object(m) => JsonValue::Object(m.iter().map(|(k, x)| (k.clone(), from_serde(x))).collect()),
    }
}

/// Relies on `serde_json::from_str`: the value that the text holds, or none
/// when it is not a JSON text.
#[verifier::external_body]
fn decode_json(text: &str) -> (r: Option<JsonValue>)
    ensures
        r == json_decoded(text@),
{
    match serde_json::from_str::<serde_json::Value>(text) {
        Ok(v) => Some(from_serde(&v)),
        Err(_) => None,
    }
}

/// The kind of node a value becomes.
pub open spec fn json_kind(v: JsonValue) -> Seq<char> {
    match v {
        JsonValue::Object(_) => "object"@,
        JsonValue::Array(_) => "array"@,
        _ => ATTRIBUTE_TYPE@,
    }
}

/// The text shown for a value: its size for objects and arrays.
pub open spec fn json_shown(v: JsonValue) -> Seq<char> {
    match v {
        JsonValue::Null => "null"@,
        JsonValue::Bool(b) => if b { "true"@ } else { "false"@ },
        JsonValue::Number(n) => n@,
        JsonValue::Str(s) => s@,
        JsonValue::Array(a) => crate::text::decimal(a@.len()) + " items"@,
        JsonValue::Object(m) => crate::text::decimal(m@.len()) + " fields"@,
    }
}

/// The attribute that a value's node carries: its size or its value.
pub open spec fn json_attribute(v: JsonValue) -> (Seq<char>, Seq<char>) {
    match v {
        JsonValue::Array(_) => ("size"@, json_shown(v)),
        JsonValue::Object(_) => ("size"@, json_shown(v)),
        _ => ("value"@, json_shown(v)),
    }
}

/// The number of members or items of a value.
pub open spec fn json_arity(v: JsonValue) -> nat {
    match v {
        JsonValue::Array(a) => a@.len(),
        JsonValue::Object(m) => m@.len(),
        _ => 0,
    }
}

/// The label `[i]`.
pub open spec fn bracket_label(i: nat) -> Seq<char> {
    "["@ + crate::text::decimal(i) + "]"@
}

fn bracket(i: usize) -> (r: String)
    ensures
        r@ == bracket_label(i as nat),
{
    let mut s = String::new();
    append_str(&mut s, "[");
    append_decimal(&mut s, i);
    append_str(&mut s, "]");
    s
}

fn full_error() -> (r: XtvError)
    ensures
        r matches XtvError::TooLarge(_),
{
    let mut m = String::new();
    append_str(&mut m, "too many nodes for one tree");
    XtvError::TooLarge(m)
}

/// The node that a value becomes before its children are added.
fn json_node(key: &str, value: &JsonValue) -> (r: TreeNode)
    ensures
        r@ == (NodeView {
            attributes: seq![json_attribute(*value)],
            ..crate::node::fresh_node(key@, json_kind(*value))
        }),
{
    match value {
        JsonValue::Object(m) => {
            let mut node = TreeNode::new(key, "object");
            let mut s = String::new();
            append_decimal(&mut s, m.len());
            append_str(&mut s, " fields");
            node.add_attribute("size", s.as_str());
            node
        },
        JsonValue::Array(a) => {
            let mut node = TreeNode::new(key, "array");
            let mut s = String::new();
            append_decimal(&mut s, a.len());
            append_str(&mut s, " items");
            node.add_attribute("size", s.as_str());
            node
        },
        JsonValue::Str(s) => {
            let mut node = TreeNode::new(key, ATTRIBUTE_TYPE);
            node.add_attribute("value", s.as_str());
            node
        },
        JsonValue::Number(n) => {
            let mut node = TreeNode::new(key, ATTRIBUTE_TYPE);
            node.add_attribute("value", n.as_str());
            node
        },
        JsonValue::Bool(b) => {
            let mut node = TreeNode::new(key, ATTRIBUTE_TYPE);
            node.add_attribute("value", if *b { "true" } else { "false" });
            node
        },
        JsonValue::Null => {
            let mut node = TreeNode::new(key, ATTRIBUTE_TYPE);
            node.add_attribute("value", "null");
            node
        },
    }
}

/// Adds `value` under `parent_id` as a node labelled `key`, then its
/// members (labelled by their keys) or items (labelled `[i]`) below it.
/// Fails only when the tree cannot grow any more.
pub fn convert_value(tree: &mut Tree, parent_id: usize, value: &JsonValue, key: &str) -> (r: Result<(), XtvError>)
    requires
        old(tree).wf(),
        parent_id < old(tree)@.len(),
    ensures
        final(tree).wf(),
        final(tree)@.len() >= old(tree)@.len(),
        r is Err ==> r matches Err(XtvError::TooLarge(_)),
        r is Ok ==> forall|k: int| 0 <= k < old(tree)@.len() && k != parent_id ==> #[trigger] final(tree)@[k] == old(tree)@[k],
        r is Ok ==> ({
            let id = old(tree)@.len() as int;
            &&& final(tree)@.len() > id
            &&& final(tree)@[id].label == key@
            &&& final(tree)@[id].node_type == json_kind(*value)
            &&& final(tree)@[id].attributes == seq![json_attribute(*value)]
            &&& final(tree)@[id].parent_id == Some(parent_id)
            &&& final(tree)@[id].children.len() == json_arity(*value)
            &&& final(tree)@[parent_id as int] == (NodeView {
                children: old(tree)@[parent_id as int].children.push(id as usize),
                ..old(tree)@[parent_id as int]
            })
        }),
    decreases value,
{
    if tree.node_count() >= usize::MAX - 1 {
        return Err(full_error());
    }
    let node = json_node(key, value);
    let id = tree.add_child_node(parent_id, node);
    let ghost after = tree@;
    match value {
        JsonValue::Object(m) => {
            let mut i: usize = 0;
            while i < m.len()
                invariant
                    tree.wf(),
                    id == old(tree)@.len(),
                    i <= m@.len(),
                    tree@.len() > id,
                    forall|k: int| 0 <= k < id ==> #[trigger] tree@[k] == after[k],
                    tree@[id as int] == (NodeView { children: tree@[id as int].children, ..after[id as int] }),
                    tree@[id as int].children.len() == i,
                    *value == JsonValue::Object(*m),
                    parent_id < old(tree)@.len(),
                    after[parent_id as int] == (NodeView {
                        children: old(tree)@[parent_id as int].children.push(id),
                        ..old(tree)@[parent_id as int]
                    }),
                    forall|k: int| 0 <= k < old(tree)@.len() && k != parent_id ==> #[trigger] after[k] == old(tree)@[k],
                decreases m@.len() - i,
            {
                proof {
                    assert(decreases_to!(*value => (*value)->Object_0));
                    assert(decreases_to!(*m => m@));
                    assert(decreases_to!(m@ => m@[i as int]));
                    assert(decreases_to!(m@[i as int] => m@[i as int].1));
                }
                match convert_value(tree, id, &m[i].1, m[i].0.as_str()) {
                    Ok(()) => {},
                    Err(e) => return Err(e),
                }
                i = i + 1;
            }
        },
        JsonValue::Array(a) => {
            let mut i: usize = 0;
            while i < a.len()
                invariant
                    tree.wf(),
                    id == old(tree)@.len(),
                    i <= a@.len(),
                    tree@.len() > id,
                    forall|k: int| 0 <= k < id ==> #[trigger] tree@[k] == after[k],
                    tree@[id as int] == (NodeView { children: tree@[id as int].children, ..after[id as int] }),
                    tree@[id as int].children.len() == i,
                    *value == JsonValue::Array(*a),
                    parent_id < old(tree)@.len(),
                    after[parent_id as int] == (NodeView {
                        children: old(tree)@[parent_id as int].children.push(id),
                        ..old(tree)@[parent_id as int]
                    }),
                    forall|k: int| 0 <= k < old(tree)@.len() && k != parent_id ==> #[trigger] after[k] == old(tree)@[k],
                decreases a@.len() - i,
            {
                let label = bracket(i);
                proof {
                    assert(decreases_to!(*value => (*value)->Array_0));
                    assert(decreases_to!(*a => a@));
                    assert(decreases_to!(a@ => a@[i as int]));
                    }
                match convert_value(tree, id, &a[i], label.as_str()) {
                    Ok(()) => {},
                    Err(e) => return Err(e),
                }
                i = i + 1;
            }
        },
        _ => {},
    }
    Ok(())
}

/// The number of children of the root for a top-level value: its members
/// or items, or the value itself.
pub open spec fn top_level_count(v: JsonValue) -> nat {
    match v {
        JsonValue::Object(m) => m@.len(),
        JsonValue::Array(a) => a@.len(),
        _ => 1,
    }
}

/// Reads JSON documents.
pub struct JsonParser;

impl JsonParser {
    /// The tree of a JSON document: the members of a top-level object, or
    /// the items of a top-level array, go directly under the root; any other
    /// value becomes one child labelled `value`.
    pub fn parse(&self, content: &str) -> (r: Result<Tree, XtvError>)
        ensures
            r is Ok ==> json_decoded(content@) is Some && r->Ok_0.wf() && r->Ok_0@[0].label == "root"@
                && r->Ok_0@[0].children.len() == top_level_count(json_decoded(content@)->0),
            json_decoded(content@) is None ==> r matches Err(XtvError::JsonParse(_)),
            json_decoded(content@) is Some ==> r is Ok || r matches Err(XtvError::TooLarge(_)),
    {
        let value = match decode_json(content) {
            Some(v) => v,
            None => {
                let mut m = String::new();
                append_str(&mut m, "invalid JSON document");
                return Err(XtvError::JsonParse(m));
            },
        };
        let mut tree = Tree::new(TreeNode::new("root", "root"));
        proof {
            tree.lemma_wf_len();
        }
        match &value {
            JsonValue::Object(m) => {
                let mut i: usize = 0;
                while i < m.len()
                    invariant
                        tree.wf(),
                        tree@.len() >= 1,
                        tree@[0].label == "root"@,
                        tree@[0].children.len() == i,
                        i <= m@.len(),
                        json_decoded(content@) == Some(value),
                    decreases m@.len() - i,
                {
                    match convert_value(&mut tree, 0, &m[i].1, m[i].0.as_str()) {
                        Ok(()) => {},
                        Err(e) => return Err(e),
                    }
                    i = i + 1;
                }
            },
            JsonValue::Array(a) => {
                let mut i: usize = 0;
                while i < a.len()
                    invariant
                        tree.wf(),
                        tree@.len() >= 1,
                        tree@[0].label == "root"@,
                        tree@[0].children.len() == i,
                        i <= a@.len(),
                        json_decoded(content@) == Some(value),
                    decreases a@.len() - i,
                {
                    let label = bracket(i);
                    match convert_value(&mut tree, 0, &a[i], label.as_str()) {
                        Ok(()) => {},
                        Err(e) => return Err(e),
                    }
                    i = i + 1;
                }
            },
            _ => {
                match convert_value(&mut tree, 0, &value, "value") {
                    Ok(()) => {},
                    Err(e) => return Err(e),
                }
            },
        }
        Ok(tree)
    }

    /// Whether a path names a JSON file, by its extension.
    pub fn can_parse(&self, file_path: &str) -> (r: bool)
        ensures
            r == crate::formats::has_extension(file_path@, "json"@),
    {
        crate::formats::extension_is(file_path, "json")
    }
}

/// Adds the JSON value of the line `cs[start..end]`, numbered `line_no`,
/// under the root; a blank line adds nothing.
fn add_json_line(tree: &mut Tree, cs: &Vec<char>, start: usize, end: usize, line_no: usize) -> (r: Result<(), XtvError>)
    requires
        start <= end <= cs@.len(),
        old(tree).wf(),
        old(tree)@.len() >= 1,
    ensures
        final(tree).wf(),
        final(tree)@.len() >= 1,
        r is Ok ==> final(tree)@[0].label == old(tree)@[0].label,
        r is Err ==> r matches Err(XtvError::JsonParse(_)) || r matches Err(XtvError::TooLarge(_)),
{
    let (a, b) = crate::text::trim_bounds(cs, start, end);
    if a == b {
        return Ok(());
    }
    let line = string_of_range(cs, a, b);
    match decode_json(line.as_str()) {
        Some(v) => {
            let label = bracket(line_no);
            convert_value(tree, 0, &v, label.as_str())
        },
        None => {
            let mut m = String::new();
            append_str(&mut m, "invalid JSON on line ");
            append_decimal(&mut m, line_no);
            Err(XtvError::JsonParse(m))
        },
    }
}

/// Reads JSON Lines files: one JSON value per non-blank line.
pub struct JsonLinesParser;

impl JsonLinesParser {
    /// The tree of a JSON Lines file: each non-blank line becomes a child of
    /// the root labelled `[n]`, `n` its line number from 1; a line that is
    /// not JSON is an error.
    pub fn parse(&self, content: &str) -> (r: Result<Tree, XtvError>)
        ensures
            r is Ok ==> r->Ok_0.wf() && r->Ok_0@[0].label == "root"@,
            r is Err ==> r matches Err(XtvError::JsonParse(_)) || r matches Err(XtvError::TooLarge(_)),
    {
        let cs = chars_of(content);
        let _n = cs.len();
        let mut tree = Tree::new(TreeNode::new("root", "root"));
        proof {
            tree.lemma_wf_len();
        }
        let mut start: usize = 0;
        let mut line_no: usize = 0;
        let mut i: usize = 0;
        while i < cs.len()
            invariant
                start <= i <= cs@.len(),
                line_no <= start,
                cs@.len() <= usize::MAX,
                tree.wf(),
                tree@.len() >= 1,
                tree@[0].label == "root"@,
            decreases cs@.len() - i,
        {
            if cs[i] == '\n' {
                line_no = line_no + 1;
                match add_json_line(&mut tree, &cs, start, i, line_no) {
                    Ok(()) => {},
                    Err(e) => return Err(e),
                }
                start = i + 1;
            }
            i = i + 1;
        }
        if start < cs.len() {
            line_no = line_no + 1;
            match add_json_line(&mut tree, &cs, start, cs.len(), line_no) {
                Ok(()) => {},
                Err(e) => return Err(e),
            }
        }
        Ok(tree)
    }

    /// Whether a path names a JSON Lines file, by its extension.
    pub fn can_parse(&self, file_path: &str) -> (r: bool)
        ensures
            r == crate::formats::has_extension(file_path@, "jsonl"@),
    {
        crate::formats::extension_is(file_path, "jsonl")
    }
}

} // verus!
