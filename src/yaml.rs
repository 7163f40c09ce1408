//! YAML values held as plain data, and their bridge to `yaml_rust2`.
use vstd::prelude::*;
use yaml_rust2::{Yaml, YamlLoader};

verus! {

/// Mathematical model of a YAML node. `Other` stands for aliases and
/// invalid values.
pub enum YamlTree {
    Real(Seq<char>),
    Integer(i64),
    Str(Seq<char>),
    Boolean(bool),
    Array(Seq<YamlTree>),
    Hash(Seq<(YamlTree, YamlTree)>),
    Null,
    Other,
}

/// A YAML node held as plain values. A real keeps its text; a mapping keeps
/// its entries in document order.
#[derive(Debug)]
pub enum YamlValue {
    Real(String),
    Integer(i64),
    Str(String),
    Boolean(bool),
    Array(Vec<YamlValue>),
    Hash(Vec<(YamlValue, YamlValue)>),
    Null,
    Other,
}

impl YamlValue {
    pub open spec fn view(&self) -> YamlTree
        decreases self,
    {
        match self {
            YamlValue::Real(s) => YamlTree::Real(s@),
            YamlValue::Integer(i) => YamlTree::Integer(*i),
            YamlValue::Str(s) => YamlTree::Str(s@),
            YamlValue::Boolean(b) => YamlTree::Boolean(*b),
            YamlValue::Array(items) => YamlTree::Array(
                Seq::new(
                    items@.len(),
                    |i: int|
                        if 0 <= i < items@.len() {
                            items@[i].view()
                        } else {
                            arbitrary()
                        },
                ),
            ),
            YamlValue::Hash(entries) => YamlTree::Hash(
                Seq::new(
                    entries@.len(),
                    |i: int|
                        if 0 <= i < entries@.len() {
                            (entries@[i].0.view(), entries@[i].1.view())
                        } else {
                            arbitrary()
                        },
                ),
            ),
            YamlValue::Null => YamlTree::Null,
            YamlValue::Other => YamlTree::Other,
        }
    }
}

/// One level of a `yaml_rust2` node: scalars as plain values, the items and
/// entries of collections still as `yaml_rust2` nodes.
pub enum YamlLevel {
    Real(String),
    Integer(i64),
    Str(String),
    Boolean(bool),
    Array(Vec<Yaml>),
    Hash(Vec<(Yaml, Yaml)>),
    Null,
    Other,
}

#[verifier::external_type_specification]
#[verifier::external_body]
pub struct ExYaml(Yaml);

/// The tree that a `yaml_rust2` node stands for.
pub uninterp spec fn yaml_tree_of(y: Yaml) -> YamlTree;

/// The documents that `YamlLoader::load_from_str` reads from a text, or the
/// message of the scan error it reports.
pub uninterp spec fn yaml_load_of(text: Seq<char>) -> Result<Seq<YamlTree>, Seq<char>>;

/// Relies on `yaml_rust2::YamlLoader::load_from_str`: the documents of a
/// text, or a scan error, whose message (its `Display`) is kept as text.
#[verifier::external_body]
fn load_yaml(text: &str) -> (r: Result<Vec<Yaml>, String>)
    ensures
        r is Ok <==> yaml_load_of(text@) is Ok,
        r is Ok ==> r->Ok_0@.len() == yaml_load_of(text@)->Ok_0.len(),
        r is Ok ==> forall|i: int|
            0 <= i < r->Ok_0@.len() ==> #[trigger] yaml_tree_of(r->Ok_0@[i]) == yaml_load_of(text@)->Ok_0[i],
        r is Err ==> r->Err_0@ == yaml_load_of(text@)->Err_0,
{
    YamlLoader::load_from_str(text).map_err(|e| e.to_string())
}

/// Relies on the variants of `yaml_rust2::Yaml`, one arm each; a mapping's
/// entries are listed in its iteration order, which is document order.
#[verifier::external_body]
fn yaml_level(y: &Yaml) -> (r: YamlLevel)
    ensures
        match r {
            YamlLevel::Real(s) => yaml_tree_of(*y) == YamlTree::Real(s@),
            YamlLevel::Integer(i) => yaml_tree_of(*y) == YamlTree::Integer(i),
            YamlLevel::Str(s) => yaml_tree_of(*y) == YamlTree::Str(s@),
            YamlLevel::Boolean(b) => yaml_tree_of(*y) == YamlTree::Boolean(b),
            YamlLevel::Array(items) => yaml_tree_of(*y) is Array
                && items@.len() == yaml_tree_of(*y)->Array_0.len()
                && forall|i: int| 0 <= i < items@.len()
                    ==> #[trigger] yaml_tree_of(items@[i]) == yaml_tree_of(*y)->Array_0[i],
            YamlLevel::Hash(entries) => yaml_tree_of(*y) is Hash
                && entries@.len() == yaml_tree_of(*y)->Hash_0.len()
                && forall|i: int| 0 <= i < entries@.len()
                    ==> (#[trigger] yaml_tree_of(entries@[i].0), yaml_tree_of(entries@[i].1))
                        == yaml_tree_of(*y)->Hash_0[i],
            YamlLevel::Null => yaml_tree_of(*y) == YamlTree::Null,
            YamlLevel::Other => yaml_tree_of(*y) == YamlTree::Other,
        },
{
    match y {
        Yaml::Real(s) => YamlLevel::Real(s.clone()),
        Yaml::Integer(i) => YamlLevel::Integer(*i),
        Yaml::String(s) => YamlLevel::Str(s.clone()),
        Yaml::Boolean(b) => YamlLevel::Boolean(*b),
        Yaml::Array(a) => YamlLevel::Array(a.clone()),
        Yaml::Hash(h) => YamlLevel::Hash(h.iter().map(|(k, v)| (k.clone(), v.clone())).collect()),
        Yaml::Null => YamlLevel::Null,
        _ => YamlLevel::Other,
    }
}

/// Copies a `yaml_rust2` node into plain values.
fn yaml_value_from(y: &Yaml) -> (r: YamlValue)
    ensures
        r.view() == yaml_tree_of(*y),
    decreases yaml_tree_of(*y),
{
    let ghost t = yaml_tree_of(*y);
    match yaml_level(y) {
        YamlLevel::Real(s) => YamlValue::Real(s),
        YamlLevel::Integer(i) => YamlValue::Integer(i),
        YamlLevel::Str(s) => YamlValue::Str(s),
        YamlLevel::Boolean(b) => YamlValue::Boolean(b),
        YamlLevel::Array(items) => {
            let ghost ts = t->Array_0;
            let mut out: Vec<YamlValue> = Vec::new();
            let mut i: usize = 0;
            while i < items.len()
                invariant
                    t == yaml_tree_of(*y),
                    t is Array,
                    ts == t->Array_0,
                    items@.len() == ts.len(),
                    forall|j: int| 0 <= j < items@.len() ==> #[trigger] yaml_tree_of(items@[j]) == ts[j],
                    i <= items@.len(),
                    out@.len() == i,
                    forall|j: int| 0 <= j < i ==> #[trigger] out@[j].view() == ts[j],
                decreases items@.len() - i,
            {
                assert(yaml_tree_of(items@[i as int]) == ts[i as int]);
                proof {
                    assert(decreases_to!(t => ts[i as int]));
                }
                let v = yaml_value_from(&items[i]);
                out.push(v);
                i = i + 1;
            }
            let ghost ov = out@;
            let r = YamlValue::Array(out);
            assert forall|j: int| 0 <= j < ts.len() implies r.view()->Array_0[j] == ts[j] by {
                assert(ov[j].view() == ts[j]);
            }
            assert(r.view()->Array_0 =~= ts);
            r
        },
        YamlLevel::Hash(entries) => {
            let ghost es = t->Hash_0;
            let mut out: Vec<(YamlValue, YamlValue)> = Vec::new();
            let mut i: usize = 0;
            while i < entries.len()
                invariant
                    t == yaml_tree_of(*y),
                    t is Hash,
                    es == t->Hash_0,
                    entries@.len() == es.len(),
                    forall|j: int|
                        0 <= j < entries@.len() ==> (#[trigger] yaml_tree_of(entries@[j].0), yaml_tree_of(entries@[j].1))
                            == es[j],
                    i <= entries@.len(),
                    out@.len() == i,
                    forall|j: int| 0 <= j < i ==> (#[trigger] out@[j].0.view(), out@[j].1.view()) == es[j],
                decreases entries@.len() - i,
            {
                assert((yaml_tree_of(entries@[i as int].0), yaml_tree_of(entries@[i as int].1)) == es[i as int]);
                proof {
                    assert(decreases_to!(t => es[i as int].0));
                    assert(decreases_to!(t => es[i as int].1));
                }
                let k = yaml_value_from(&entries[i].0);
                let v = yaml_value_from(&entries[i].1);
                out.push((k, v));
                i = i + 1;
            }
            let ghost ov = out@;
            let r = YamlValue::Hash(out);
            assert forall|j: int| 0 <= j < es.len() implies r.view()->Hash_0[j] == es[j] by {
                assert((ov[j].0.view(), ov[j].1.view()) == es[j]);
            }
            assert(r.view()->Hash_0 =~= es);
            r
        },
        YamlLevel::Null => YamlValue::Null,
        YamlLevel::Other => YamlValue::Other,
    }
}

/// The YAML documents of `text`, as plain values, or the scanner's message.
pub fn load_yaml_documents(text: &str) -> (r: Result<Vec<YamlValue>, String>)
    ensures
        r is Ok <==> yaml_load_of(text@) is Ok,
        r is Ok ==> r->Ok_0@.len() == yaml_load_of(text@)->Ok_0.len(),
        r is Ok ==> forall|i: int|
            0 <= i < r->Ok_0@.len() ==> #[trigger] r->Ok_0@[i].view() == yaml_load_of(text@)->Ok_0[i],
        r is Err ==> r->Err_0@ == yaml_load_of(text@)->Err_0,
{
    match load_yaml(text) {
        Ok(docs) => {
            let mut out: Vec<YamlValue> = Vec::new();
            let mut i: usize = 0;
            while i < docs.len()
                invariant
                    yaml_load_of(text@) is Ok,
                    docs@.len() == yaml_load_of(text@)->Ok_0.len(),
                    forall|j: int|
                        0 <= j < docs@.len() ==> #[trigger] yaml_tree_of(docs@[j]) == yaml_load_of(text@)->Ok_0[j],
                    i <= docs@.len(),
                    out@.len() == i,
                    forall|j: int| 0 <= j < i ==> #[trigger] out@[j].view() == yaml_load_of(text@)->Ok_0[j],
                decreases docs@.len() - i,
            {
                let v = yaml_value_from(&docs[i]);
                out.push(v);
                i = i + 1;
            }
            Ok(out)
        },
        Err(e) => Err(e),
    }
}

} // verus!
