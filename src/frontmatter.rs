//! Splitting a document into its metadata block and body, and flattening
//! the metadata into dotted-path keys.
//!
//! A document with metadata starts with `---` and white space that holds a
//! newline; the metadata block follows and ends at the first newline that is
//! followed by `---` and by white space holding a newline; the body starts
//! after the last newline of that white space. This is the leftmost-first
//! match of `^---\s*\n([\s\S]*?)\n---\s*\n([\s\S]*)`.
use vstd::prelude::*;
use crate::flatmap::{keys_unique, lemma_lookup_put, lemma_lookup_put_other, lookup, put, FlatMap, FlatModel, FlatValue};
use crate::text::{char_is_space, chars_of, is_space, string_from_chars};
use crate::error::{DokeError, DokeResult};
use crate::yaml::{load_yaml_documents, yaml_load_of, YamlTree, YamlValue};
use yaml_rust2::Yaml;

verus! {

/// The first index at or after `j` that holds no white space, or the length.
pub open spec fn space_run_end(s: Seq<char>, j: int) -> int
    decreases s.len() - j,
{
    if j < 0 || j >= s.len() {
        s.len() as int
    } else if is_space(s[j]) {
        space_run_end(s, j + 1)
    } else {
        j
    }
}

/// The last newline in `s[from..to]`, or -1.
pub open spec fn last_newline(s: Seq<char>, from: int, to: int) -> int
    decreases to - from,
{
    if to <= from || from < 0 || to > s.len() {
        -1
    } else if s[to - 1] == '\n' {
        to - 1
    } else {
        last_newline(s, from, to - 1)
    }
}

/// `---` starts at `j`.
pub open spec fn dashes_at(s: Seq<char>, j: int) -> bool {
    0 <= j && j + 3 <= s.len() && s[j] == '-' && s[j + 1] == '-' && s[j + 2] == '-'
}

/// A closing delimiter starts at `e`: a newline, `---`, and white space that
/// holds a newline.
pub open spec fn closing_at(s: Seq<char>, e: int) -> bool {
    &&& 0 <= e < s.len()
    &&& s[e] == '\n'
    &&& dashes_at(s, e + 1)
    &&& last_newline(s, e + 4, space_run_end(s, e + 4)) >= 0
}

/// The first closing delimiter at or after `e`, or the length.
pub open spec fn first_closing_from(s: Seq<char>, e: int) -> int
    decreases s.len() - e,
{
    if e < 0 || e >= s.len() {
        s.len() as int
    } else if closing_at(s, e) {
        e
    } else {
        first_closing_from(s, e + 1)
    }
}

/// The metadata block starting at `m` and the body after its closing
/// delimiter, if the block is closed.
pub open spec fn block_from(s: Seq<char>, m: int) -> Option<(Seq<char>, Seq<char>)> {
    let e = first_closing_from(s, m);
    if 0 <= m <= e < s.len() {
        let b = last_newline(s, e + 4, space_run_end(s, e + 4)) + 1;
        Some((s.subrange(m, e), s.subrange(b, s.len() as int)))
    } else {
        None
    }
}

/// The metadata block and the body of a document, or `None` where it has no
/// well-formed leading pair of delimiters. The block starts after the last
/// newline of the white space after the opening `---`; failing that, after
/// the newline before it, since a closing delimiter can start inside that
/// white space only at its last newline.
pub open spec fn split_spec(s: Seq<char>) -> Option<(Seq<char>, Seq<char>)> {
    if !dashes_at(s, 0) {
        None
    } else {
        let j1 = last_newline(s, 3, space_run_end(s, 3));
        if j1 < 0 {
            None
        } else if block_from(s, j1 + 1) is Some {
            block_from(s, j1 + 1)
        } else {
            let j2 = last_newline(s, 3, j1);
            if j2 < 0 {
                None
            } else {
                block_from(s, j2 + 1)
            }
        }
    }
}

proof fn lemma_space_run_end(s: Seq<char>, j: int)
    requires
        0 <= j,
    ensures
        j <= space_run_end(s, j) <= s.len() || (j > s.len() && space_run_end(s, j) == s.len()),
    decreases s.len() - j,
{
    if j < s.len() && is_space(s[j]) {
        lemma_space_run_end(s, j + 1);
    }
}

proof fn lemma_last_newline(s: Seq<char>, from: int, to: int)
    ensures
        last_newline(s, from, to) == -1 || (0 <= from <= last_newline(s, from, to) < to <= s.len()),
    decreases to - from,
{
    if !(to <= from || from < 0 || to > s.len()) && s[to - 1] != '\n' {
        lemma_last_newline(s, from, to - 1);
    }
}

proof fn lemma_first_closing(s: Seq<char>, e: int)
    requires
        0 <= e,
    ensures
        first_closing_from(s, e) == s.len() || (e <= first_closing_from(s, e) < s.len()
            && closing_at(s, first_closing_from(s, e))),
    decreases s.len() - e,
{
    if e < s.len() && !closing_at(s, e) {
        lemma_first_closing(s, e + 1);
    }
}

fn run_end(cs: &Vec<char>, j: usize) -> (r: usize)
    ensures
        r == space_run_end(cs@, j as int),
        r <= cs@.len(),
{
    proof {
        lemma_space_run_end(cs@, j as int);
    }
    if j >= cs.len() {
        return cs.len();
    }
    let mut m: usize = j;
    while m < cs.len() && char_is_space(cs[m])
        invariant
            j <= m <= cs@.len(),
            space_run_end(cs@, j as int) == space_run_end(cs@, m as int),
        decreases cs@.len() - m,
    {
        m = m + 1;
    }
    m
}

fn last_nl(cs: &Vec<char>, from: usize, to: usize) -> (r: Option<usize>)
    requires
        to <= cs@.len(),
    ensures
        r is Some <==> last_newline(cs@, from as int, to as int) >= 0,
        r is Some ==> r->0 == last_newline(cs@, from as int, to as int),
{
    proof {
        lemma_last_newline(cs@, from as int, to as int);
    }
    let mut t: usize = to;
    while t > from && cs[t - 1] != '\n'
        invariant
            t <= to <= cs@.len(),
            last_newline(cs@, from as int, to as int) == last_newline(cs@, from as int, t as int),
        decreases t,
    {
        t = t - 1;
    }
    if t > from {
        Some(t - 1)
    } else {
        None
    }
}

fn closing(cs: &Vec<char>, e: usize) -> (r: bool)
    requires
        e < cs@.len(),
    ensures
        r == closing_at(cs@, e as int),
{
    if cs[e] != '\n' || cs.len() - e < 4 || cs[e + 1] != '-' || cs[e + 2] != '-' || cs[e + 3] != '-' {
        return false;
    }
    let w = run_end(cs, e + 4);
    last_nl(cs, e + 4, w).is_some()
}

fn block(cs: &Vec<char>, m: usize) -> (r: Option<(String, String)>)
    ensures
        r is Some <==> block_from(cs@, m as int) is Some,
        r is Some ==> (r->0).0@ == (block_from(cs@, m as int)->0).0,
        r is Some ==> (r->0).1@ == (block_from(cs@, m as int)->0).1,
{
    proof {
        lemma_first_closing(cs@, m as int);
    }
    let mut e: usize = m;
    while e < cs.len() && !closing(cs, e)
        invariant
            m <= e,
            first_closing_from(cs@, m as int) == first_closing_from(cs@, e as int),
        decreases cs@.len() - e,
    {
        e = e + 1;
    }
    if e >= cs.len() {
        return None;
    }
    let w = run_end(cs, e + 4);
    proof {
        lemma_last_newline(cs@, e + 4, w as int);
    }
    match last_nl(cs, e + 4, w) {
        Some(n) => {
            let meta = string_from_chars(&cs.as_slice()[m..e]);
            let body = string_from_chars(&cs.as_slice()[n + 1..cs.len()]);
            Some((meta, body))
        },
        None => None,
    }
}

/// Splits `content` into its metadata block and its body (see `split_spec`).
pub fn split_frontmatter(content: &str) -> (r: Option<(String, String)>)
    ensures
        r is Some <==> split_spec(content@) is Some,
        r is Some ==> (r->0).0@ == (split_spec(content@)->0).0,
        r is Some ==> (r->0).1@ == (split_spec(content@)->0).1,
{
    let cs = chars_of(content);
    if cs.len() < 3 || cs[0] != '-' || cs[1] != '-' || cs[2] != '-' {
        return None;
    }
    let w = run_end(&cs, 3);
    let j1 = match last_nl(&cs, 3, w) {
        Some(j) => j,
        None => {
            return None;
        },
    };
    proof {
        lemma_last_newline(cs@, 3, w as int);
    }
    match block(&cs, j1 + 1) {
        Some(found) => Some(found),
        None => match last_nl(&cs, 3, j1) {
            Some(j2) => {
                proof {
                    lemma_last_newline(cs@, 3, j1 as int);
                }
                block(&cs, j2 + 1)
            },
            None => None,
        },
    }
}

/// Whether a YAML real converts into a finite JSON number.
pub uninterp spec fn real_converts(text: Seq<char>) -> bool;

/// Relies on `yaml_rust2::Yaml::as_f64` and `serde_json::Number::from_f64`:
/// whether the real's text reads as a float, as YAML's core schema reads
/// it, that JSON can hold, which it cannot where the float is not finite.
#[verifier::external_body]
fn real_is_convertible(text: &str) -> (r: bool)
    ensures
        r == real_converts(text@),
{
    Yaml::Real(text.to_owned()).as_f64().and_then(serde_json::Number::from_f64).is_some()
}

/// The key of a child of the mapping at `path`.
pub open spec fn join_path(path: Seq<char>, key: Seq<char>) -> Seq<char> {
    if path.len() == 0 {
        key
    } else {
        path + "."@ + key
    }
}

/// `acc` with the flattening of `y` at `path` added: a mapping adds each
/// entry with a string key under the joined path, a scalar or null binds
/// `path` itself, an array binds `path` to the flattenings of its items
/// (each from an empty path), and a real binds only where it is a JSON
/// number.
pub open spec fn flatten_into(acc: Seq<(Seq<char>, FlatModel)>, y: YamlTree, path: Seq<char>) -> Seq<(Seq<char>, FlatModel)>
    decreases y, 1nat, 0int,
{
    match y {
        YamlTree::Hash(es) => flatten_entries(acc, y, es.len() as int, path),
        YamlTree::Str(s) => put(acc, path, FlatModel::Str(s)),
        YamlTree::Integer(i) => put(acc, path, FlatModel::Integer(i)),
        YamlTree::Real(t) => if real_converts(t) {
            put(acc, path, FlatModel::Real(t))
        } else {
            acc
        },
        YamlTree::Boolean(b) => put(acc, path, FlatModel::Bool(b)),
        YamlTree::Array(items) => put(acc, path, FlatModel::Array(flatten_items(y, items.len() as int))),
        YamlTree::Null => put(acc, path, FlatModel::Null),
        YamlTree::Other => acc,
    }
}

/// `acc` with the first `k` entries of the mapping `y` flattened in order.
pub open spec fn flatten_entries(acc: Seq<(Seq<char>, FlatModel)>, y: YamlTree, k: int, path: Seq<char>) -> Seq<(Seq<char>, FlatModel)>
    decreases y, 0nat, k,
{
    match y {
        YamlTree::Hash(es) => if k <= 0 || k > es.len() {
            acc
        } else {
            let pre = flatten_entries(acc, y, k - 1, path);
            match es[k - 1].0 {
                YamlTree::Str(key) => flatten_into(pre, es[k - 1].1, join_path(path, key)),
                _ => pre,
            }
        },
        _ => acc,
    }
}

/// The flattenings of the first `k` items of the array `y`.
pub open spec fn flatten_items(y: YamlTree, k: int) -> Seq<Seq<(Seq<char>, FlatModel)>>
    decreases y, 0nat, k,
{
    match y {
        YamlTree::Array(items) => if k <= 0 || k > items.len() {
            seq![]
        } else {
            flatten_items(y, k - 1).push(flatten_into(seq![], items[k - 1], seq![]))
        },
        _ => seq![],
    }
}

/// The flat map of a YAML document.
pub open spec fn flatten(y: YamlTree) -> Seq<(Seq<char>, FlatModel)> {
    flatten_into(seq![], y, seq![])
}

fn join_key(path: &str, key: &String) -> (r: String)
    ensures
        r@ == join_path(path@, key@),
{
    if path.unicode_len() == 0 {
        key.clone()
    } else {
        let mut r = path.to_owned();
        r.append(".");
        r.append(key.as_str());
        proof {
            reveal_strlit(".");
        }
        assert(r@ =~= path@ + "."@ + key@);
        r
    }
}

/// Adds the flattening of `yaml` at `current_path` to `result` (see
/// `flatten_into`).
pub fn parse_yaml_to_value(yaml: &YamlValue, result: &mut FlatMap, current_path: &str)
    ensures
        final(result)@ == flatten_into(old(result)@, yaml.view(), current_path@),
        keys_unique(old(result)@) ==> keys_unique(final(result)@),
    decreases yaml,
{
    let ghost t = yaml.view();
    match yaml {
        YamlValue::Hash(entries) => {
            let mut i: usize = 0;
            while i < entries.len()
                invariant
                    t == yaml.view(),
                    yaml == YamlValue::Hash(*entries),
                    t is Hash,
                    t->Hash_0.len() == entries@.len(),
                    i <= entries@.len(),
                    result@ == flatten_entries(old(result)@, t, i as int, current_path@),
                    keys_unique(old(result)@) ==> keys_unique(result@),
                decreases entries@.len() - i,
            {
                assert(t->Hash_0[i as int] == (entries@[i as int].0.view(), entries@[i as int].1.view()));
                match &entries[i].0 {
                    YamlValue::Str(key) => {
                        let path = join_key(current_path, key);
                        proof {
                            assert(decreases_to!(yaml => entries@[i as int].1));
                        }
                        parse_yaml_to_value(&entries[i].1, result, path.as_str());
                    },
                    _ => {},
                }
                i = i + 1;
            }
        },
        YamlValue::Str(s) => {
            result.insert(current_path.to_owned(), FlatValue::Str(s.clone()));
        },
        YamlValue::Integer(n) => {
            result.insert(current_path.to_owned(), FlatValue::Integer(*n));
        },
        YamlValue::Real(text) => {
            if real_is_convertible(text.as_str()) {
                result.insert(current_path.to_owned(), FlatValue::Real(text.clone()));
            }
        },
        YamlValue::Boolean(b) => {
            result.insert(current_path.to_owned(), FlatValue::Bool(*b));
        },
        YamlValue::Array(items) => {
            let mut maps: Vec<FlatMap> = Vec::new();
            let mut i: usize = 0;
            while i < items.len()
                invariant
                    t == yaml.view(),
                    yaml == YamlValue::Array(*items),
                    t is Array,
                    t->Array_0.len() == items@.len(),
                    i <= items@.len(),
                    maps@.len() == i,
                    forall|j: int| 0 <= j < i ==> #[trigger] maps@[j]@ == flatten_items(t, i as int)[j],
                    flatten_items(t, i as int).len() == i,
                decreases items@.len() - i,
            {
                assert(t->Array_0[i as int] == items@[i as int].view());
                let mut item_map = FlatMap::new();
                let root = String::new();
                proof {
                    assert(decreases_to!(yaml => items@[i as int]));
                    assert(item_map@ =~= seq![]);
                }
                parse_yaml_to_value(&items[i], &mut item_map, root.as_str());
                proof {
                    assert(root@ =~= seq![]);
                }
                maps.push(item_map);
                i = i + 1;
            }
            let ghost mv = maps@;
            let ghost fi = flatten_items(t, items@.len() as int);
            let value = FlatValue::Array(maps);
            assert forall|j: int| 0 <= j < fi.len() implies value.view()->Array_0[j] == fi[j] by {
                assert(mv[j]@ == fi[j]);
            }
            assert(value.view()->Array_0 =~= fi);
            result.insert(current_path.to_owned(), value);
        },
        YamlValue::Null => {
            result.insert(current_path.to_owned(), FlatValue::Null);
        },
        YamlValue::Other => {},
    }
}

/// The flattened metadata and the body of a document, or the message of the
/// error that a malformed or empty metadata block gives.
pub open spec fn frontmatter_result(c: Seq<char>) -> Result<(Seq<(Seq<char>, FlatModel)>, Seq<char>), Seq<char>> {
    match split_spec(c) {
        None => Ok((seq![], c)),
        Some(p) => match yaml_load_of(p.0) {
            Ok(docs) => if docs.len() > 0 {
                Ok((flatten(docs[0]), p.1))
            } else {
                Err("Empty YAML frontmatter"@)
            },
            Err(e) => Err("YAML parsing error: "@ + e),
        },
    }
}

/// `e` is the metadata error with `message`, reported for no known file.
pub open spec fn is_frontmatter_error(e: DokeError, message: Seq<char>) -> bool {
    match e {
        DokeError::InvalidFrontmatter { message: m, file, line } => m@ == message && file@
            == "unknown"@ && line == 0,
        _ => false,
    }
}

/// Splits `content` into flattened metadata and body. A document without a
/// well-formed leading pair of delimiters is all body, with no metadata. A
/// metadata block that does not parse as YAML, or holds no document, is an
/// `InvalidFrontmatter` error, never an empty map; otherwise its first
/// document is flattened.
pub fn parse_frontmatter(content: &str) -> (r: DokeResult<(FlatMap, String)>)
    ensures
        split_spec(content@) is None ==> r is Ok && (r->Ok_0).0@.len() == 0 && (r->Ok_0).1@
            == content@,
        r is Ok <==> frontmatter_result(content@) is Ok,
        r is Ok ==> ((r->Ok_0).0@, (r->Ok_0).1@) == frontmatter_result(content@)->Ok_0,
        r is Ok ==> keys_unique((r->Ok_0).0@),
        r is Err ==> is_frontmatter_error(r->Err_0, frontmatter_result(content@)->Err_0),
{
    match split_frontmatter(content) {
        None => Ok((FlatMap::new(), content.to_owned())),
        Some((meta, body)) => {
            match load_yaml_documents(meta.as_str()) {
                Err(e) => {
                    let mut message = "YAML parsing error: ".to_owned();
                    message.append(e.as_str());
                    proof {
                        reveal_strlit("YAML parsing error: ");
                    }
                    Err(DokeError::InvalidFrontmatter { message, file: "unknown".to_owned(), line: 0 })
                },
                Ok(docs) => {
                    if docs.len() == 0 {
                        return Err(
                            DokeError::InvalidFrontmatter {
                                message: "Empty YAML frontmatter".to_owned(),
                                file: "unknown".to_owned(),
                                line: 0,
                            },
                        );
                    }
                    let mut metadata = FlatMap::new();
                    let root = String::new();
                    proof {
                        assert(metadata@ =~= seq![]);
                        assert(root@ =~= seq![]);
                    }
                    parse_yaml_to_value(&docs[0], &mut metadata, root.as_str());
                    Ok((metadata, body))
                },
            }
        },
    }
}

/// A YAML scalar that the metadata keeps: a string, integer, boolean, null,
/// or a real that converts into a finite number.
pub open spec fn is_plain_scalar(y: YamlTree) -> bool {
    y is Str || y is Integer || y is Boolean || y is Null || (y is Real && real_converts(y->Real_0))
}

/// The metadata value of a scalar.
pub open spec fn scalar_model(y: YamlTree) -> FlatModel {
    match y {
        YamlTree::Str(s) => FlatModel::Str(s),
        YamlTree::Integer(i) => FlatModel::Integer(i),
        YamlTree::Boolean(b) => FlatModel::Bool(b),
        YamlTree::Real(t) => FlatModel::Real(t),
        _ => FlatModel::Null,
    }
}

/// `a` starts `b`.
pub open spec fn is_prefix(a: Seq<char>, b: Seq<char>) -> bool {
    a.len() <= b.len() && b.subrange(0, a.len() as int) == a
}

/// Flattening at `path` may write key `k`: the root path may write any
/// key, another path writes itself and the keys below it.
pub open spec fn may_write(k: Seq<char>, path: Seq<char>) -> bool {
    path.len() == 0 || k == path || is_prefix(path + "."@, k)
}

proof fn lemma_child_path_within(k: Seq<char>, path: Seq<char>, key: Seq<char>)
    requires
        path.len() > 0,
        !may_write(k, path),
    ensures
        !may_write(k, join_path(path, key)),
{
    let dotted = path + "."@;
    let child = path + "."@ + key;
    assert(child.subrange(0, dotted.len() as int) =~= dotted);
    if k == child {
        assert(is_prefix(dotted, k));
    }
    if is_prefix(child + "."@, k) {
        assert(k.subrange(0, dotted.len() as int) =~= (child + "."@).subrange(0, dotted.len() as int));
        assert((child + "."@).subrange(0, dotted.len() as int) =~= dotted);
    }
}

/// Flattening at a path leaves every key outside that path as it was.
pub proof fn lemma_flatten_frame(acc: Seq<(Seq<char>, FlatModel)>, y: YamlTree, path: Seq<char>, k: Seq<char>)
    requires
        !may_write(k, path),
    ensures
        lookup(flatten_into(acc, y, path), k) == lookup(acc, k),
    decreases y, 1nat, 0int,
{
    match y {
        YamlTree::Hash(es) => {
            lemma_entries_frame(acc, y, es.len() as int, path, k);
        },
        YamlTree::Str(s) => lemma_lookup_put_other(acc, path, FlatModel::Str(s), k),
        YamlTree::Integer(i) => lemma_lookup_put_other(acc, path, FlatModel::Integer(i), k),
        YamlTree::Real(t) => lemma_lookup_put_other(acc, path, FlatModel::Real(t), k),
        YamlTree::Boolean(b) => lemma_lookup_put_other(acc, path, FlatModel::Bool(b), k),
        YamlTree::Array(items) => lemma_lookup_put_other(
            acc,
            path,
            FlatModel::Array(flatten_items(y, items.len() as int)),
            k,
        ),
        YamlTree::Null => lemma_lookup_put_other(acc, path, FlatModel::Null, k),
        YamlTree::Other => {},
    }
}

proof fn lemma_entries_frame(acc: Seq<(Seq<char>, FlatModel)>, y: YamlTree, n: int, path: Seq<char>, k: Seq<char>)
    requires
        !may_write(k, path),
    ensures
        lookup(flatten_entries(acc, y, n, path), k) == lookup(acc, k),
    decreases y, 0nat, n,
{
    if let YamlTree::Hash(es) = y {
        if 0 < n <= es.len() {
            lemma_entries_frame(acc, y, n - 1, path, k);
            let pre = flatten_entries(acc, y, n - 1, path);
            if let YamlTree::Str(key) = es[n - 1].0 {
                lemma_child_path_within(k, path, key);
                lemma_flatten_frame(pre, es[n - 1].1, join_path(path, key), k);
            }
        }
    }
}

/// Entries of a mapping after the `from`-th that write nothing at `k`
/// leave its value as the first `from` entries left it.
proof fn lemma_later_entries_frame(acc: Seq<(Seq<char>, FlatModel)>, y: YamlTree, from: int, n: int, path: Seq<char>, k: Seq<char>)
    requires
        y is Hash,
        0 <= from <= n <= y->Hash_0.len(),
        forall|t: int|
            from <= t < n && (#[trigger] y->Hash_0[t]).0 is Str ==> !may_write(
                k,
                join_path(path, y->Hash_0[t].0->Str_0),
            ),
    ensures
        lookup(flatten_entries(acc, y, n, path), k) == lookup(flatten_entries(acc, y, from, path), k),
    decreases n,
{
    if n > from {
        lemma_later_entries_frame(acc, y, from, n - 1, path, k);
        let es = y->Hash_0;
        let pre = flatten_entries(acc, y, n - 1, path);
        if let YamlTree::Str(key) = es[n - 1].0 {
            lemma_flatten_frame(pre, es[n - 1].1, join_path(path, key), k);
        }
    }
}

/// A key made of two non-empty keys without dots, joined by a dot, is
/// written by no other top-level key and by no other key under its own
/// first part.
proof fn lemma_dotted_key_apart(outer: Seq<char>, key: Seq<char>, other: Seq<char>)
    requires
        outer.len() > 0,
        other.len() > 0,
        lacks_dot(outer),
        lacks_dot(key),
        lacks_dot(other),
    ensures
        other != outer ==> !may_write(outer + "."@ + key, other),
        other != key ==> !may_write(outer + "."@ + key, outer + "."@ + other),
{
    reveal_strlit(".");
    let k = outer + "."@ + key;
    let n = outer.len() as int;
    assert(k[n] == '.');
    assert forall|t: int| 0 <= t < k.len() && t != n implies k[t] != '.' by {
        if t < n {
            assert(k[t] == outer[t]);
        } else {
            assert(k[t] == key[t - n - 1]);
        }
    }
    if other != outer {
        if k == other {
            assert(other[n] == '.');
        }
        if is_prefix(other + "."@, k) {
            let m = other.len() as int;
            assert(k[m] == (other + "."@)[m]);
            assert(m == n);
            assert forall|t: int| 0 <= t < n implies other[t] == outer[t] by {
                assert(k[t] == (other + "."@)[t]);
            }
            assert(other =~= outer);
        }
    }
    if other != key {
        let p = outer + "."@ + other;
        if k == p {
            assert(key =~= other) by {
                assert(("."@).len() == 1);
                assert(k.len() == n + 1 + key.len());
                assert(p.len() == n + 1 + other.len());
                assert(key.len() == other.len());
                assert forall|t: int| 0 <= t < key.len() implies key[t] == other[t] by {
                    assert(k[n + 1 + t] == key[t]);
                    assert(p[n + 1 + t] == other[t]);
                }
            }
        }
        if is_prefix(p + "."@, k) {
            let m = p.len() as int;
            assert(k[m] == (p + "."@)[m]);
        }
    }
}

/// `s` holds no dot.
pub open spec fn lacks_dot(s: Seq<char>) -> bool {
    forall|i: int| 0 <= i < s.len() ==> s[i] != '.'
}

/// A scalar written at `outer: { key: value }` reads back, unchanged, under
/// the dotted key `outer.key`, provided keys are non-empty and hold no dot,
/// and no later entry of either mapping repeats its key.
pub proof fn lemma_nested_scalar_round_trip(
    entries: Seq<(YamlTree, YamlTree)>,
    i: int,
    outer: Seq<char>,
    inner: Seq<(YamlTree, YamlTree)>,
    j: int,
    key: Seq<char>,
    value: YamlTree,
)
    requires
        0 <= i < entries.len(),
        entries[i] == (YamlTree::Str(outer), YamlTree::Hash(inner)),
        0 <= j < inner.len(),
        inner[j] == (YamlTree::Str(key), value),
        is_plain_scalar(value),
        outer.len() > 0,
        lacks_dot(outer),
        lacks_dot(key),
        forall|t: int|
            i < t < entries.len() && (#[trigger] entries[t]).0 is Str ==> {
                let other = entries[t].0->Str_0;
                other.len() > 0 && lacks_dot(other) && other != outer
            },
        forall|t: int|
            j < t < inner.len() && (#[trigger] inner[t]).0 is Str ==> {
                let other = inner[t].0->Str_0;
                other.len() > 0 && lacks_dot(other) && other != key
            },
    ensures
        lookup(flatten(YamlTree::Hash(entries)), outer + "."@ + key) == Some(scalar_model(value)),
{
    let y = YamlTree::Hash(entries);
    let k = outer + "."@ + key;
    let empty: Seq<char> = seq![];
    assert forall|t: int|
        i + 1 <= t < entries.len() && (#[trigger] y->Hash_0[t]).0 is Str implies !may_write(
            k,
            join_path(empty, y->Hash_0[t].0->Str_0),
        ) by {
        let other = entries[t].0->Str_0;
        lemma_dotted_key_apart(outer, key, other);
    }
    lemma_later_entries_frame(seq![], y, i + 1, entries.len() as int, empty, k);
    let pre = flatten_entries(seq![], y, i, empty);
    assert(join_path(empty, outer) == outer);
    let inner_tree = YamlTree::Hash(inner);
    assert(flatten_entries(seq![], y, i + 1, empty) == flatten_into(pre, inner_tree, outer));
    assert forall|t: int|
        j + 1 <= t < inner.len() && (#[trigger] inner_tree->Hash_0[t]).0 is Str implies !may_write(
            k,
            join_path(outer, inner_tree->Hash_0[t].0->Str_0),
        ) by {
        let other = inner[t].0->Str_0;
        lemma_dotted_key_apart(outer, key, other);
    }
    lemma_later_entries_frame(pre, inner_tree, j + 1, inner.len() as int, outer, k);
    let pre2 = flatten_entries(pre, inner_tree, j, outer);
    assert(flatten_entries(pre, inner_tree, j + 1, outer) == flatten_into(pre2, value, k));
    lemma_lookup_put(pre2, k, scalar_model(value));
}

} // verus!
