//! The parse context, the contract every document parser implements, and
//! the registry that maps resource types to parsers.
use vstd::prelude::*;
use crate::error::DokeResult;
use crate::flatmap::{keys_unique, put, FlatMap, FlatModel, FlatValue};
use crate::text::{chars_of, string_from_chars, trim_chars, trimmed};

verus! {

/// The environment of one parse call.
#[derive(Debug)]
pub struct ParserContext {
    /// Root directory of the document collection.
    pub dokedex_root: String,
    /// Root directory of the host project.
    pub project_root: String,
    /// Type of the resource being parsed (e.g. "Item").
    pub resource_type: String,
    /// Path of the file being parsed.
    pub current_file: String,
    /// Name of the parser in use.
    pub parser_name: String,
    /// Snapshot of the context this one was derived from, for nested parsing.
    pub parent_resource: Option<FlatMap>,
    /// Further open-ended context.
    pub metadata: FlatMap,
}

/// The snapshot of a context: its resource type, file and parser.
pub open spec fn state_of(resource_type: Seq<char>, file: Seq<char>, parser: Seq<char>) -> Seq<(Seq<char>, FlatModel)> {
    seq![
        ("resource_type"@, FlatModel::Str(resource_type)),
        ("file"@, FlatModel::Str(file)),
        ("parser"@, FlatModel::Str(parser)),
    ]
}

impl ParserContext {
    /// A context without parent or metadata.
    pub fn new(
        dokedex_root: &str,
        project_root: &str,
        resource_type: &str,
        current_file: &str,
        parser_name: &str,
    ) -> (r: ParserContext)
        ensures
            r.dokedex_root@ == dokedex_root@,
            r.project_root@ == project_root@,
            r.resource_type@ == resource_type@,
            r.current_file@ == current_file@,
            r.parser_name@ == parser_name@,
            r.parent_resource is None,
            r.metadata@.len() == 0,
    {
        ParserContext {
            dokedex_root: dokedex_root.to_owned(),
            project_root: project_root.to_owned(),
            resource_type: resource_type.to_owned(),
            current_file: current_file.to_owned(),
            parser_name: parser_name.to_owned(),
            parent_resource: None,
            metadata: FlatMap::new(),
        }
    }

    /// This context with `parent` as its parent snapshot.
    pub fn with_parent_resource(self, parent: FlatMap) -> (r: ParserContext)
        ensures
            r.dokedex_root == self.dokedex_root,
            r.project_root == self.project_root,
            r.resource_type == self.resource_type,
            r.current_file == self.current_file,
            r.parser_name == self.parser_name,
            r.parent_resource == Some(parent),
            r.metadata == self.metadata,
    {
        let mut r = self;
        r.parent_resource = Some(parent);
        r
    }

    /// This context with `key` bound to `value` in its metadata.
    pub fn with_metadata(self, key: &str, value: FlatValue) -> (r: ParserContext)
        ensures
            r.dokedex_root == self.dokedex_root,
            r.project_root == self.project_root,
            r.resource_type == self.resource_type,
            r.current_file == self.current_file,
            r.parser_name == self.parser_name,
            r.parent_resource == self.parent_resource,
            r.metadata@ == put(self.metadata@, key@, value.view()),
    {
        let mut r = self;
        r.metadata.insert(key.to_owned(), value);
        r
    }

    /// The snapshot of this context: resource type, file and parser.
    pub fn get_current_state(&self) -> (r: FlatMap)
        ensures
            r@ == state_of(self.resource_type@, self.current_file@, self.parser_name@),
            keys_unique(r@),
    {
        proof {
            reveal_strlit("resource_type");
            reveal_strlit("file");
            reveal_strlit("parser");
        }
        let mut entries: Vec<(String, FlatValue)> = Vec::new();
        entries.push(("resource_type".to_owned(), FlatValue::Str(self.resource_type.clone())));
        entries.push(("file".to_owned(), FlatValue::Str(self.current_file.clone())));
        entries.push(("parser".to_owned(), FlatValue::Str(self.parser_name.clone())));
        let r = FlatMap { entries };
        assert(r@ =~= state_of(self.resource_type@, self.current_file@, self.parser_name@));
        assert(r@[0].0.len() != r@[1].0.len() && r@[0].0.len() != r@[2].0.len() && r@[1].0.len()
            != r@[2].0.len());
        r
    }

    /// A context for parsing a nested resource of type `resource_type`: roots,
    /// file and parser are kept, and the parent is this context's snapshot.
    pub fn create_child(&self, resource_type: &str) -> (r: ParserContext)
        ensures
            r.dokedex_root@ == self.dokedex_root@,
            r.project_root@ == self.project_root@,
            r.resource_type@ == resource_type@,
            r.current_file@ == self.current_file@,
            r.parser_name@ == self.parser_name@,
            r.parent_resource is Some,
            r.parent_resource->0@ == state_of(self.resource_type@, self.current_file@, self.parser_name@),
            r.metadata@.len() == 0,
    {
        let child = ParserContext::new(
            self.dokedex_root.as_str(),
            self.project_root.as_str(),
            resource_type,
            self.current_file.as_str(),
            self.parser_name.as_str(),
        );
        child.with_parent_resource(self.get_current_state())
    }
}

/// The contract of a document parser.
pub trait DokeUserParser {
    /// The resource type names this parser serves, in order; a parser that
    /// states none is taken to serve none.
    open spec fn type_names(&self) -> Seq<Seq<char>> {
        Seq::empty()
    }

    /// Parses a document into string-keyed JSON-like data. Malformed input
    /// is reported as an error, never by a panic.
    fn parse(&self, content: &str, context: &ParserContext) -> DokeResult<FlatMap>;

    /// The resource type names this parser serves.
    fn supported_types(&self) -> (r: Vec<String>)
        ensures
            r@.len() == self.type_names().len(),
            forall|i: int| 0 <= i < r@.len() ==> #[trigger] r@[i]@ == self.type_names()[i],
    ;

    /// A version that changes whenever the parser's output changes.
    fn version(&self) -> String;

    /// The configuration used when none is given; none by default.
    fn default_config(&self) -> (r: Option<FlatMap>) {
        None
    }

    /// Checks a configuration; every configuration is accepted by default.
    fn validate_config(&self, _config: &FlatMap) -> (r: DokeResult<()>) {
        Ok(())
    }
}

/// The lower-case form that `str::to_lowercase` gives a text.
pub uninterp spec fn lower_of(s: Seq<char>) -> Seq<char>;

/// The lower-case form of an ASCII character: `A`-`Z` become `a`-`z`, every
/// other character stays as it is.
pub open spec fn ascii_lower_char(c: char) -> char {
    if c == 'A' {
        'a'
    } else if c == 'B' {
        'b'
    } else if c == 'C' {
        'c'
    } else if c == 'D' {
        'd'
    } else if c == 'E' {
        'e'
    } else if c == 'F' {
        'f'
    } else if c == 'G' {
        'g'
    } else if c == 'H' {
        'h'
    } else if c == 'I' {
        'i'
    } else if c == 'J' {
        'j'
    } else if c == 'K' {
        'k'
    } else if c == 'L' {
        'l'
    } else if c == 'M' {
        'm'
    } else if c == 'N' {
        'n'
    } else if c == 'O' {
        'o'
    } else if c == 'P' {
        'p'
    } else if c == 'Q' {
        'q'
    } else if c == 'R' {
        'r'
    } else if c == 'S' {
        's'
    } else if c == 'T' {
        't'
    } else if c == 'U' {
        'u'
    } else if c == 'V' {
        'v'
    } else if c == 'W' {
        'w'
    } else if c == 'X' {
        'x'
    } else if c == 'Y' {
        'y'
    } else if c == 'Z' {
        'z'
    } else {
        c
    }
}

/// Every character of `s` is ASCII.
pub open spec fn is_ascii_text(s: Seq<char>) -> bool {
    forall|i: int| 0 <= i < s.len() ==> (#[trigger] s[i] as u32) < 128
}

/// The lower-case form of an ASCII text.
pub open spec fn ascii_lowered(s: Seq<char>) -> Seq<char> {
    Seq::new(s.len(), |i: int| ascii_lower_char(s[i]))
}

/// Relies on `str::to_lowercase`: the result depends on the characters
/// alone, and on ASCII text it maps `A`-`Z` to `a`-`z` and keeps every other
/// character, as the Unicode lower-case mapping does for ASCII.
#[verifier::external_body]
fn lowercase(s: &str) -> (r: String)
    ensures
        r@ == lower_of(s@),
        is_ascii_text(s@) ==> r@ == ascii_lowered(s@),
{
    s.to_lowercase()
}

/// The first index at or after `i` whose name is `k`, or -1.
pub open spec fn name_index_from(ns: Seq<(Seq<char>, usize)>, k: Seq<char>, i: int) -> int
    decreases ns.len() - i,
{
    if i < 0 || i >= ns.len() {
        -1
    } else if ns[i].0 == k {
        i
    } else {
        name_index_from(ns, k, i + 1)
    }
}

/// The parser index bound to name `k`.
pub open spec fn name_lookup(ns: Seq<(Seq<char>, usize)>, k: Seq<char>) -> Option<usize> {
    if name_index_from(ns, k, 0) >= 0 {
        Some(ns[name_index_from(ns, k, 0)].1)
    } else {
        None
    }
}

/// `ns` with name `k` bound to parser `p`, replacing an earlier binding.
pub open spec fn bind_name(ns: Seq<(Seq<char>, usize)>, k: Seq<char>, p: usize) -> Seq<(Seq<char>, usize)> {
    if name_index_from(ns, k, 0) >= 0 {
        ns.update(name_index_from(ns, k, 0), (k, p))
    } else {
        ns.push((k, p))
    }
}

/// No name is bound twice.
pub open spec fn names_unique(ns: Seq<(Seq<char>, usize)>) -> bool {
    forall|i: int, j: int| 0 <= i < j < ns.len() ==> ns[i].0 != ns[j].0
}

/// Binding a name keeps names unique.
pub proof fn lemma_bind_name_unique(ns: Seq<(Seq<char>, usize)>, k: Seq<char>, p: usize)
    requires
        names_unique(ns),
    ensures
        names_unique(bind_name(ns, k, p)),
{
    lemma_name_index_from(ns, k, 0);
}

/// `ns` with the lower-case forms of the first `n` names of `types` bound to
/// parser `p`, in order.
pub open spec fn bind_names(ns: Seq<(Seq<char>, usize)>, types: Seq<Seq<char>>, n: int, p: usize) -> Seq<(Seq<char>, usize)>
    decreases n,
{
    if n <= 0 || n > types.len() {
        ns
    } else {
        bind_name(bind_names(ns, types, n - 1, p), lower_of(types[n - 1]), p)
    }
}

pub proof fn lemma_name_index_from(ns: Seq<(Seq<char>, usize)>, k: Seq<char>, i: int)
    requires
        0 <= i,
    ensures
        name_index_from(ns, k, i) == -1 || (i <= name_index_from(ns, k, i) < ns.len()
            && ns[name_index_from(ns, k, i)].0 == k),
        forall|j: int|
            i <= j < ns.len() && (name_index_from(ns, k, i) == -1 || j < name_index_from(ns, k, i))
                ==> ns[j].0 != k,
    decreases ns.len() - i,
{
    if i < ns.len() && ns[i].0 != k {
        lemma_name_index_from(ns, k, i + 1);
    }
}

/// Binding a name makes it resolve to the new parser and leaves every other
/// name as it was.
pub proof fn lemma_bind_name(ns: Seq<(Seq<char>, usize)>, k: Seq<char>, p: usize, q: Seq<char>)
    ensures
        name_lookup(bind_name(ns, k, p), q) == if q == k { Some(p) } else { name_lookup(ns, q) },
{
    let r = bind_name(ns, k, p);
    lemma_name_index_from(ns, k, 0);
    lemma_name_index_from(ns, q, 0);
    lemma_name_index_from(r, q, 0);
    lemma_name_index_from(r, k, 0);
    if q == k {
        let i = if name_index_from(ns, k, 0) >= 0 { name_index_from(ns, k, 0) } else { ns.len() as int };
        assert(r[i].0 == k);
        assert(name_index_from(r, q, 0) == i);
    } else {
        if name_index_from(ns, q, 0) >= 0 {
            let j = name_index_from(ns, q, 0);
            assert(r[j] == ns[j]);
            assert(name_index_from(r, q, 0) == j);
        } else {
            assert(name_index_from(r, q, 0) == -1);
        }
    }
}

/// After binding the names of `types` to `p`, a name resolves to `p` exactly
/// when it is the lower-case form of one of them; other names are unchanged.
pub proof fn lemma_bind_names(ns: Seq<(Seq<char>, usize)>, types: Seq<Seq<char>>, n: int, p: usize, q: Seq<char>)
    requires
        0 <= n <= types.len(),
    ensures
        name_lookup(bind_names(ns, types, n, p), q) == if exists|i: int| 0 <= i < n && lower_of(#[trigger] types[i]) == q {
            Some(p)
        } else {
            name_lookup(ns, q)
        },
    decreases n,
{
    if n > 0 {
        lemma_bind_names(ns, types, n - 1, p, q);
        lemma_bind_name(bind_names(ns, types, n - 1, p), lower_of(types[n - 1]), p, q);
        if lower_of(types[n - 1]) != q {
            if exists|i: int| 0 <= i < n && lower_of(#[trigger] types[i]) == q {
                let i = choose|i: int| 0 <= i < n && lower_of(#[trigger] types[i]) == q;
                assert(i < n - 1);
            }
        }
    }
}

/// A lookup table from resource-type names, compared in lower case, to
/// parsers. One parser may serve several names; a later registration of a
/// name replaces the earlier one.
pub struct ParserRegistry<P> {
    parsers: Vec<P>,
    names: Vec<(String, usize)>,
}

impl<P> ParserRegistry<P> {
    /// The registered parsers, in registration order.
    pub closed spec fn parsers_view(&self) -> Seq<P> {
        self.parsers@
    }

    /// The (lower-case name, parser index) bindings.
    pub closed spec fn names_view(&self) -> Seq<(Seq<char>, usize)> {
        Seq::new(self.names@.len(), |i: int| (self.names@[i].0@, self.names@[i].1))
    }

    /// Every binding names a registered parser, and no name is bound twice.
    pub closed spec fn wf(&self) -> bool {
        &&& forall|i: int| 0 <= i < self.names@.len() ==> #[trigger] self.names@[i].1 < self.parsers@.len()
        &&& names_unique(self.names_view())
    }

    /// The parser that a query resolves to, if any.
    pub open spec fn resolves(&self, resource_type: Seq<char>) -> Option<P> {
        match name_lookup(self.names_view(), lower_of(resource_type)) {
            Some(i) => Some(self.parsers_view()[i as int]),
            None => None,
        }
    }

    /// An empty registry.
    pub fn new() -> (r: ParserRegistry<P>)
        ensures
            r.wf(),
            r.parsers_view().len() == 0,
            r.names_view().len() == 0,
    {
        let r = ParserRegistry { parsers: Vec::new(), names: Vec::new() };
        assert(r.names_view() =~= seq![]);
        r
    }

    fn name_position(&self, key: &String) -> (r: Option<usize>)
        ensures
            r is Some <==> name_index_from(self.names_view(), key@, 0) >= 0,
            r is Some ==> r->0 == name_index_from(self.names_view(), key@, 0),
            r is Some ==> r->0 < self.names@.len(),
    {
        proof {
            lemma_name_index_from(self.names_view(), key@, 0);
        }
        let mut i: usize = 0;
        while i < self.names.len()
            invariant
                i <= self.names@.len(),
                self.names_view().len() == self.names@.len(),
                forall|j: int| 0 <= j < i ==> self.names_view()[j].0 != key@,
                name_index_from(self.names_view(), key@, 0) == -1 || i <= name_index_from(self.names_view(), key@, 0),
            decreases self.names@.len() - i,
        {
            proof {
                lemma_name_index_from(self.names_view(), key@, 0);
            }
            assert(self.names_view()[i as int].0 == self.names@[i as int].0@);
            if self.names[i].0 == *key {
                assert(name_index_from(self.names_view(), key@, 0) == i);
                return Some(i);
            }
            i = i + 1;
        }
        proof {
            lemma_name_index_from(self.names_view(), key@, 0);
        }
        None
    }

    /// The parser registered for `resource_type`, compared in lower case.
    pub fn get_parser(&self, resource_type: &str) -> (r: Option<&P>)
        requires
            self.wf(),
        ensures
            r is Some <==> self.resolves(resource_type@) is Some,
            r is Some ==> *r->0 == self.resolves(resource_type@)->0,
            is_ascii_text(resource_type@) ==> lower_of(resource_type@) == ascii_lowered(resource_type@),
    {
        let key = lowercase(resource_type);
        match self.name_position(&key) {
            Some(i) => {
                assert(self.names_view()[i as int].1 == self.names@[i as int].1);
                Some(&self.parsers[self.names[i].1])
            },
            None => None,
        }
    }

    /// The registered names, in lower case, each once.
    pub fn get_supported_types(&self) -> (r: Vec<String>)
        requires
            self.wf(),
        ensures
            forall|i: int, j: int| 0 <= i < j < r@.len() ==> r@[i]@ != r@[j]@,
            r@.len() == self.names_view().len(),
            forall|i: int| 0 <= i < r@.len() ==> #[trigger] r@[i]@ == self.names_view()[i].0,
    {
        let mut out: Vec<String> = Vec::new();
        let mut i: usize = 0;
        while i < self.names.len()
            invariant
                i <= self.names@.len(),
                out@.len() == i,
                forall|j: int| 0 <= j < i ==> #[trigger] out@[j]@ == self.names_view()[j].0,
            decreases self.names@.len() - i,
        {
            out.push(self.names[i].0.clone());
            i = i + 1;
        }
        out
    }

    /// The parser of each registered name, in the order of the names.
    pub fn get_all_parsers(&self) -> (r: Vec<&P>)
        requires
            self.wf(),
        ensures
            r@.len() == self.names_view().len(),
            forall|i: int|
                0 <= i < r@.len() ==> *#[trigger] r@[i] == self.parsers_view()[self.names_view()[i].1 as int],
    {
        let mut out: Vec<&P> = Vec::new();
        let mut i: usize = 0;
        while i < self.names.len()
            invariant
                self.wf(),
                i <= self.names@.len(),
                out@.len() == i,
                forall|j: int|
                    0 <= j < i ==> *#[trigger] out@[j] == self.parsers_view()[self.names_view()[j].1 as int],
            decreases self.names@.len() - i,
        {
            out.push(&self.parsers[self.names[i].1]);
            i = i + 1;
        }
        out
    }
}

impl<P: DokeUserParser> ParserRegistry<P> {
    /// Registers `parser` under the lower-case form of each of its supported
    /// types, replacing earlier registrants of those names.
    pub fn register(&mut self, parser: P)
        requires
            old(self).wf(),
        ensures
            final(self).wf(),
            final(self).parsers_view() == old(self).parsers_view().push(parser),
            final(self).names_view() == bind_names(
                old(self).names_view(),
                parser.type_names(),
                parser.type_names().len() as int,
                old(self).parsers_view().len() as usize,
            ),
            forall|i: int|
                0 <= i < parser.type_names().len() && is_ascii_text(#[trigger] parser.type_names()[i])
                    ==> lower_of(parser.type_names()[i]) == ascii_lowered(parser.type_names()[i]),
    {
        let types = parser.supported_types();
        let ghost tn = parser.type_names();
        let idx = self.parsers.len();
        self.parsers.push(parser);
        let mut i: usize = 0;
        while i < types.len()
            invariant
                self.wf(),
                idx == old(self).parsers@.len(),
                self.parsers@ == old(self).parsers@.push(parser),
                types@.len() == tn.len(),
                forall|j: int| 0 <= j < types@.len() ==> #[trigger] types@[j]@ == tn[j],
                i <= types@.len(),
                self.names_view() == bind_names(old(self).names_view(), tn, i as int, idx),
                forall|j: int|
                    0 <= j < i && is_ascii_text(#[trigger] tn[j]) ==> lower_of(tn[j]) == ascii_lowered(tn[j]),
            decreases types@.len() - i,
        {
            let key = lowercase(types[i].as_str());
            let ghost before = self.names_view();
            let ghost k = key@;
            proof {
                lemma_bind_name_unique(before, k, idx);
            }
            match self.name_position(&key) {
                Some(j) => {
                    self.names.set(j, (key, idx));
                    assert(self.names_view() =~= before.update(j as int, (k, idx)));
                },
                None => {
                    self.names.push((key, idx));
                    assert(self.names_view() =~= before.push((k, idx)));
                },
            }
            i = i + 1;
        }
    }
}

/// The first newline at or after `i`, or the length.
pub open spec fn next_newline(s: Seq<char>, i: int) -> int
    decreases s.len() - i,
{
    if i < 0 || i >= s.len() {
        s.len() as int
    } else if s[i] == '\n' {
        i
    } else {
        next_newline(s, i + 1)
    }
}

/// A line without its carriage return.
pub open spec fn strip_cr(l: Seq<char>) -> Seq<char> {
    if l.len() > 0 && l.last() == '\r' {
        l.drop_last()
    } else {
        l
    }
}

/// The lines of `s` from `i` on, as `str::lines` gives them: split at each
/// newline, without a final empty line, each without a trailing `\r`.
pub open spec fn lines_from(s: Seq<char>, i: int) -> Seq<Seq<char>>
    decreases s.len() - i,
{
    if i < 0 || i >= s.len() {
        seq![]
    } else {
        let e = next_newline(s, i);
        if e < i {
            seq![]
        } else if e >= s.len() {
            seq![strip_cr(s.subrange(i, s.len() as int))]
        } else {
            seq![strip_cr(s.subrange(i, e))] + lines_from(s, e + 1)
        }
    }
}

/// The number of `#` characters that start `l`.
pub open spec fn hash_count(l: Seq<char>, i: int) -> int
    decreases l.len() - i,
{
    if i < 0 || i >= l.len() || l[i] != '#' {
        0
    } else {
        1 + hash_count(l, i + 1)
    }
}

/// The section a line gives, if any: a line starting with `#` is a heading
/// whose level is its count of leading `#` and whose content is the rest,
/// trimmed; another line with non-blank text is a paragraph. `n` is the
/// 0-based line index.
pub open spec fn section_of(l: Seq<char>, n: int) -> Option<Seq<(Seq<char>, FlatModel)>> {
    if l.len() > 0 && l[0] == '#' {
        Some(
            seq![
                ("type"@, FlatModel::Str("heading"@)),
                ("level"@, FlatModel::Unsigned(hash_count(l, 0) as u64)),
                ("content"@, FlatModel::Str(trimmed(l.subrange(hash_count(l, 0), l.len() as int)))),
                ("line"@, FlatModel::Unsigned((n + 1) as u64)),
            ],
        )
    } else if trimmed(l).len() > 0 {
        Some(
            seq![
                ("type"@, FlatModel::Str("paragraph"@)),
                ("content"@, FlatModel::Str(trimmed(l))),
                ("line"@, FlatModel::Unsigned((n + 1) as u64)),
            ],
        )
    } else {
        None
    }
}

/// The sections of the first `k` lines.
pub open spec fn sections_of(ls: Seq<Seq<char>>, k: int) -> Seq<Seq<(Seq<char>, FlatModel)>>
    decreases k,
{
    if k <= 0 || k > ls.len() {
        seq![]
    } else {
        match section_of(ls[k - 1], k - 1) {
            Some(sec) => sections_of(ls, k - 1).push(sec),
            None => sections_of(ls, k - 1),
        }
    }
}

/// The output of the default parser for `content`.
pub open spec fn default_output(content: Seq<char>) -> Seq<(Seq<char>, FlatModel)> {
    let ls = lines_from(content, 0);
    seq![
        ("raw_content"@, FlatModel::Str(content)),
        ("type"@, FlatModel::Str("markdown"@)),
        ("sections"@, FlatModel::Array(sections_of(ls, ls.len() as int))),
    ]
}

proof fn lemma_next_newline(s: Seq<char>, i: int)
    requires
        0 <= i,
    ensures
        i <= next_newline(s, i) <= s.len() || (i > s.len() && next_newline(s, i) == s.len()),
        next_newline(s, i) < s.len() ==> s[next_newline(s, i)] == '\n',
    decreases s.len() - i,
{
    if i < s.len() && s[i] != '\n' {
        lemma_next_newline(s, i + 1);
    }
}

proof fn lemma_hash_count(l: Seq<char>, i: int)
    requires
        0 <= i,
    ensures
        0 <= hash_count(l, i),
        i + hash_count(l, i) <= l.len() || hash_count(l, i) == 0,
    decreases l.len() - i,
{
    if i < l.len() && l[i] == '#' {
        lemma_hash_count(l, i + 1);
    }
}

fn map_of(entries: Vec<(String, FlatValue)>) -> (r: FlatMap)
    ensures
        r.entries == entries,
{
    FlatMap { entries }
}

fn str_value(chars: &[char]) -> (r: FlatValue)
    ensures
        r.view() == FlatModel::Str(chars@),
{
    FlatValue::Str(string_from_chars(chars))
}

/// The section of the line `cs[from..to]`, numbered `n` from 0.
fn line_section(cs: &[char], from: usize, to: usize, n: usize) -> (r: Option<FlatMap>)
    requires
        from <= to <= cs@.len(),
        n < u64::MAX,
    ensures
        r is Some <==> section_of(cs@.subrange(from as int, to as int), n as int) is Some,
        r is Some ==> r->0@ == section_of(cs@.subrange(from as int, to as int), n as int)->0,
{
    let ghost l = cs@.subrange(from as int, to as int);
    let line_no = (n as u64) + 1;
    if from < to && cs[from] == '#' {
        let mut h: usize = from;
        proof {
            lemma_hash_count(l, 0);
        }
        while h < to && cs[h] == '#'
            invariant
                from <= h <= to,
                to <= cs@.len(),
                l == cs@.subrange(from as int, to as int),
                hash_count(l, 0) == (h - from) + hash_count(l, h - from),
            decreases to - h,
        {
            assert(l[h - from] == cs@[h as int]);
            h = h + 1;
        }
        let level = (h - from) as u64;
        let content = trim_chars(cs, h, to);
        assert(cs@.subrange(h as int, to as int) =~= l.subrange(hash_count(l, 0), l.len() as int));
        let mut entries: Vec<(String, FlatValue)> = Vec::new();
        entries.push(("type".to_owned(), FlatValue::Str("heading".to_owned())));
        entries.push(("level".to_owned(), FlatValue::Unsigned(level)));
        entries.push(("content".to_owned(), str_value(content.as_slice())));
        entries.push(("line".to_owned(), FlatValue::Unsigned(line_no)));
        let r = map_of(entries);
        assert(r@ =~= section_of(l, n as int)->0);
        Some(r)
    } else {
        let content = trim_chars(cs, from, to);
        if content.len() == 0 {
            return None;
        }
        let mut entries: Vec<(String, FlatValue)> = Vec::new();
        entries.push(("type".to_owned(), FlatValue::Str("paragraph".to_owned())));
        entries.push(("content".to_owned(), str_value(content.as_slice())));
        entries.push(("line".to_owned(), FlatValue::Unsigned(line_no)));
        let r = map_of(entries);
        assert(r@ =~= section_of(l, n as int)->0);
        Some(r)
    }
}

proof fn lemma_sections_prefix(a: Seq<Seq<char>>, b: Seq<Seq<char>>, k: int)
    requires
        0 <= k <= a.len(),
    ensures
        sections_of(a + b, k) == sections_of(a, k),
    decreases k,
{
    if k > 0 {
        lemma_sections_prefix(a, b, k - 1);
        assert((a + b)[k - 1] == a[k - 1]);
    }
}

/// Sections of a document: one per heading line and per non-blank line.
fn sections(content: &str) -> (r: Vec<FlatMap>)
    ensures
        r@.len() == sections_of(lines_from(content@, 0), lines_from(content@, 0).len() as int).len(),
        forall|j: int| 0 <= j < r@.len() ==> #[trigger] r@[j]@
            == sections_of(lines_from(content@, 0), lines_from(content@, 0).len() as int)[j],
{
    let cs = chars_of(content);
    let ghost s = cs@;
    let mut out: Vec<FlatMap> = Vec::new();
    let ghost mut done: Seq<Seq<char>> = seq![];
    let mut i: usize = 0;
    let mut n: usize = 0;
    while i < cs.len()
        invariant
            s == cs@,
            s == content@,
            n <= i <= cs@.len(),
            done.len() == n,
            lines_from(s, 0) == done + lines_from(s, i as int),
            out@.len() == sections_of(done, n as int).len(),
            forall|j: int| 0 <= j < out@.len() ==> #[trigger] out@[j]@ == sections_of(done, n as int)[j],
        decreases cs@.len() - i,
    {
        proof {
            lemma_next_newline(s, i as int);
        }
        let mut e: usize = i;
        while e < cs.len() && cs[e] != '\n'
            invariant
                i <= e <= cs@.len(),
                s == cs@,
                next_newline(s, i as int) == next_newline(s, e as int),
            decreases cs@.len() - e,
        {
            e = e + 1;
        }
        let to: usize = if e > i && cs[e - 1] == '\r' { e - 1 } else { e };
        let ghost line = strip_cr(s.subrange(i as int, e as int));
        assert(s.subrange(i as int, to as int) =~= line);
        let sec = line_section(cs.as_slice(), i, to, n);
        proof {
            let done2 = done.push(line);
            lemma_sections_prefix(done, seq![line], n as int);
            assert(done + seq![line] =~= done2);
            if e >= cs@.len() {
                assert(lines_from(s, i as int) =~= seq![line]);
                assert(lines_from(s, e as int) =~= seq![]);
                assert(done + lines_from(s, i as int) =~= done2 + lines_from(s, e as int));
            } else {
                assert(lines_from(s, i as int) == seq![line] + lines_from(s, e + 1));
                assert(done + lines_from(s, i as int) =~= done2 + lines_from(s, e + 1));
            }
            done = done2;
        }
        match sec {
            Some(m) => {
                out.push(m);
            },
            None => {},
        }
        if e < cs.len() {
            i = e + 1;
        } else {
            i = e;
        }
        n = n + 1;
    }
    proof {
        assert(lines_from(s, i as int) =~= seq![]);
        assert(lines_from(s, 0) =~= done);
    }
    out
}

/// A parser that lists the headings and non-blank lines of a document.
pub struct DefaultMarkdownParser;

impl DokeUserParser for DefaultMarkdownParser {
    open spec fn type_names(&self) -> Seq<Seq<char>> {
        seq!["Markdown"@, "Text"@, "Note"@]
    }

    /// The raw content, the type `markdown`, and the sections of the
    /// document (see `section_of`); it never fails.
    fn parse(&self, content: &str, _context: &ParserContext) -> (r: DokeResult<FlatMap>)
        ensures
            r is Ok,
            r->Ok_0@ == default_output(content@),
    {
        let secs = sections(content);
        let ghost sv = secs@;
        let mut entries: Vec<(String, FlatValue)> = Vec::new();
        entries.push(("raw_content".to_owned(), FlatValue::Str(content.to_owned())));
        entries.push(("type".to_owned(), FlatValue::Str("markdown".to_owned())));
        let value = FlatValue::Array(secs);
        let ghost ls = lines_from(content@, 0);
        let ghost want = sections_of(ls, ls.len() as int);
        assert forall|j: int| 0 <= j < want.len() implies value.view()->Array_0[j] == want[j] by {
            assert(sv[j]@ == want[j]);
        }
        assert(value.view()->Array_0 =~= want);
        entries.push(("sections".to_owned(), value));
        let r = map_of(entries);
        assert(r@ =~= default_output(content@));
        Ok(r)
    }

    fn supported_types(&self) -> (r: Vec<String>) {
        let mut r: Vec<String> = Vec::new();
        r.push("Markdown".to_owned());
        r.push("Text".to_owned());
        r.push("Note".to_owned());
        r
    }

    fn version(&self) -> (r: String)
        ensures
            r@ == "1.0.0"@,
    {
        "1.0.0".to_owned()
    }
}

/// After `before` registers `parser` (giving `after`), a resource type
/// resolves to `parser` exactly when its lower-case form is that of one of
/// the parser's supported types; any other type resolves as it did before.
pub proof fn lemma_register_resolves<P: DokeUserParser>(
    before: ParserRegistry<P>,
    after: ParserRegistry<P>,
    parser: P,
    resource_type: Seq<char>,
)
    requires
        after.parsers_view() == before.parsers_view().push(parser),
        after.names_view() == bind_names(
            before.names_view(),
            parser.type_names(),
            parser.type_names().len() as int,
            before.parsers_view().len() as usize,
        ),
        before.wf(),
    ensures
        after.resolves(resource_type) == if exists|i: int|
            0 <= i < parser.type_names().len() && lower_of(#[trigger] parser.type_names()[i])
                == lower_of(resource_type) {
            Some(parser)
        } else {
            before.resolves(resource_type)
        },
{
    let tn = parser.type_names();
    let q = lower_of(resource_type);
    lemma_bind_names(before.names_view(), tn, tn.len() as int, before.parsers_view().len() as usize, q);
    let found = name_lookup(before.names_view(), q);
    assert(before.parsers.len() == before.parsers@.len());
    assert(after.parsers_view()[before.parsers_view().len() as int] == parser);
    if !(exists|i: int| 0 <= i < tn.len() && lower_of(#[trigger] tn[i]) == q) {
        if found is Some {
            lemma_name_index_from(before.names_view(), q, 0);
            let j = name_index_from(before.names_view(), q, 0);
            assert(before.names_view()[j].1 == before.names@[j].1);
            assert(after.parsers_view()[found->0 as int] == before.parsers_view()[found->0 as int]);
        }
    }
}

/// For ASCII names, registration is case-insensitive: after `before`
/// registers `parser` (giving `after`), an ASCII resource type resolves to
/// `parser` exactly when it equals one of the parser's ASCII supported types
/// up to the case of its letters; any other type resolves as before. The
/// lower-case facts required here are what `register` and `get_parser`
/// ensure.
pub proof fn lemma_register_resolves_ascii<P: DokeUserParser>(
    before: ParserRegistry<P>,
    after: ParserRegistry<P>,
    parser: P,
    resource_type: Seq<char>,
)
    requires
        after.parsers_view() == before.parsers_view().push(parser),
        after.names_view() == bind_names(
            before.names_view(),
            parser.type_names(),
            parser.type_names().len() as int,
            before.parsers_view().len() as usize,
        ),
        before.wf(),
        forall|i: int| 0 <= i < parser.type_names().len() ==> is_ascii_text(#[trigger] parser.type_names()[i]),
        forall|i: int|
            0 <= i < parser.type_names().len() ==> lower_of(#[trigger] parser.type_names()[i])
                == ascii_lowered(parser.type_names()[i]),
        is_ascii_text(resource_type),
        lower_of(resource_type) == ascii_lowered(resource_type),
    ensures
        after.resolves(resource_type) == if exists|i: int|
            0 <= i < parser.type_names().len() && ascii_lowered(#[trigger] parser.type_names()[i])
                == ascii_lowered(resource_type) {
            Some(parser)
        } else {
            before.resolves(resource_type)
        },
{
    let tn = parser.type_names();
    lemma_register_resolves(before, after, parser, resource_type);
    if exists|i: int| 0 <= i < tn.len() && ascii_lowered(#[trigger] tn[i]) == ascii_lowered(resource_type) {
        let i = choose|i: int| 0 <= i < tn.len() && ascii_lowered(#[trigger] tn[i]) == ascii_lowered(resource_type);
        assert(lower_of(tn[i]) == lower_of(resource_type));
    }
    if exists|i: int| 0 <= i < tn.len() && lower_of(#[trigger] tn[i]) == lower_of(resource_type) {
        let i = choose|i: int| 0 <= i < tn.len() && lower_of(#[trigger] tn[i]) == lower_of(resource_type);
        assert(ascii_lowered(tn[i]) == ascii_lowered(resource_type));
    }
}

} // verus!
