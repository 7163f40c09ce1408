//! Character-level helpers and the `[[name]]` wiki-link grammar.
use vstd::prelude::*;

verus! {

/// Relies on `FromIterator<char> for String`: collecting characters yields a
/// string holding exactly them, in order.
#[verifier::external_body]
pub(crate) fn string_from_chars(cs: &[char]) -> (r: String)
    ensures
        r@ == cs@,
{
    cs.iter().collect()
}

/// The characters of `s`, in order.
pub fn chars_of(s: &str) -> (r: Vec<char>)
    ensures
        r@ == s@,
{
    let n = s.unicode_len();
    let mut out: Vec<char> = Vec::new();
    let mut i: usize = 0;
    while i < n
        invariant
            n == s@.len(),
            i <= n,
            out@ == s@.subrange(0, i as int),
        decreases n - i,
    {
        let c = s.get_char(i);
        out.push(c);
        i = i + 1;
        assert(out@ =~= s@.subrange(0, i as int));
    }
    assert(out@ =~= s@);
    out
}

/// Index of the first `]` at or after `j`, or the length when there is none.
pub open spec fn first_close_from(s: Seq<char>, j: int) -> int
    decreases s.len() - j,
{
    if j < 0 || j >= s.len() {
        s.len() as int
    } else if s[j] == ']' {
        j
    } else {
        first_close_from(s, j + 1)
    }
}

/// A wiki link `[[name]]` starts at `i`: two opening brackets, a non-empty
/// name without `]`, then two closing brackets.
pub open spec fn is_link_at(s: Seq<char>, i: int) -> bool {
    &&& 0 <= i
    &&& i + 1 < s.len()
    &&& s[i] == '['
    &&& s[i + 1] == '['
    &&& first_close_from(s, i + 2) > i + 2
    &&& first_close_from(s, i + 2) + 1 < s.len()
    &&& s[first_close_from(s, i + 2) + 1] == ']'
}

/// The names of the wiki links found scanning `s` from `i`, leftmost first,
/// each scan resuming after the link it found.
pub open spec fn link_names_from(s: Seq<char>, i: int) -> Seq<Seq<char>>
    decreases s.len() - i,
{
    if i < 0 || i >= s.len() {
        seq![]
    } else if is_link_at(s, i) {
        let k = first_close_from(s, i + 2);
        seq![s.subrange(i + 2, k)] + link_names_from(s, k + 2)
    } else {
        link_names_from(s, i + 1)
    }
}

/// The wiki-link names of a whole text, in order.
pub open spec fn link_names(s: Seq<char>) -> Seq<Seq<char>> {
    link_names_from(s, 0)
}

/// `s` from `i` on, with every wiki link `[[name]]` replaced by its name.
pub open spec fn display_from(s: Seq<char>, i: int) -> Seq<char>
    decreases s.len() - i,
{
    if i < 0 || i >= s.len() {
        seq![]
    } else if is_link_at(s, i) {
        let k = first_close_from(s, i + 2);
        s.subrange(i + 2, k) + display_from(s, k + 2)
    } else {
        seq![s[i]] + display_from(s, i + 1)
    }
}

/// The reading text of `s`: wiki links are shown by their names.
pub open spec fn display_text(s: Seq<char>) -> Seq<char> {
    display_from(s, 0)
}

proof fn lemma_first_close_bounds(s: Seq<char>, j: int)
    requires
        0 <= j,
    ensures
        j <= first_close_from(s, j) || first_close_from(s, j) == s.len(),
        first_close_from(s, j) <= s.len(),
        first_close_from(s, j) < s.len() ==> s[first_close_from(s, j)] == ']',
        forall|m: int| j <= m < first_close_from(s, j) ==> s[m] != ']',
    decreases s.len() - j,
{
    if j < s.len() && s[j] != ']' {
        lemma_first_close_bounds(s, j + 1);
    }
}

fn first_close(cs: &Vec<char>, j: usize) -> (k: usize)
    ensures
        k == first_close_from(cs@, j as int),
        k <= cs@.len(),
{
    proof {
        lemma_first_close_bounds(cs@, j as int);
    }
    let mut m: usize = j;
    if m >= cs.len() {
        return cs.len();
    }
    while m < cs.len() && cs[m] != ']'
        invariant
            j <= m <= cs@.len(),
            first_close_from(cs@, j as int) == first_close_from(cs@, m as int),
        decreases cs@.len() - m,
    {
        m = m + 1;
    }
    m
}

/// Whether a wiki link starts at `i`; if so, the index of its first `]`.
fn link_at(cs: &Vec<char>, i: usize) -> (r: Option<usize>)
    requires
        i < cs@.len(),
    ensures
        r is Some <==> is_link_at(cs@, i as int),
        r is Some ==> r->0 == first_close_from(cs@, i + 2),
{
    if cs.len() - i > 1 && cs[i] == '[' && cs[i + 1] == '[' {
        let k = first_close(cs, i + 2);
        if k > i + 2 && k < cs.len() - 1 && cs[k + 1] == ']' {
            return Some(k);
        }
    }
    None
}

/// The names of the wiki links of `text`, leftmost first.
pub fn wiki_link_names(text: &str) -> (r: Vec<String>)
    ensures
        r@.len() == link_names(text@).len(),
        forall|i: int| 0 <= i < r@.len() ==> r@[i]@ == link_names(text@)[i],
{
    let cs = chars_of(text);
    let mut out: Vec<String> = Vec::new();
    let ghost mut seen: Seq<Seq<char>> = seq![];
    let mut i: usize = 0;
    while i < cs.len()
        invariant
            cs@ == text@,
            i <= cs@.len() + 1,
            out@.len() == seen.len(),
            forall|m: int| 0 <= m < out@.len() ==> out@[m]@ == seen[m],
            link_names(text@) == seen + link_names_from(cs@, i as int),
        decreases cs@.len() + 1 - i,
    {
        match link_at(&cs, i) {
            Some(k) => {
                let name = string_from_chars(&cs.as_slice()[i + 2..k]);
                proof {
                    seen = seen.push(cs@.subrange(i + 2, k as int));
                    assert(seq![cs@.subrange(i + 2, k as int)] + link_names_from(cs@, k + 2)
                        == link_names_from(cs@, i as int));
                }
                out.push(name);
                i = k + 2;
            },
            None => {
                i = i + 1;
            },
        }
    }
    out
}

/// The reading text of `text`: each wiki link `[[name]]` becomes `name`.
pub fn display_string(text: &str) -> (r: String)
    ensures
        r@ == display_text(text@),
{
    let cs = chars_of(text);
    let mut out: Vec<char> = Vec::new();
    let mut i: usize = 0;
    while i < cs.len()
        invariant
            cs@ == text@,
            i <= cs@.len() + 1,
            display_text(text@) == out@ + display_from(cs@, i as int),
        decreases cs@.len() + 1 - i,
    {
        match link_at(&cs, i) {
            Some(k) => {
                let mut m: usize = i + 2;
                let ghost before = out@;
                while m < k
                    invariant
                        i + 2 <= m <= k,
                        k < cs@.len(),
                        out@ == before + cs@.subrange(i + 2, m as int),
                    decreases k - m,
                {
                    out.push(cs[m]);
                    m = m + 1;
                    assert(out@ =~= before + cs@.subrange(i + 2, m as int));
                }
                assert(display_from(cs@, i as int) == cs@.subrange(i + 2, k as int)
                    + display_from(cs@, k + 2));
                assert(out@ + display_from(cs@, k + 2) =~= before + display_from(cs@, i as int));
                i = k + 2;
            },
            None => {
                let ghost before = out@;
                out.push(cs[i]);
                assert(out@ + display_from(cs@, i + 1) =~= before + display_from(cs@, i as int));
                i = i + 1;
            },
        }
    }
    string_from_chars(out.as_slice())
}

/// A text written as plain segments, each followed by a wiki link, then a
/// final plain segment: `seg [[name]] seg [[name]] ... tail`.
pub open spec fn link_chain(parts: Seq<(Seq<char>, Seq<char>)>, tail: Seq<char>) -> Seq<char>
    decreases parts.len(),
{
    if parts.len() == 0 {
        tail
    } else {
        parts[0].0 + "[["@ + parts[0].1 + "]]"@ + link_chain(parts.drop_first(), tail)
    }
}

/// `s` holds no character `c`.
pub open spec fn lacks(s: Seq<char>, c: char) -> bool {
    forall|i: int| 0 <= i < s.len() ==> s[i] != c
}

proof fn lemma_first_close_shift(a: Seq<char>, b: Seq<char>, j: int)
    requires
        0 <= j,
    ensures
        first_close_from(a + b, a.len() + j) == a.len() + first_close_from(b, j),
    decreases b.len() - j,
{
    if j < b.len() {
        assert((a + b)[a.len() + j] == b[j]);
        if b[j] != ']' {
            lemma_first_close_shift(a, b, j + 1);
        }
    }
}

proof fn lemma_names_shift(a: Seq<char>, b: Seq<char>, j: int)
    requires
        0 <= j,
    ensures
        link_names_from(a + b, a.len() + j) == link_names_from(b, j),
    decreases b.len() - j,
{
    let s = a + b;
    let i = a.len() + j;
    if j < b.len() {
        lemma_first_close_shift(a, b, j + 2);
        if j + 1 < b.len() {
            assert(s[i] == b[j] && s[i + 1] == b[j + 1]);
        }
        if is_link_at(b, j) {
            let k = first_close_from(b, j + 2);
            assert(s[a.len() + k + 1] == b[k + 1]);
            assert(is_link_at(s, i));
            assert(s.subrange(i + 2, a.len() + k) =~= b.subrange(j + 2, k));
            lemma_names_shift(a, b, k + 2);
        } else {
            if is_link_at(s, i) {
                let k = first_close_from(b, j + 2);
                assert(s[a.len() + k + 1] == b[k + 1]);
                assert(false);
            }
            lemma_names_shift(a, b, j + 1);
        }
    }
}

proof fn lemma_skip_segment(seg: Seq<char>, r: Seq<char>, i: int)
    requires
        lacks(seg, '['),
        0 <= i <= seg.len(),
    ensures
        link_names_from(seg + r, i) == link_names(r),
    decreases seg.len() - i,
{
    if i < seg.len() {
        assert((seg + r)[i] == seg[i]);
        lemma_skip_segment(seg, r, i + 1);
    } else {
        lemma_names_shift(seg, r, 0);
    }
}

proof fn lemma_first_close_at(b: Seq<char>, j: int, m: int)
    requires
        0 <= j <= m < b.len(),
        b[m] == ']',
        forall|t: int| j <= t < m ==> b[t] != ']',
    ensures
        first_close_from(b, j) == m,
    decreases m - j,
{
    if j < m {
        lemma_first_close_at(b, j + 1, m);
    }
}

proof fn lemma_link_head(name: Seq<char>, r: Seq<char>)
    requires
        name.len() > 0,
        lacks(name, ']'),
    ensures
        link_names("[["@ + name + "]]"@ + r) == seq![name] + link_names(r),
{
    reveal_strlit("[[");
    reveal_strlit("]]");
    let head = "[["@ + name + "]]"@;
    let s = head + r;
    let n = name.len() as int;
    assert(s[0] == '[' && s[1] == '[');
    assert(s[n + 2] == ']' && s[n + 3] == ']');
    assert forall|t: int| 2 <= t < n + 2 implies s[t] != ']' by {
        assert(s[t] == name[t - 2]);
    }
    lemma_first_close_at(s, 2, n + 2);
    assert(is_link_at(s, 0));
    assert(s.subrange(2, n + 2) =~= name);
    assert(head.len() == n + 4);
    lemma_names_shift(head, r, 0);
}

/// In a text made of plain segments without `[` and wiki links whose names
/// are non-empty and hold no `]`, the extracted names are exactly the names
/// of those links, one per link, left to right.
pub proof fn lemma_link_chain_names(parts: Seq<(Seq<char>, Seq<char>)>, tail: Seq<char>)
    requires
        forall|i: int| 0 <= i < parts.len() ==> lacks(#[trigger] parts[i].0, '['),
        forall|i: int| 0 <= i < parts.len() ==> #[trigger] parts[i].1.len() > 0,
        forall|i: int| 0 <= i < parts.len() ==> lacks(#[trigger] parts[i].1, ']'),
        lacks(tail, '['),
    ensures
        link_names(link_chain(parts, tail)) == parts.map_values(|p: (Seq<char>, Seq<char>)| p.1),
    decreases parts.len(),
{
    if parts.len() == 0 {
        lemma_skip_segment(tail, seq![], 0);
        assert(tail + seq![] =~= tail);
        assert(link_names(seq![]) == Seq::<Seq<char>>::empty());
        assert(parts.map_values(|p: (Seq<char>, Seq<char>)| p.1) =~= Seq::<Seq<char>>::empty());
    } else {
        let rest = parts.drop_first();
        assert forall|i: int| 0 <= i < rest.len() implies lacks(#[trigger] rest[i].0, '[') && rest[i].1.len() > 0 && lacks(rest[i].1, ']') by {
            assert(rest[i] == parts[i + 1]);
        }
        lemma_link_chain_names(rest, tail);
        let seg = parts[0].0;
        let name = parts[0].1;
        let after = "[["@ + name + "]]"@ + link_chain(rest, tail);
        assert(link_chain(parts, tail) =~= seg + after);
        lemma_skip_segment(seg, after, 0);
        lemma_link_head(name, link_chain(rest, tail));
        assert(parts.map_values(|p: (Seq<char>, Seq<char>)| p.1) =~= seq![name] + rest.map_values(
            |p: (Seq<char>, Seq<char>)| p.1,
        ));
    }
}

/// A text in which no `[[` occurs holds no wiki link.
pub proof fn lemma_no_opening_no_links(s: Seq<char>, i: int)
    requires
        0 <= i,
        forall|j: int| 0 <= j && j + 1 < s.len() ==> !(#[trigger] s[j] == '[' && s[j + 1] == '['),
    ensures
        link_names_from(s, i) == Seq::<Seq<char>>::empty(),
    decreases s.len() - i,
{
    if i < s.len() {
        lemma_no_opening_no_links(s, i + 1);
    }
}

/// The decimal digit character for `d < 10`.
pub open spec fn digit_char(d: nat) -> char {
    if d == 0 { '0' }
    else if d == 1 { '1' }
    else if d == 2 { '2' }
    else if d == 3 { '3' }
    else if d == 4 { '4' }
    else if d == 5 { '5' }
    else if d == 6 { '6' }
    else if d == 7 { '7' }
    else if d == 8 { '8' }
    else { '9' }
}

/// The decimal notation of `n`, without leading zeros.
pub open spec fn decimal(n: nat) -> Seq<char>
    decreases n,
{
    if n < 10 {
        seq![digit_char(n)]
    } else {
        decimal(n / 10) + seq![digit_char(n % 10)]
    }
}

fn digit(d: u64) -> (c: char)
    requires
        d < 10,
    ensures
        c == digit_char(d as nat),
{
    if d == 0 { '0' }
    else if d == 1 { '1' }
    else if d == 2 { '2' }
    else if d == 3 { '3' }
    else if d == 4 { '4' }
    else if d == 5 { '5' }
    else if d == 6 { '6' }
    else if d == 7 { '7' }
    else if d == 8 { '8' }
    else { '9' }
}

fn push_decimal(out: &mut Vec<char>, n: u64)
    ensures
        final(out)@ == old(out)@ + decimal(n as nat),
    decreases n,
{
    if n < 10 {
        out.push(digit(n));
    } else {
        push_decimal(out, n / 10);
        out.push(digit(n % 10));
        assert(final(out)@ =~= old(out)@ + decimal(n as nat));
    }
}

/// The decimal notation of `n`.
pub fn decimal_string(n: u64) -> (r: String)
    ensures
        r@ == decimal(n as nat),
{
    let mut out: Vec<char> = Vec::new();
    push_decimal(&mut out, n);
    assert(out@ =~= decimal(n as nat));
    string_from_chars(out.as_slice())
}

/// Whether a character has the Unicode `White_Space` property, which is
/// what `char::is_whitespace` tests.
pub open spec fn is_space(c: char) -> bool {
    ('\u{9}' <= c && c <= '\u{d}') || c == ' ' || c == '\u{85}' || c == '\u{a0}' || c == '\u{1680}'
        || ('\u{2000}' <= c && c <= '\u{200a}') || c == '\u{2028}' || c == '\u{2029}' || c == '\u{202f}'
        || c == '\u{205f}' || c == '\u{3000}'
}

/// Whether `c` is white space (see `is_space`).
pub fn char_is_space(c: char) -> (r: bool)
    ensures
        r == is_space(c),
{
    ('\u{9}' <= c && c <= '\u{d}') || c == ' ' || c == '\u{85}' || c == '\u{a0}' || c == '\u{1680}'
        || ('\u{2000}' <= c && c <= '\u{200a}') || c == '\u{2028}' || c == '\u{2029}' || c == '\u{202f}'
        || c == '\u{205f}' || c == '\u{3000}'
}

/// The first index at or after `i` that holds no white space, or the length.
pub open spec fn space_prefix_end(s: Seq<char>, i: int) -> int
    decreases s.len() - i,
{
    if i < 0 || i >= s.len() {
        s.len() as int
    } else if is_space(s[i]) {
        space_prefix_end(s, i + 1)
    } else {
        i
    }
}

/// One past the last index before `j` that holds no white space, or 0.
pub open spec fn space_suffix_start(s: Seq<char>, j: int) -> int
    decreases j,
{
    if j <= 0 || j > s.len() {
        0
    } else if is_space(s[j - 1]) {
        space_suffix_start(s, j - 1)
    } else {
        j
    }
}

/// `s` without leading and trailing white space.
pub open spec fn trimmed(s: Seq<char>) -> Seq<char> {
    if space_prefix_end(s, 0) >= s.len() {
        seq![]
    } else {
        s.subrange(space_prefix_end(s, 0), space_suffix_start(s, s.len() as int))
    }
}

proof fn lemma_space_bounds(s: Seq<char>, i: int, j: int)
    requires
        0 <= i,
        0 <= j <= s.len(),
    ensures
        i <= space_prefix_end(s, i) <= s.len() || (i > s.len() && space_prefix_end(s, i) == s.len()),
        space_prefix_end(s, i) < s.len() ==> !is_space(s[space_prefix_end(s, i)]),
        0 <= space_suffix_start(s, j) <= j,
        space_suffix_start(s, j) > 0 ==> !is_space(s[space_suffix_start(s, j) - 1]),
        forall|m: int| space_suffix_start(s, j) <= m < j ==> is_space(s[m]),
    decreases (if i < s.len() { s.len() - i } else { 0 }) + j,
{
    if i < s.len() && is_space(s[i]) {
        lemma_space_bounds(s, i + 1, j);
    }
    if j > 0 && is_space(s[j - 1]) {
        lemma_space_bounds(s, i, j - 1);
    }
}

/// `cs[from..to]` without leading and trailing white space.
pub fn trim_chars(cs: &[char], from: usize, to: usize) -> (r: Vec<char>)
    requires
        from <= to <= cs@.len(),
    ensures
        r@ == trimmed(cs@.subrange(from as int, to as int)),
{
    let ghost s = cs@.subrange(from as int, to as int);
    proof {
        lemma_space_bounds(s, 0, s.len() as int);
    }
    let mut a: usize = from;
    while a < to && char_is_space(cs[a])
        invariant
            from <= a <= to,
            to <= cs@.len(),
            s == cs@.subrange(from as int, to as int),
            space_prefix_end(s, 0) == space_prefix_end(s, a - from),
        decreases to - a,
    {
        assert(s[a - from] == cs@[a as int]);
        a = a + 1;
    }
    if a >= to {
        return Vec::new();
    }
    let mut b: usize = to;
    while b > a && char_is_space(cs[b - 1])
        invariant
            from <= a < to,
            a <= b <= to,
            to <= cs@.len(),
            s == cs@.subrange(from as int, to as int),
            space_prefix_end(s, 0) == a - from,
            a - from < s.len(),
            !is_space(s[a - from]),
            space_suffix_start(s, s.len() as int) == space_suffix_start(s, b - from),
        decreases b - a,
    {
        assert(s[b - 1 - from] == cs@[b - 1]);
        b = b - 1;
    }
    proof {
        lemma_space_bounds(s, 0, b - from);
        if b == a {
            assert(false);
        }
        assert(!is_space(s[b - 1 - from]) || b - from == space_suffix_start(s, b - from));
    }
    let mut out: Vec<char> = Vec::new();
    let mut m: usize = a;
    while m < b
        invariant
            a <= m <= b,
            b <= cs@.len(),
            out@ == cs@.subrange(a as int, m as int),
        decreases b - m,
    {
        out.push(cs[m]);
        m = m + 1;
        assert(out@ =~= cs@.subrange(a as int, m as int));
    }
    assert(out@ =~= s.subrange(a - from, b - from));
    out
}

} // verus!
