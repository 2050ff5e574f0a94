use vstd::prelude::*;

verus! {

use crate::text::{
    find_non_space, find_space, has_prefix, is_prefix, is_space, lemma_find_non_space,
    lemma_find_space, spec_lines, split_lines, str_eq,
};

/// A named shader source file: the unit the include preprocessor works
/// on.  Headers are registered under their `name` and spliced into other
/// sources by include directives.
#[derive(Debug, Clone)]
pub struct ShaderSource {
    /// The name an include directive refers to.
    pub name: String,
    /// The source text.
    pub body: String,
}

impl ShaderSource {
    /// Builds a source from borrowed text.
    pub fn new(name: &str, body: &str) -> (r: ShaderSource)
        ensures
            r.name@ == name@,
            r.body@ == body@,
    {
        ShaderSource { name: String::from_str(name), body: String::from_str(body) }
    }
}

/// Why expanding a shader source failed.
#[derive(Debug, PartialEq, Eq, Structural, Clone, Copy)]
pub enum Error {
    /// An include directive is malformed: not exactly one token, or the
    /// token is not wrapped in double quotes.
    Format,
    /// An include directive names a header that was never registered.
    NotFound,
}

/// A map from names to texts, backed by an association vector.  A later
/// entry with the same name shadows an earlier one, so the view is simply
/// each insertion applied in order.
pub struct StrMap {
    entries: Vec<(String, String)>,
}

/// The map that a sequence of insertions builds.
pub open spec fn entries_map(s: Seq<(String, String)>) -> Map<Seq<char>, Seq<char>>
    decreases s.len(),
{
    if s.len() == 0 {
        Map::empty()
    } else {
        entries_map(s.subrange(0, s.len() - 1)).insert(s.last().0@, s.last().1@)
    }
}

/// An association vector always views to a finite map.
pub proof fn lemma_entries_map_finite(s: Seq<(String, String)>)
    ensures
        entries_map(s).dom().finite(),
    decreases s.len(),
{
    if s.len() == 0 {
    } else {
        lemma_entries_map_finite(s.subrange(0, s.len() - 1));
    }
}

/// The last entry bearing a name decides its value.
proof fn lemma_entries_map_found(s: Seq<(String, String)>, i: int, k: Seq<char>)
    requires
        0 <= i < s.len(),
        s[i].0@ == k,
        forall|j: int| i < j < s.len() ==> (#[trigger] s[j]).0@ != k,
    ensures
        entries_map(s).contains_key(k),
        entries_map(s)[k] == s[i].1@,
    decreases s.len(),
{
    if i == s.len() - 1 {
    } else {
        let prefix = s.subrange(0, s.len() - 1);
        lemma_entries_map_found(prefix, i, k);
    }
}

/// A name borne by no entry is not in the map.
proof fn lemma_entries_map_missing(s: Seq<(String, String)>, k: Seq<char>)
    requires
        forall|j: int| 0 <= j < s.len() ==> (#[trigger] s[j]).0@ != k,
    ensures
        !entries_map(s).contains_key(k),
    decreases s.len(),
{
    if s.len() == 0 {
    } else {
        lemma_entries_map_missing(s.subrange(0, s.len() - 1), k);
    }
}

impl View for StrMap {
    type V = Map<Seq<char>, Seq<char>>;

    closed spec fn view(&self) -> Map<Seq<char>, Seq<char>> {
        entries_map(self.entries@)
    }
}

impl StrMap {
    /// An empty map.
    pub fn new() -> (r: StrMap)
        ensures
            r@ == Map::<Seq<char>, Seq<char>>::empty(),
    {
        StrMap { entries: Vec::new() }
    }

    /// The view of a map built by insertions is always finite.
    pub proof fn lemma_finite(&self)
        ensures
            self@.dom().finite(),
    {
        lemma_entries_map_finite(self.entries@);
    }

    /// Inserts or overwrites the entry for `key`.
    pub fn insert(&mut self, key: String, value: String)
        ensures
            final(self)@ == old(self)@.insert(key@, value@),
    {
        let ghost s0 = self.entries@;
        self.entries.push((key, value));
        proof {
            assert(self.entries@.subrange(0, self.entries@.len() - 1) =~= s0);
        }
    }

    /// Looks the value for `key` up.
    pub fn get(&self, key: &str) -> (r: Option<&String>)
        ensures
            match r {
                Some(v) => self@.contains_key(key@) && v@ == self@[key@],
                None => !self@.contains_key(key@),
            },
    {
        let mut i: usize = self.entries.len();
        while i > 0
            invariant
                i <= self.entries@.len(),
                forall|j: int| i <= j < self.entries@.len() ==> (#[trigger] self.entries@[j]).0@ != key@,
            decreases i,
        {
            i = i - 1;
            if str_eq(self.entries[i].0.as_str(), key) {
                proof {
                    lemma_entries_map_found(self.entries@, i as int, key@);
                }
                return Some(&self.entries[i].1);
            }
        }
        proof {
            lemma_entries_map_missing(self.entries@, key@);
        }
        None
    }
}

/// A set of names, backed by a vector of the inserted names.
pub struct StrSet {
    entries: Vec<String>,
}

/// The set that a sequence of insertions builds.
pub open spec fn entries_set(s: Seq<String>) -> Set<Seq<char>>
    decreases s.len(),
{
    if s.len() == 0 {
        Set::empty()
    } else {
        entries_set(s.subrange(0, s.len() - 1)).insert(s.last()@)
    }
}

/// A name is in the built set exactly when some entry bears it.
proof fn lemma_entries_set_contains(s: Seq<String>, k: Seq<char>)
    ensures
        entries_set(s).contains(k) <==> exists|j: int| 0 <= j < s.len() && (#[trigger] s[j])@ == k,
    decreases s.len(),
{
    if s.len() == 0 {
    } else {
        lemma_entries_set_contains(s.subrange(0, s.len() - 1), k);
        if entries_set(s).contains(k) {
            if s.last()@ != k {
                let j = choose|j: int|
                    0 <= j < s.len() - 1 && (#[trigger] s.subrange(0, s.len() - 1)[j])@ == k;
                assert(s[j]@ == k);
            }
        }
        if exists|j: int| 0 <= j < s.len() && (#[trigger] s[j])@ == k {
            let j = choose|j: int| 0 <= j < s.len() && (#[trigger] s[j])@ == k;
            if j < s.len() - 1 {
                assert(s.subrange(0, s.len() - 1)[j]@ == k);
            }
        }
    }
}

/// A set built by insertions is finite.
pub proof fn lemma_entries_set_finite(s: Seq<String>)
    ensures
        entries_set(s).finite(),
    decreases s.len(),
{
    if s.len() == 0 {
    } else {
        lemma_entries_set_finite(s.subrange(0, s.len() - 1));
    }
}

impl View for StrSet {
    type V = Set<Seq<char>>;

    closed spec fn view(&self) -> Set<Seq<char>> {
        entries_set(self.entries@)
    }
}

impl StrSet {
    /// An empty set.
    pub fn new() -> (r: StrSet)
        ensures
            r@ == Set::<Seq<char>>::empty(),
    {
        StrSet { entries: Vec::new() }
    }

    /// The view of a set built by insertions is always finite.
    pub proof fn lemma_finite(&self)
        ensures
            self@.finite(),
    {
        lemma_entries_set_finite(self.entries@);
    }

    /// Inserts a name.
    pub fn insert(&mut self, key: String)
        ensures
            final(self)@ == old(self)@.insert(key@),
    {
        let ghost s0 = self.entries@;
        self.entries.push(key);
        proof {
            assert(self.entries@.subrange(0, self.entries@.len() - 1) =~= s0);
        }
    }

    /// Tests membership.
    pub fn contains(&self, key: &str) -> (r: bool)
        ensures
            r == self@.contains(key@),
    {
        proof {
            lemma_entries_set_contains(self.entries@, key@);
        }
        let mut i: usize = 0;
        let len = self.entries.len();
        while i < len
            invariant
                len == self.entries@.len(),
                i <= len,
                forall|j: int| 0 <= j < i ==> (#[trigger] self.entries@[j])@ != key@,
                entries_set(self.entries@).contains(key@) <==> exists|j: int|
                    0 <= j < self.entries@.len() && (#[trigger] self.entries@[j])@ == key@,
            decreases len - i,
        {
            if str_eq(self.entries[i].as_str(), key) {
                return true;
            }
            i = i + 1;
        }
        false
    }
}

/// The include directive prefix: a line splices a header exactly when it
/// starts with this text.
pub open spec fn pragma_prefix() -> Seq<char> {
    "#pragma include "@
}

/// Whether a line is an include directive.
pub open spec fn is_pragma_line(l: Seq<char>) -> bool {
    is_prefix(l, pragma_prefix())
}

/// What follows the directive prefix on an include line.
pub open spec fn pragma_payload(l: Seq<char>) -> Seq<char> {
    l.subrange(pragma_prefix().len() as int, l.len() as int)
}

/// Whether any line of a source is an include directive.
pub open spec fn has_pragma(lines: Seq<Seq<char>>) -> bool {
    exists|i: int| 0 <= i < lines.len() && is_pragma_line(#[trigger] lines[i])
}

/// Parsing the payload of an include directive: it must hold exactly one
/// whitespace-delimited token, wrapped in double quotes; the header name
/// is what stands between the quotes.
pub open spec fn spec_parse_include(s: Seq<char>) -> Result<Seq<char>, Error> {
    let a = find_non_space(s);
    if a == s.len() {
        Err(Error::Format)
    } else {
        let e = a + find_space(s.subrange(a, s.len() as int));
        let b = e + find_non_space(s.subrange(e, s.len() as int));
        if b != s.len() {
            Err(Error::Format)
        } else {
            let w = s.subrange(a, e);
            if w.len() >= 2 && w[0] == '"' && w.last() == '"' {
                Ok(w.subrange(1, w.len() - 1))
            } else {
                Err(Error::Format)
            }
        }
    }
}

/// How many registered headers are not yet included: the quantity that
/// shrinks whenever expansion recurses into a header.
pub open spec fn remaining_headers(
    headers: Map<Seq<char>, Seq<char>>,
    included: Set<Seq<char>>,
) -> nat {
    headers.dom().difference(included).len()
}

/// The newline appended after a spliced header whose text does not end
/// with one.
pub open spec fn end_nl(v: Seq<char>) -> Seq<char> {
    if v.len() > 0 && v.last() == '\n' {
        Seq::empty()
    } else {
        seq!['\n']
    }
}

/// Expansion of one source, as the preprocessor computes it.
///
/// A source whose expansion is already memoised is answered from the
/// memo.  A source without include directives expands to itself.  Any
/// other source is rebuilt line by line; either way the result is
/// memoised under the source's name.  The value is a result triple:
/// the expanded text together with the memo and included-name set as they
/// stand afterwards.
pub open spec fn spec_expand_source(
    headers: Map<Seq<char>, Seq<char>>,
    memo: Map<Seq<char>, Seq<char>>,
    included: Set<Seq<char>>,
    name: Seq<char>,
    body: Seq<char>,
) -> Result<(Seq<char>, Map<Seq<char>, Seq<char>>, Set<Seq<char>>), Error>
    decreases remaining_headers(headers, included), 1int, 0int,
        when headers.dom().finite()
{
    if memo.contains_key(name) {
        Ok((memo[name], memo, included))
    } else if !has_pragma(spec_lines(body)) {
        Ok((body, memo.insert(name, body), included))
    } else {
        match spec_expand_lines(headers, memo, included, spec_lines(body), Seq::empty()) {
            Ok((text, memo2, included2)) => Ok((text, memo2.insert(name, text), included2)),
            Err(e) => Err(e),
        }
    }
}

/// Line-by-line expansion with the text built so far in `acc`.
///
/// An ordinary line is copied and terminated; an include directive is
/// parsed, skipped if its header was already included on this expansion
/// path, rejected if the header is unknown, and otherwise replaced by the
/// header's own expansion (marked as included first, so that inclusion
/// cycles terminate), newline-terminated if it is not already.
pub open spec fn spec_expand_lines(
    headers: Map<Seq<char>, Seq<char>>,
    memo: Map<Seq<char>, Seq<char>>,
    included: Set<Seq<char>>,
    lines: Seq<Seq<char>>,
    acc: Seq<char>,
) -> Result<(Seq<char>, Map<Seq<char>, Seq<char>>, Set<Seq<char>>), Error>
    decreases remaining_headers(headers, included), 0int, lines.len(),
        when headers.dom().finite()
        via spec_expand_lines_decreases
{
    if lines.len() == 0 {
        Ok((acc, memo, included))
    } else {
        let l = lines[0];
        let rest = lines.subrange(1, lines.len() as int);
        if is_pragma_line(l) {
            match spec_parse_include(pragma_payload(l)) {
                Err(e) => Err(e),
                Ok(nm) => if included.contains(nm) {
                    spec_expand_lines(headers, memo, included, rest, acc)
                } else if !headers.contains_key(nm) {
                    Err(Error::NotFound)
                } else {
                    match spec_expand_source(headers, memo, included.insert(nm), nm, headers[nm]) {
                        Err(e) => Err(e),
                        Ok((hv, memo2, included2)) => spec_expand_lines(
                            headers,
                            memo2,
                            included.insert(nm).union(included2),
                            rest,
                            acc + hv + end_nl(hv),
                        ),
                    }
                },
            }
        } else {
            spec_expand_lines(headers, memo, included, rest, acc + l + seq!['\n'])
        }
    }
}

#[via_fn]
proof fn spec_expand_lines_decreases(
    headers: Map<Seq<char>, Seq<char>>,
    memo: Map<Seq<char>, Seq<char>>,
    included: Set<Seq<char>>,
    lines: Seq<Seq<char>>,
    acc: Seq<char>,
) {
    if lines.len() != 0 {
        let l = lines[0];
        if is_pragma_line(l) {
            if let Ok(nm) = spec_parse_include(pragma_payload(l)) {
                if !included.contains(nm) && headers.contains_key(nm) {
                    headers.dom().lemma_set_insert_diff_decreases(included, nm);
                    let inc1 = included.insert(nm);
                    let big = headers.dom().difference(included);
                    vstd::set_lib::lemma_len_subset(big, headers.dom());
                    assert forall|x: Set<Seq<char>>|
                        #[trigger] headers.dom().difference(inc1.union(x)).len()
                            <= headers.dom().difference(included).len() by {
                        let small = headers.dom().difference(inc1.union(x));
                        assert(small.subset_of(big));
                        vstd::set_lib::lemma_len_subset(small, big);
                    }
                }
            }
        }
    }
}

/// Whatever a successful expansion returns, its included-name set only
/// grows: every name included before is still included afterwards.
pub proof fn lemma_expand_source_grows(
    headers: Map<Seq<char>, Seq<char>>,
    memo: Map<Seq<char>, Seq<char>>,
    included: Set<Seq<char>>,
    name: Seq<char>,
    body: Seq<char>,
)
    requires
        headers.dom().finite(),
    ensures
        spec_expand_source(headers, memo, included, name, body) matches Ok(t)
            ==> included.subset_of(t.2),
    decreases remaining_headers(headers, included), 1int, 0int,
{
    if memo.contains_key(name) {
    } else if !has_pragma(spec_lines(body)) {
    } else {
        lemma_expand_lines_grows(headers, memo, included, spec_lines(body), Seq::empty());
    }
}

/// The line-by-line worker of `lemma_expand_source_grows`.
pub proof fn lemma_expand_lines_grows(
    headers: Map<Seq<char>, Seq<char>>,
    memo: Map<Seq<char>, Seq<char>>,
    included: Set<Seq<char>>,
    lines: Seq<Seq<char>>,
    acc: Seq<char>,
)
    requires
        headers.dom().finite(),
    ensures
        spec_expand_lines(headers, memo, included, lines, acc) matches Ok(t) ==> included.subset_of(
            t.2,
        ),
    decreases remaining_headers(headers, included), 0int, lines.len(),
{
    if lines.len() == 0 {
    } else {
        let l = lines[0];
        let rest = lines.subrange(1, lines.len() as int);
        if is_pragma_line(l) {
            if let Ok(nm) = spec_parse_include(pragma_payload(l)) {
                if included.contains(nm) {
                    lemma_expand_lines_grows(headers, memo, included, rest, acc);
                } else if headers.contains_key(nm) {
                    let inc1 = included.insert(nm);
                    headers.dom().lemma_set_insert_diff_decreases(included, nm);
                    if let Ok((hv, memo2, included2)) = spec_expand_source(
                        headers,
                        memo,
                        inc1,
                        nm,
                        headers[nm],
                    ) {
                        let big = headers.dom().difference(included);
                        let small = headers.dom().difference(inc1.union(included2));
                        vstd::set_lib::lemma_len_subset(big, headers.dom());
                        assert(small.subset_of(big));
                        vstd::set_lib::lemma_len_subset(small, big);
                        lemma_expand_lines_grows(
                            headers,
                            memo2,
                            inc1.union(included2),
                            rest,
                            acc + hv + end_nl(hv),
                        );
                    }
                }
            }
        } else {
            lemma_expand_lines_grows(headers, memo, included, rest, acc + l + seq!['\n']);
        }
    }
}

/// Expansion is stable: once a source has been expanded, expanding the
/// same name again — whatever body it carries and whatever has been
/// included meanwhile — returns the same text and leaves the memo alone.
pub proof fn lemma_expansion_is_stable(
    headers: Map<Seq<char>, Seq<char>>,
    memo: Map<Seq<char>, Seq<char>>,
    included: Set<Seq<char>>,
    name: Seq<char>,
    body: Seq<char>,
    included2: Set<Seq<char>>,
    body2: Seq<char>,
)
    requires
        headers.dom().finite(),
        spec_expand_source(headers, memo, included, name, body) is Ok,
    ensures
        spec_expand_source(headers, memo, included, name, body) matches Ok(t)
            ==> spec_expand_source(headers, t.1, included2, name, body2) == Ok::<
            (Seq<char>, Map<Seq<char>, Seq<char>>, Set<Seq<char>>),
            Error,
        >((t.0, t.1, included2)),
{
    if let Ok((text, memo2, _)) = spec_expand_source(headers, memo, included, name, body) {
        assert(memo2.contains_key(name) && memo2[name] == text);
    }
}

/// Whether `c` separates tokens of an include directive.
fn is_space_char(c: char) -> (r: bool)
    ensures
        r == is_space(c),
{
    c == ' ' || c == '\t' || c == '\r' || c == '\n'
}

/// The first non-whitespace position at or after `from`, or the length.
fn find_non_space_at(s: &str, from: usize) -> (r: usize)
    requires
        from as int <= s@.len(),
    ensures
        r as int == from + find_non_space(s@.subrange(from as int, s@.len() as int)),
        from <= r,
        r as int <= s@.len(),
{
    let ghost suf = s@.subrange(from as int, s@.len() as int);
    proof {
        lemma_find_non_space(suf);
    }
    let n = s.unicode_len();
    let mut i: usize = from;
    while i < n
        invariant
            from <= i <= n,
            n == s@.len(),
            suf == s@.subrange(from as int, s@.len() as int),
            forall|j: int| from <= j < i ==> is_space(#[trigger] s@[j]),
            0 <= find_non_space(suf) <= suf.len(),
            find_non_space(suf) < suf.len() ==> !is_space(suf[find_non_space(suf)]),
            forall|j: int| 0 <= j < find_non_space(suf) ==> is_space(#[trigger] suf[j]),
        decreases n - i,
    {
        if !is_space_char(s.get_char(i)) {
            proof {
                let f = find_non_space(suf);
                assert(suf[i - from] == s@[i as int]);
                if f < i - from {
                    assert(is_space(s@[from + f]));
                    assert(suf[f] == s@[from + f]);
                }
                if f > i - from {
                    assert(is_space(suf[i - from]));
                }
            }
            return i;
        }
        i = i + 1;
    }
    proof {
        let f = find_non_space(suf);
        if f < suf.len() {
            assert(suf[f] == s@[from + f]);
        }
    }
    n
}

/// The first whitespace position at or after `from`, or the length.
fn find_space_at(s: &str, from: usize) -> (r: usize)
    requires
        from as int <= s@.len(),
    ensures
        r as int == from + find_space(s@.subrange(from as int, s@.len() as int)),
        from <= r,
        r as int <= s@.len(),
{
    let ghost suf = s@.subrange(from as int, s@.len() as int);
    proof {
        lemma_find_space(suf);
    }
    let n = s.unicode_len();
    let mut i: usize = from;
    while i < n
        invariant
            from <= i <= n,
            n == s@.len(),
            suf == s@.subrange(from as int, s@.len() as int),
            forall|j: int| from <= j < i ==> !is_space(#[trigger] s@[j]),
            0 <= find_space(suf) <= suf.len(),
            find_space(suf) < suf.len() ==> is_space(suf[find_space(suf)]),
            forall|j: int| 0 <= j < find_space(suf) ==> !is_space(#[trigger] suf[j]),
        decreases n - i,
    {
        if is_space_char(s.get_char(i)) {
            proof {
                let f = find_space(suf);
                assert(suf[i - from] == s@[i as int]);
                if f < i - from {
                    assert(!is_space(s@[from + f]));
                    assert(suf[f] == s@[from + f]);
                }
                if f > i - from {
                    assert(!is_space(suf[i - from]));
                }
            }
            return i;
        }
        i = i + 1;
    }
    proof {
        let f = find_space(suf);
        if f < suf.len() {
            assert(suf[f] == s@[from + f]);
        }
    }
    n
}

/// Parses the payload of an include directive into the header name.
fn parse_include_name(directive: &str) -> (r: Result<String, Error>)
    ensures
        match r {
            Ok(nm) => spec_parse_include(directive@) == Ok::<Seq<char>, Error>(nm@),
            Err(e) => spec_parse_include(directive@) == Err::<Seq<char>, Error>(e),
        },
{
    let n = directive.unicode_len();
    proof {
        assert(directive@.subrange(0, directive@.len() as int) =~= directive@);
    }
    let a = find_non_space_at(directive, 0);
    if a == n {
        return Err(Error::Format);
    }
    let e = find_space_at(directive, a);
    let b = find_non_space_at(directive, e);
    if b != n {
        return Err(Error::Format);
    }
    let ghost w = directive@.subrange(a as int, e as int);
    proof {
        lemma_find_space(directive@.subrange(a as int, directive@.len() as int));
        assert(a <= e);
        if e > a {
            assert(w[0] == directive@[a as int]);
            assert(w.last() == directive@[e as int - 1]);
        }
    }
    if e - a >= 2 {
        let first = directive.get_char(a);
        let last = directive.get_char(e - 1);
        if first == '"' && last == '"' {
            let nm = directive.substring_char(a + 1, e - 1);
            proof {
                assert(w.subrange(1, w.len() - 1) =~= directive@.subrange(
                    a as int + 1,
                    e as int - 1,
                ));
            }
            return Ok(String::from_str(nm));
        }
        return Err(Error::Format);
    }
    Err(Error::Format)
}

/// The shader-source include preprocessor.
///
/// Headers are registered once; `expand` then splices them into any
/// source wherever an include directive names them, recursively, keeping
/// each header at most once per expansion and memoising every text it has
/// expanded.  The memo is keyed by source name, so a name stands for one
/// text for the lifetime of the preprocessor.
pub struct Preprocessor {
    headers: StrMap,
    expanded: StrMap,
}

impl Preprocessor {
    /// The registered headers, by name.
    pub closed spec fn spec_headers(&self) -> Map<Seq<char>, Seq<char>> {
        self.headers@
    }

    /// The memo of already expanded sources, by name.
    pub closed spec fn spec_expanded(&self) -> Map<Seq<char>, Seq<char>> {
        self.expanded@
    }

    /// A fresh preprocessor with no headers and an empty memo.
    pub fn new() -> (r: Preprocessor)
        ensures
            r.spec_headers() == Map::<Seq<char>, Seq<char>>::empty(),
            r.spec_expanded() == Map::<Seq<char>, Seq<char>>::empty(),
    {
        Preprocessor { headers: StrMap::new(), expanded: StrMap::new() }
    }

    /// Registers a header under its name, replacing any previous header
    /// of that name.
    pub fn add_header(&mut self, source: ShaderSource)
        ensures
            final(self).spec_headers() == old(self).spec_headers().insert(
                source.name@,
                source.body@,
            ),
            final(self).spec_expanded() == old(self).spec_expanded(),
    {
        self.headers.insert(source.name, source.body);
    }

    /// Expands a source: every include directive is replaced by the
    /// expansion of the header it names, exactly as `spec_expand_source`
    /// describes for an empty included-name set.
    pub fn expand(&mut self, source: &ShaderSource) -> (r: Result<String, Error>)
        ensures
            final(self).spec_headers() == old(self).spec_headers(),
            match r {
                Ok(text) => spec_expand_source(
                    old(self).spec_headers(),
                    old(self).spec_expanded(),
                    Set::empty(),
                    source.name@,
                    source.body@,
                ) matches Ok(t) && t.0 == text@ && t.1 == final(self).spec_expanded(),
                Err(e) => spec_expand_source(
                    old(self).spec_headers(),
                    old(self).spec_expanded(),
                    Set::empty(),
                    source.name@,
                    source.body@,
                ) == Err::<(Seq<char>, Map<Seq<char>, Seq<char>>, Set<Seq<char>>), Error>(e),
            },
    {
        let mut included = StrSet::new();
        self.expand_recursive(source.name.as_str(), source.body.as_str(), &mut included)
    }

    /// The recursive worker of `expand`.
    fn expand_recursive(&mut self, name: &str, body: &str, included: &mut StrSet) -> (r: Result<
        String,
        Error,
    >)
        ensures
            final(self).spec_headers() == old(self).spec_headers(),
            match r {
                Ok(text) => spec_expand_source(
                    old(self).spec_headers(),
                    old(self).spec_expanded(),
                    old(included)@,
                    name@,
                    body@,
                ) == Ok::<(Seq<char>, Map<Seq<char>, Seq<char>>, Set<Seq<char>>), Error>(
                    (text@, final(self).spec_expanded(), final(included)@),
                ),
                Err(e) => spec_expand_source(
                    old(self).spec_headers(),
                    old(self).spec_expanded(),
                    old(included)@,
                    name@,
                    body@,
                ) == Err::<(Seq<char>, Map<Seq<char>, Seq<char>>, Set<Seq<char>>), Error>(e),
            },
        decreases remaining_headers(self.spec_headers(), included@),
    {
        proof {
            self.headers.lemma_finite();
        }
        let memoised = match self.expanded.get(name) {
            Some(v) => Some(v.clone()),
            None => None,
        };
        if let Some(v) = memoised {
            return Ok(v);
        }
        let ghost h = self.spec_headers();
        let ghost m0 = self.spec_expanded();
        let ghost inc0 = included@;
        let lines = split_lines(body);
        let ghost gl = spec_lines(body@);
        let line_count = lines.len();
        let mut hp = false;
        let mut li: usize = 0;
        while li < line_count
            invariant
                line_count == lines@.len(),
                lines@.len() == gl.len(),
                forall|i: int| 0 <= i < gl.len() ==> (#[trigger] lines@[i])@ == gl[i],
                li <= line_count,
                hp == exists|i: int| 0 <= i < li && is_pragma_line(#[trigger] gl[i]),
            decreases line_count - li,
        {
            if has_prefix(lines[li].as_str(), "#pragma include ") {
                hp = true;
            }
            li = li + 1;
        }
        if !hp {
            let text = String::from_str(body);
            self.expanded.insert(String::from_str(name), text.clone());
            proof {
                assert(!has_pragma(gl));
            }
            return Ok(text);
        }
        let mut buf = String::new();
        proof {
            assert(gl.subrange(0, gl.len() as int) =~= gl);
        }
        let mut li: usize = 0;
        while li < line_count
            invariant
                h == self.spec_headers(),
                h == old(self).spec_headers(),
                h.dom().finite(),
                m0 == old(self).spec_expanded(),
                inc0 == old(included)@,
                !m0.contains_key(name@),
                has_pragma(gl),
                gl == spec_lines(body@),
                line_count == lines@.len(),
                lines@.len() == gl.len(),
                forall|i: int| 0 <= i < gl.len() ==> (#[trigger] lines@[i])@ == gl[i],
                li <= line_count,
                inc0.subset_of(included@),
                spec_expand_lines(h, m0, inc0, gl, Seq::empty()) == spec_expand_lines(
                    h,
                    self.spec_expanded(),
                    included@,
                    gl.subrange(li as int, gl.len() as int),
                    buf@,
                ),
            decreases line_count - li,
        {
            let ghost rest0 = gl.subrange(li as int, gl.len() as int);
            let ghost rest1 = gl.subrange(li as int + 1, gl.len() as int);
            proof {
                assert(rest0.len() > 0);
                assert(rest0[0] == gl[li as int]);
                assert(rest0.subrange(1, rest0.len() as int) =~= rest1);
            }
            let is_pragma = has_prefix(lines[li].as_str(), "#pragma include ");
            if is_pragma {
                proof {
                    reveal_strlit("#pragma include ");
                }
                let line_len = lines[li].as_str().unicode_len();
                let payload = lines[li].as_str().substring_char(16, line_len);
                proof {
                    assert(payload@ =~= pragma_payload(gl[li as int]));
                }
                match parse_include_name(payload) {
                    Err(e) => {
                        return Err(e);
                    },
                    Ok(nm) => {
                        if included.contains(nm.as_str()) {
                            proof {
                                assert(spec_expand_lines(
                                    h,
                                    self.spec_expanded(),
                                    included@,
                                    rest0,
                                    buf@,
                                ) == spec_expand_lines(
                                    h,
                                    self.spec_expanded(),
                                    included@,
                                    rest1,
                                    buf@,
                                ));
                            }
                        } else {
                            let header_body = match self.headers.get(nm.as_str()) {
                                None => {
                                    return Err(Error::NotFound);
                                },
                                Some(hb) => hb.clone(),
                            };
                            let ghost m_pre = self.spec_expanded();
                            let ghost inc_pre = included@;
                            included.insert(nm.clone());
                            proof {
                                h.dom().lemma_set_insert_diff_decreases(inc_pre, nm@);
                                vstd::set_lib::lemma_len_subset(
                                    h.dom().difference(included@),
                                    h.dom(),
                                );
                                vstd::set_lib::lemma_len_subset(
                                    h.dom().difference(inc_pre),
                                    h.dom(),
                                );
                                assert(h.dom().difference(inc_pre).subset_of(
                                    h.dom().difference(inc0),
                                ));
                                vstd::set_lib::lemma_len_subset(
                                    h.dom().difference(inc_pre),
                                    h.dom().difference(inc0),
                                );
                            }
                            let sub = self.expand_recursive(
                                nm.as_str(),
                                header_body.as_str(),
                                included,
                            );
                            match sub {
                                Err(e) => {
                                    return Err(e);
                                },
                                Ok(hv) => {
                                    proof {
                                        lemma_expand_source_grows(h, m_pre, inc_pre.insert(nm@), nm@, header_body@);
                                        assert(inc_pre.insert(nm@).union(included@) =~= included@);
                                    }
                                    buf.append(hv.as_str());
                                    let hv_len = hv.as_str().unicode_len();
                                    let needs_nl = if hv_len == 0 {
                                        true
                                    } else {
                                        hv.as_str().get_char(hv_len - 1) != '\n'
                                    };
                                    if needs_nl {
                                        buf.append("\n");
                                    }
                                    proof {
                                        reveal_strlit("\n");
                                        assert("\n"@ =~= seq!['\n']);
                                        assert(buf@ =~= (buf@.subrange(
                                            0,
                                            buf@.len() - hv@.len() - end_nl(hv@).len(),
                                        ) + hv@ + end_nl(hv@)));
                                    }
                                },
                            }
                        }
                    },
                }
            } else {
                buf.append(lines[li].as_str());
                buf.append("\n");
                proof {
                    reveal_strlit("\n");
                    assert("\n"@ =~= seq!['\n']);
                }
            }
            li = li + 1;
        }
        proof {
            assert(gl.subrange(line_count as int, gl.len() as int) =~= Seq::<Seq<char>>::empty());
        }
        self.expanded.insert(String::from_str(name), buf.clone());
        Ok(buf)
    }
}

} // verus!
