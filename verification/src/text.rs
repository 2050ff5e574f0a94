use vstd::prelude::*;

verus! {

/// The first index of `c` in `s`, or `s.len()` when `c` does not occur.
pub open spec fn find_char(s: Seq<char>, c: char) -> int
    decreases s.len(),
{
    if s.len() == 0 {
        0
    } else if s[0] == c {
        0
    } else {
        1 + find_char(s.subrange(1, s.len() as int), c)
    }
}

/// `find_char` really is the first occurrence.
pub proof fn lemma_find_char(s: Seq<char>, c: char)
    ensures
        0 <= find_char(s, c) <= s.len(),
        find_char(s, c) < s.len() ==> s[find_char(s, c)] == c,
        forall|j: int| 0 <= j < find_char(s, c) ==> s[j] != c,
    decreases s.len(),
{
    if s.len() == 0 {
    } else if s[0] == c {
    } else {
        lemma_find_char(s.subrange(1, s.len() as int), c);
        assert forall|j: int| 0 <= j < find_char(s, c) implies s[j] != c by {
            if j >= 1 {
                assert(s.subrange(1, s.len() as int)[j - 1] == s[j]);
            }
        }
    }
}

/// The whitespace that separates tokens of an include directive.
pub open spec fn is_space(c: char) -> bool {
    c == ' ' || c == '\t' || c == '\r' || c == '\n'
}

/// The first whitespace index in `s`, or `s.len()`.
pub open spec fn find_space(s: Seq<char>) -> int
    decreases s.len(),
{
    if s.len() == 0 {
        0
    } else if is_space(s[0]) {
        0
    } else {
        1 + find_space(s.subrange(1, s.len() as int))
    }
}

/// `find_space` really is the first whitespace position.
pub proof fn lemma_find_space(s: Seq<char>)
    ensures
        0 <= find_space(s) <= s.len(),
        find_space(s) < s.len() ==> is_space(s[find_space(s)]),
        forall|j: int| 0 <= j < find_space(s) ==> !is_space(#[trigger] s[j]),
    decreases s.len(),
{
    if s.len() == 0 {
    } else if is_space(s[0]) {
    } else {
        lemma_find_space(s.subrange(1, s.len() as int));
        assert forall|j: int| 0 <= j < find_space(s) implies !is_space(s[j]) by {
            if j >= 1 {
                assert(s.subrange(1, s.len() as int)[j - 1] == s[j]);
            }
        }
    }
}

/// The first non-whitespace index in `s`, or `s.len()`.
pub open spec fn find_non_space(s: Seq<char>) -> int
    decreases s.len(),
{
    if s.len() == 0 {
        0
    } else if !is_space(s[0]) {
        0
    } else {
        1 + find_non_space(s.subrange(1, s.len() as int))
    }
}

/// `find_non_space` really is the first non-whitespace position.
pub proof fn lemma_find_non_space(s: Seq<char>)
    ensures
        0 <= find_non_space(s) <= s.len(),
        find_non_space(s) < s.len() ==> !is_space(s[find_non_space(s)]),
        forall|j: int| 0 <= j < find_non_space(s) ==> is_space(#[trigger] s[j]),
    decreases s.len(),
{
    if s.len() == 0 {
    } else if !is_space(s[0]) {
    } else {
        lemma_find_non_space(s.subrange(1, s.len() as int));
        assert forall|j: int| 0 <= j < find_non_space(s) implies is_space(s[j]) by {
            if j >= 1 {
                assert(s.subrange(1, s.len() as int)[j - 1] == s[j]);
            }
        }
    }
}

/// A line as handed out by line splitting: the terminator is dropped, and
/// so is one carriage return directly before it.
pub open spec fn strip_cr(l: Seq<char>) -> Seq<char> {
    if l.len() > 0 && l.last() == '\r' {
        l.subrange(0, l.len() - 1)
    } else {
        l
    }
}

/// The lines of `s`: split at every line feed, dropping the terminator
/// and a carriage return before it; a last line without a terminator
/// still counts, a trailing terminator adds no empty line.
pub open spec fn spec_lines(s: Seq<char>) -> Seq<Seq<char>>
    decreases s.len(),
{
    if s.len() == 0 {
        Seq::empty()
    } else {
        let j = find_char(s, '\n');
        if 0 <= j < s.len() {
            seq![strip_cr(s.subrange(0, j))] + spec_lines(s.subrange(j + 1, s.len() as int))
        } else {
            seq![strip_cr(s)]
        }
    }
}

/// `p` starts `s`.
pub open spec fn is_prefix(s: Seq<char>, p: Seq<char>) -> bool {
    p.len() <= s.len() && s.subrange(0, p.len() as int) == p
}

/// Compares two string slices by contents.
pub fn str_eq(a: &str, b: &str) -> (r: bool)
    ensures
        r == (a@ == b@),
{
    let n = a.unicode_len();
    let m = b.unicode_len();
    if n != m {
        return false;
    }
    let mut i: usize = 0;
    while i < n
        invariant
            n == a@.len(),
            n == b@.len(),
            i <= n,
            forall|j: int| 0 <= j < i ==> a@[j] == b@[j],
        decreases n - i,
    {
        if a.get_char(i) != b.get_char(i) {
            return false;
        }
        i = i + 1;
    }
    proof {
        assert(a@ =~= b@);
    }
    true
}

/// Tests whether `p` starts `s`.
pub fn has_prefix(s: &str, p: &str) -> (r: bool)
    ensures
        r == is_prefix(s@, p@),
{
    let n = s.unicode_len();
    let m = p.unicode_len();
    if m > n {
        return false;
    }
    let mut i: usize = 0;
    while i < m
        invariant
            n == s@.len(),
            m == p@.len(),
            m <= n,
            i <= m,
            forall|j: int| 0 <= j < i ==> s@[j] == p@[j],
        decreases m - i,
    {
        if s.get_char(i) != p.get_char(i) {
            proof {
                assert(s@.subrange(0, p@.len() as int)[i as int] != p@[i as int]);
            }
            return false;
        }
        i = i + 1;
    }
    proof {
        assert(s@.subrange(0, p@.len() as int) =~= p@);
    }
    true
}

/// Finds the first line feed in `s`, or its length.
pub fn find_newline(s: &str) -> (j: usize)
    ensures
        j as int == find_char(s@, '\n'),
{
    let n = s.unicode_len();
    let mut i: usize = 0;
    proof {
        lemma_find_char(s@, '\n');
    }
    while i < n
        invariant
            n == s@.len(),
            i <= n,
            forall|j: int| 0 <= j < i ==> s@[j] != '\n',
            0 <= find_char(s@, '\n') <= n,
            find_char(s@, '\n') < n ==> s@[find_char(s@, '\n')] == '\n',
            forall|j: int| 0 <= j < find_char(s@, '\n') ==> s@[j] != '\n',
        decreases n - i,
    {
        if s.get_char(i) == '\n' {
            return i;
        }
        i = i + 1;
    }
    n
}

/// Copies the characters of `s` from `from` to `to`, dropping one
/// carriage return at the very end if there is one.
fn strip_cr_sub(s: &str, from: usize, to: usize) -> (r: String)
    requires
        from <= to,
        to as int <= s@.len(),
    ensures
        r@ == strip_cr(s@.subrange(from as int, to as int)),
{
    if to > from {
        let last = s.get_char(to - 1);
        if last == '\r' {
            let sub = s.substring_char(from, to - 1);
            proof {
                assert(s@.subrange(from as int, to as int - 1) =~= strip_cr(
                    s@.subrange(from as int, to as int),
                ));
            }
            return String::from_str(sub);
        }
    }
    let sub = s.substring_char(from, to);
    String::from_str(sub)
}

/// Splits `s` into its lines, exactly as `spec_lines` describes.
pub fn split_lines(s: &str) -> (r: Vec<String>)
    ensures
        r@.len() == spec_lines(s@).len(),
        forall|i: int| 0 <= i < r@.len() ==> (#[trigger] r@[i])@ == spec_lines(s@)[i],
    decreases s@.len(),
{
    let n = s.unicode_len();
    let mut r: Vec<String> = Vec::new();
    if n == 0 {
        return r;
    }
    let j = find_newline(s);
    proof {
        lemma_find_char(s@, '\n');
    }
    if j == n {
        let line = strip_cr_sub(s, 0, n);
        proof {
            assert(s@.subrange(0, n as int) =~= s@);
        }
        r.push(line);
        r
    } else {
        let line = strip_cr_sub(s, 0, j);
        let rest = s.substring_char(j + 1, n);
        let mut tail = split_lines(rest);
        r.push(line);
        r.append(&mut tail);
        proof {
            let sl = spec_lines(s@);
            assert(sl == seq![strip_cr(s@.subrange(0, j as int))] + spec_lines(
                s@.subrange(j as int + 1, s@.len() as int),
            ));
            assert(forall|i: int| 0 <= i < r@.len() ==> (#[trigger] r@[i])@ == sl[i]);
        }
        r
    }
}

} // verus!
