//! Text handling: substring search, decoding of raw cells, case folding and
//! compiled regular expressions.

use vstd::prelude::*;

verus! {

/// `d` occurs in `t` starting at position `i`.
pub open spec fn occurs_at(t: Seq<char>, d: Seq<char>, i: int) -> bool {
    &&& 0 <= i
    &&& i + d.len() <= t.len()
    &&& t.subrange(i, i + d.len()) == d
}

/// `i` is the first position at which `d` occurs in `t`.
pub open spec fn first_at(t: Seq<char>, d: Seq<char>, i: int) -> bool {
    occurs_at(t, d, i) && forall|j: int| 0 <= j < i ==> !occurs_at(t, d, j)
}

/// The first position at which `d` occurs in `t`, if any.
pub open spec fn first_occurrence(t: Seq<char>, d: Seq<char>) -> Option<int> {
    if exists|i: int| first_at(t, d, i) {
        Some(choose|i: int| first_at(t, d, i))
    } else {
        None
    }
}

pub proof fn lemma_first_at_unique(t: Seq<char>, d: Seq<char>, i: int, k: int)
    requires
        first_at(t, d, i),
        first_at(t, d, k),
    ensures
        i == k,
{
}

/// Finds the first occurrence of `d` in `t`.
pub fn find_first(t: &str, d: &str) -> (r: Option<usize>)
    ensures
        match r {
            Some(i) => first_occurrence(t@, d@) == Some(i as int),
            None => first_occurrence(t@, d@) is None,
        },
{
    let n = t.unicode_len();
    let m = d.unicode_len();
    if m > n {
        assert forall|j: int| !occurs_at(t@, d@, j) by {}
        assert(!exists|i: int| first_at(t@, d@, i));
        return None;
    }
    let mut i: usize = 0;
    while i <= n - m
        invariant
            n == t@.len(),
            m == d@.len(),
            m <= n,
            i <= n - m + 1,
            forall|j: int| 0 <= j < i ==> !occurs_at(t@, d@, j),
        decreases n - i,
    {
        let mut k: usize = 0;
        let mut same = true;
        while k < m
            invariant
                n == t@.len(),
                m == d@.len(),
                i + m <= n,
                k <= m,
                same == (forall|x: int| 0 <= x < k ==> t@[i + x] == d@[x]),
            decreases m - k,
        {
            if t.get_char(i + k) != d.get_char(k) {
                same = false;
            }
            k = k + 1;
        }
        if same {
            assert(t@.subrange(i as int, i + m) =~= d@);
            assert(first_at(t@, d@, i as int));
            proof {
                let c = choose|x: int| first_at(t@, d@, x);
                lemma_first_at_unique(t@, d@, i as int, c);
            }
            return Some(i);
        }
        assert(!occurs_at(t@, d@, i as int)) by {
            if occurs_at(t@, d@, i as int) {
                let x = choose|x: int| 0 <= x < m && t@[i + x] != d@[x];
                assert(t@.subrange(i as int, i + m)[x] == t@[i + x]);
            }
        }
        i = i + 1;
    }
    assert forall|j: int| !occurs_at(t@, d@, j) by {
        if 0 <= j < i {
        }
    }
    None
}

/// The two texts are equal.
pub fn text_equals(a: &str, b: &str) -> (r: bool)
    ensures
        r == (a@ == b@),
{
    let n = a.unicode_len();
    if n != b.unicode_len() {
        return false;
    }
    let mut i: usize = 0;
    while i < n
        invariant
            n == a@.len(),
            n == b@.len(),
            i <= n,
            forall|j: int| 0 <= j < i ==> a@[j] == b@[j],
        decreases n - i,
    {
        if a.get_char(i) != b.get_char(i) {
            return false;
        }
        i = i + 1;
    }
    assert(a@ =~= b@);
    true
}

/// What the lossy UTF-8 decoding of `b` yields: each invalid sequence becomes
/// a replacement character.
pub uninterp spec fn utf8_lossy(b: Seq<u8>) -> Seq<char>;

/// Relies on encoding_rs's `UTF_8.decode_without_bom_handling`: the text
/// depends on the bytes alone, and a byte order mark is kept.
#[verifier::external_body]
pub(crate) fn decode_cell(b: &[u8]) -> (r: String)
    ensures
        r@ == utf8_lossy(b@),
{
    encoding_rs::UTF_8.decode_without_bom_handling(b).0.into_owned()
}

/// The lower-case form of `s`.
pub uninterp spec fn lower_of(s: Seq<char>) -> Seq<char>;

/// Relies on `str::to_lowercase`: the result depends on the characters alone.
#[verifier::external_body]
pub(crate) fn lowercase(s: &str) -> (r: String)
    ensures
        r@ == lower_of(s@),
{
    s.to_lowercase()
}

#[verifier::external_type_specification]
#[verifier::external_body]
pub struct ExRegex(regex::Regex);

/// `pattern` is a regular expression that the regex engine accepts.
pub uninterp spec fn regex_compiles(pattern: Seq<char>) -> bool;

/// The regular expression `pattern` matches somewhere in `text`.
pub uninterp spec fn regex_matches(pattern: Seq<char>, text: Seq<char>) -> bool;

/// Relies on `regex::Regex::new`: whether a pattern compiles depends on the
/// pattern alone.
#[verifier::external_body]
fn compile_regex(pattern: &str) -> (r: Option<regex::Regex>)
    ensures
        r is Some == regex_compiles(pattern@),
{
    regex::Regex::new(pattern).ok()
}

/// A regular expression compiled once, together with its source text.
pub struct Pattern {
    source: String,
    compiled: regex::Regex,
}

impl View for Pattern {
    type V = Seq<char>;

    closed spec fn view(&self) -> Seq<char> {
        self.source@
    }
}

/// Relies on `regex::Regex::is_match`, on the regex that `Pattern::new`
/// compiled from the pattern's source (the only place that builds one).
#[verifier::external_body]
fn regex_is_match(p: &Pattern, text: &str) -> (r: bool)
    ensures
        r == regex_matches(p@, text@),
{
    p.compiled.is_match(text)
}

impl Pattern {
    /// Compiles `source`; `None` when it is not a valid regular expression.
    pub fn new(source: String) -> (r: Option<Pattern>)
        ensures
            r is Some == regex_compiles(source@),
            r matches Some(p) ==> p@ == source@,
    {
        match compile_regex(source.as_str()) {
            Some(compiled) => Some(Pattern { source, compiled }),
            None => None,
        }
    }

    pub fn source(&self) -> (r: &String)
        ensures
            r@ == self@,
    {
        &self.source
    }

    /// The pattern matches somewhere in `text`.
    pub fn is_match(&self, text: &str) -> (r: bool)
        ensures
            r == regex_matches(self@, text@),
    {
        regex_is_match(self, text)
    }
}

} // verus!
