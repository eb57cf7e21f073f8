//! Character-level helpers shared by the parser and the mapping table.
use vstd::prelude::*;

verus! {

/// What `str::to_lowercase` makes of a sequence of characters.
pub uninterp spec fn lower_of(s: Seq<char>) -> Seq<char>;

/// What `str::trim` leaves of a sequence of characters.
pub uninterp spec fn trim_of(s: Seq<char>) -> Seq<char>;

/// Relies on `str::to_lowercase`: the lowercase mapping of the characters,
/// which depends on the characters alone.
#[verifier::external_body]
pub(crate) fn lowercase(s: &str) -> (r: String)
    ensures
        r@ == lower_of(s@),
{
    s.to_lowercase()
}

/// Relies on `str::trim`: the slice without its leading and trailing
/// whitespace, which depends on the characters alone.
#[verifier::external_body]
pub(crate) fn trimmed(s: &str) -> (r: &str)
    ensures
        r@ == trim_of(s@),
{
    s.trim()
}

/// Relies on `str::chars`, collected into a `Vec`: the characters in order.
#[verifier::external_body]
pub(crate) fn chars_of(s: &str) -> (r: Vec<char>)
    ensures
        r@ == s@,
{
    s.chars().collect()
}

/// Relies on `String`'s `FromIterator<&char>`: the characters in order.
#[verifier::external_body]
pub(crate) fn string_of(v: &Vec<char>) -> (r: String)
    ensures
        r@ == v@,
{
    v.iter().collect()
}

/// Index of the first `sep` at or after `i`, or the length when there is none.
pub open spec fn run_end(s: Seq<char>, i: int, sep: char) -> int
    decreases s.len() - i,
{
    if i < 0 || i >= s.len() {
        s.len() as int
    } else if s[i] == sep {
        i
    } else {
        run_end(s, i + 1, sep)
    }
}

/// `s` begins with `p`.
pub open spec fn starts_with(s: Seq<char>, p: Seq<char>) -> bool {
    p.len() <= s.len() && s.subrange(0, p.len() as int) == p
}

/// Every backslash replaced by a forward slash.
pub open spec fn slashes(s: Seq<char>) -> Seq<char> {
    s.map_values(|c: char| if c == '\\' { '/' } else { c })
}

/// The scan stops within the text, on a separator if before the end, and
/// passes no separator on the way.
pub proof fn lemma_run_end_bounds(s: Seq<char>, i: int, sep: char)
    requires
        0 <= i <= s.len(),
    ensures
        i <= run_end(s, i, sep) <= s.len(),
        run_end(s, i, sep) < s.len() ==> s[run_end(s, i, sep)] == sep,
        forall|k: int| i <= k < run_end(s, i, sep) ==> s[k] != sep,
    decreases s.len() - i,
{
    if i < s.len() && s[i] != sep {
        lemma_run_end_bounds(s, i + 1, sep);
    }
}

/// The scan ends at the first separator of any text that holds none before it.
pub proof fn lemma_run_end_at(s: Seq<char>, i: int, j: int, sep: char)
    requires
        0 <= i <= j <= s.len(),
        forall|k: int| i <= k < j ==> s[k] != sep,
        j == s.len() || s[j] == sep,
    ensures
        run_end(s, i, sep) == j,
    decreases j - i,
{
    if i < j {
        lemma_run_end_at(s, i + 1, j, sep);
    }
}

/// `starts_with` holds exactly when the characters agree position by position.
pub proof fn lemma_starts_with(s: Seq<char>, p: Seq<char>)
    ensures
        starts_with(s, p) <==> (p.len() <= s.len() && forall|k: int|
            0 <= k < p.len() ==> s[k] == p[k]),
{
    if p.len() <= s.len() {
        if forall|k: int| 0 <= k < p.len() ==> s[k] == p[k] {
            assert(s.subrange(0, p.len() as int) =~= p);
        }
        if starts_with(s, p) {
            assert forall|k: int| 0 <= k < p.len() implies s[k] == p[k] by {
                assert(s.subrange(0, p.len() as int)[k] == s[k]);
            }
        }
    }
}

/// Position of the first `sep` at or after `start`, or the length.
pub(crate) fn find_sep(v: &Vec<char>, start: usize, sep: char) -> (r: usize)
    requires
        start <= v@.len(),
    ensures
        r == run_end(v@, start as int, sep),
{
    let mut i: usize = start;
    while i < v.len() && v[i] != sep
        invariant
            start <= i <= v@.len(),
            run_end(v@, start as int, sep) == run_end(v@, i as int, sep),
        decreases v@.len() - i,
    {
        i = i + 1;
    }
    i
}

/// The characters from `lo` up to `hi`, as a string.
pub(crate) fn substring(v: &Vec<char>, lo: usize, hi: usize) -> (r: String)
    requires
        lo <= hi <= v@.len(),
    ensures
        r@ == v@.subrange(lo as int, hi as int),
{
    let mut out: Vec<char> = Vec::new();
    let mut i: usize = lo;
    while i < hi
        invariant
            lo <= i <= hi <= v@.len(),
            out@ == v@.subrange(lo as int, i as int),
        decreases hi - i,
    {
        out.push(v[i]);
        assert(out@ =~= v@.subrange(lo as int, i + 1));
        i = i + 1;
    }
    string_of(&out)
}

/// The characters from `lo` to the end, with backslashes turned into slashes.
pub(crate) fn slashed_suffix(v: &Vec<char>, lo: usize) -> (r: String)
    requires
        lo <= v@.len(),
    ensures
        r@ == slashes(v@.subrange(lo as int, v@.len() as int)),
{
    let mut out: Vec<char> = Vec::new();
    let mut i: usize = lo;
    while i < v.len()
        invariant
            lo <= i <= v@.len(),
            out@ == slashes(v@.subrange(lo as int, i as int)),
        decreases v@.len() - i,
    {
        let c = if v[i] == '\\' {
            '/'
        } else {
            v[i]
        };
        out.push(c);
        assert(out@ =~= slashes(v@.subrange(lo as int, i + 1)));
        i = i + 1;
    }
    string_of(&out)
}

/// `prefix` followed by the characters of `subject`.
pub(crate) fn message(prefix: &str, subject: &Vec<char>) -> (r: String)
    ensures
        r@ == prefix@ + subject@,
{
    let mut out = chars_of(prefix);
    let ghost start = out@;
    let mut i: usize = 0;
    while i < subject.len()
        invariant
            i <= subject@.len(),
            start == prefix@,
            out@ == start + subject@.subrange(0, i as int),
        decreases subject@.len() - i,
    {
        out.push(subject[i]);
        assert(out@ =~= start + subject@.subrange(0, i + 1));
        i = i + 1;
    }
    assert(subject@.subrange(0, subject@.len() as int) =~= subject@);
    string_of(&out)
}

} // verus!
