//! The ordered host/share → mount point table, with first-match lookup.
use vstd::prelude::*;

use crate::errors::{ErrorView, UncPathError};
use crate::text::{
    chars_of, find_sep, lemma_run_end_bounds, lower_of, lowercase, message, run_end, substring,
};

verus! {

/// One configured entry: where the share `host`/`share` is mounted locally.
#[derive(Debug, Clone)]
pub struct MountMapping {
    pub host: String,
    pub share: String,
    pub mount_point: String,
}

/// A mapping entry as sequences of characters.
pub struct MountMappingView {
    pub host: Seq<char>,
    pub share: Seq<char>,
    pub mount_point: Seq<char>,
}

impl View for MountMapping {
    type V = MountMappingView;

    open spec fn view(&self) -> MountMappingView {
        MountMappingView { host: self.host@, share: self.share@, mount_point: self.mount_point@ }
    }
}

/// Insertion-ordered mapping entries; earlier entries shadow later ones.
#[derive(Debug, Clone)]
pub struct MappingTable {
    mappings: Vec<MountMapping>,
}

/// The entries of a slice of mappings, in order.
pub open spec fn entries_of(s: Seq<MountMapping>) -> Seq<MountMappingView> {
    s.map_values(|m: MountMapping| m@)
}

impl View for MappingTable {
    type V = Seq<MountMappingView>;

    closed spec fn view(&self) -> Seq<MountMappingView> {
        entries_of(self.mappings@)
    }
}

/// Pairs of lowercased keys as sequences of characters.
pub open spec fn keys_of(v: Seq<(String, String)>) -> Seq<(Seq<char>, Seq<char>)> {
    v.map_values(|p: (String, String)| (p.0@, p.1@))
}

/// The lowercased host and share of each entry.
pub open spec fn folded_keys(entries: Seq<MountMappingView>) -> Seq<(Seq<char>, Seq<char>)> {
    entries.map_values(|m: MountMappingView| (lower_of(m.host), lower_of(m.share)))
}

/// Index of the first key pair equal to `(host, share)`.
pub open spec fn first_index(keys: Seq<(Seq<char>, Seq<char>)>, host: Seq<char>, share: Seq<char>) -> Option<int>
    decreases keys.len(),
{
    if keys.len() == 0 {
        None
    } else {
        match first_index(keys.drop_last(), host, share) {
            Some(i) => Some(i),
            None => if keys.last() == (host, share) {
                Some(keys.len() - 1)
            } else {
                None
            },
        }
    }
}

/// The mount point of the first entry whose host and share equal the query's,
/// ignoring case.
pub open spec fn lookup(entries: Seq<MountMappingView>, host: Seq<char>, share: Seq<char>) -> Option<Seq<char>> {
    match first_index(folded_keys(entries), lower_of(host), lower_of(share)) {
        Some(i) => Some(entries[i].mount_point),
        None => None,
    }
}

/// The three fields of a `host:share:mount_point` text: present exactly when
/// the text has two colons, that is three colon-separated parts.
pub open spec fn cli_fields(s: Seq<char>) -> Option<(Seq<char>, Seq<char>, Seq<char>)> {
    let a = run_end(s, 0, ':');
    if a >= s.len() {
        None
    } else {
        let b = run_end(s, a + 1, ':');
        if b >= s.len() || run_end(s, b + 1, ':') < s.len() {
            None
        } else {
            Some((s.subrange(0, a), s.subrange(a + 1, b), s.subrange(b + 1, s.len() as int)))
        }
    }
}

/// Number of occurrences of `c` in `s` from index `i` on.
pub open spec fn count_from(s: Seq<char>, i: int, c: char) -> nat
    decreases s.len() - i,
{
    if i < 0 || i >= s.len() {
        0
    } else {
        (if s[i] == c {
            1nat
        } else {
            0nat
        }) + count_from(s, i + 1, c)
    }
}

/// Counting from `i` passes the run up to the next `c`, then counts that `c`.
proof fn lemma_count_from_run_end(s: Seq<char>, i: int, c: char)
    requires
        0 <= i <= s.len(),
    ensures
        count_from(s, i, c) == if run_end(s, i, c) < s.len() {
            1 + count_from(s, run_end(s, i, c) + 1, c)
        } else {
            0
        },
    decreases s.len() - i,
{
    if i < s.len() && s[i] != c {
        lemma_count_from_run_end(s, i + 1, c);
    }
}

/// A mapping text has three fields exactly when it has two colons, that is
/// three colon-separated parts; any other count of parts is refused.
pub proof fn lemma_cli_fields_three_parts(s: Seq<char>)
    ensures
        cli_fields(s) is Some <==> count_from(s, 0, ':') == 2,
{
    lemma_run_end_bounds(s, 0, ':');
    lemma_count_from_run_end(s, 0, ':');
    let a = run_end(s, 0, ':');
    if a < s.len() {
        lemma_run_end_bounds(s, a + 1, ':');
        lemma_count_from_run_end(s, a + 1, ':');
        let b = run_end(s, a + 1, ':');
        if b < s.len() {
            lemma_run_end_bounds(s, b + 1, ':');
            lemma_count_from_run_end(s, b + 1, ':');
        }
    }
}

/// The start of the message of a refused mapping text.
pub open spec fn cli_message() -> Seq<char> {
    "Expected format: host:share:mount_point, got: "@
}

/// A mapping entry built from its three fields.
pub open spec fn entry(host: Seq<char>, share: Seq<char>, mount_point: Seq<char>) -> MountMappingView {
    MountMappingView { host, share, mount_point }
}

/// The first index names a matching pair with no match before it; without
/// one, no pair matches.
pub proof fn lemma_first_index_bounds(keys: Seq<(Seq<char>, Seq<char>)>, host: Seq<char>, share: Seq<char>)
    ensures
        first_index(keys, host, share) matches Some(i) ==> 0 <= i < keys.len() && keys[i] == (host, share)
            && forall|j: int| 0 <= j < i ==> keys[j] != (host, share),
        first_index(keys, host, share) is None ==> forall|j: int| 0 <= j < keys.len() ==> keys[j] != (host, share),
    decreases keys.len(),
{
    if keys.len() > 0 {
        let d = keys.drop_last();
        lemma_first_index_bounds(d, host, share);
        assert(forall|j: int| 0 <= j < d.len() ==> d[j] == keys[j]);
        match first_index(d, host, share) {
            Some(i) => {},
            None => {},
        }
    }
}

/// A match within the first `n` keys is the first match of all of them.
pub proof fn lemma_first_index_prefix(keys: Seq<(Seq<char>, Seq<char>)>, n: int, host: Seq<char>, share: Seq<char>)
    requires
        0 <= n <= keys.len(),
        first_index(keys.subrange(0, n), host, share) is Some,
    ensures
        first_index(keys, host, share) == first_index(keys.subrange(0, n), host, share),
    decreases keys.len(),
{
    if n == keys.len() {
        assert(keys.subrange(0, n) =~= keys);
    } else {
        assert(keys.drop_last().subrange(0, n) =~= keys.subrange(0, n));
        lemma_first_index_prefix(keys.drop_last(), n, host, share);
    }
}

/// The first index of the key pair `(host, share)` among `keys`.
pub fn first_match(keys: &Vec<(String, String)>, host: &String, share: &String) -> (r: Option<usize>)
    ensures
        match r {
            Some(i) => first_index(keys_of(keys@), host@, share@) == Some(i as int),
            None => first_index(keys_of(keys@), host@, share@) is None,
        },
{
    let ghost k = keys_of(keys@);
    let mut i: usize = 0;
    while i < keys.len()
        invariant
            i <= keys@.len(),
            k == keys_of(keys@),
            first_index(k.subrange(0, i as int), host@, share@) is None,
        decreases keys@.len() - i,
    {
        assert(k.subrange(0, i + 1).drop_last() =~= k.subrange(0, i as int));
        if keys[i].0 == *host && keys[i].1 == *share {
            assert(first_index(k.subrange(0, i + 1), host@, share@) == Some(i as int));
            proof {
                lemma_first_index_prefix(k, i + 1, host@, share@);
            }
            return Some(i);
        }
        i = i + 1;
    }
    assert(k.subrange(0, i as int) =~= k);
    None
}

/// The first match among `k1` followed by `k2` is the first match in `k1`,
/// or else the first match in `k2`, shifted past `k1`.
pub proof fn lemma_first_index_append(
    k1: Seq<(Seq<char>, Seq<char>)>,
    k2: Seq<(Seq<char>, Seq<char>)>,
    host: Seq<char>,
    share: Seq<char>,
)
    ensures
        first_index(k1 + k2, host, share) == match first_index(k1, host, share) {
            Some(i) => Some(i),
            None => match first_index(k2, host, share) {
                Some(j) => Some(j + k1.len()),
                None => None,
            },
        },
    decreases k2.len(),
{
    if k2.len() == 0 {
        assert(k1 + k2 =~= k1);
    } else {
        assert((k1 + k2).drop_last() =~= k1 + k2.drop_last());
        lemma_first_index_append(k1, k2.drop_last(), host, share);
    }
}

/// Lookup ignores case: queries whose host and share lowercase alike find the
/// same mount point.
pub proof fn lemma_lookup_ignores_case(
    entries: Seq<MountMappingView>,
    h1: Seq<char>,
    s1: Seq<char>,
    h2: Seq<char>,
    s2: Seq<char>,
)
    requires
        lower_of(h1) == lower_of(h2),
        lower_of(s1) == lower_of(s2),
    ensures
        lookup(entries, h1, s1) == lookup(entries, h2, s2),
{
}

/// A query that no entry matches, ignoring case, finds nothing.
pub proof fn lemma_lookup_unmatched(entries: Seq<MountMappingView>, host: Seq<char>, share: Seq<char>)
    requires
        forall|i: int|
            0 <= i < entries.len() ==> !(lower_of(entries[i].host) == lower_of(host) && lower_of(
                entries[i].share,
            ) == lower_of(share)),
    ensures
        lookup(entries, host, share) is None,
{
    let k = folded_keys(entries);
    lemma_first_index_bounds(k, lower_of(host), lower_of(share));
    if let Some(i) = first_index(k, lower_of(host), lower_of(share)) {
        assert(k[i] == (lower_of(entries[i].host), lower_of(entries[i].share)));
    }
}

/// Entries loaded from a source `a` before those of a source `b` take
/// precedence: a key that `a` has resolves as in `a`, any other as in `b`.
pub proof fn lemma_first_source_wins(
    a: Seq<MountMappingView>,
    b: Seq<MountMappingView>,
    host: Seq<char>,
    share: Seq<char>,
)
    ensures
        lookup(a + b, host, share) == if lookup(a, host, share) is Some {
            lookup(a, host, share)
        } else {
            lookup(b, host, share)
        },
{
    let (h, s) = (lower_of(host), lower_of(share));
    assert(folded_keys(a + b) =~= folded_keys(a) + folded_keys(b));
    lemma_first_index_append(folded_keys(a), folded_keys(b), h, s);
    lemma_first_index_bounds(folded_keys(a), h, s);
    lemma_first_index_bounds(folded_keys(b), h, s);
    if let Some(i) = first_index(folded_keys(a), h, s) {
        assert((a + b)[i] == a[i]);
    } else if let Some(j) = first_index(folded_keys(b), h, s) {
        assert((a + b)[j + a.len()] == b[j]);
    }
}

impl MappingTable {
    /// An empty table.
    pub fn new() -> (r: Self)
        ensures
            r@ == Seq::<MountMappingView>::empty(),
    {
        let r = MappingTable { mappings: Vec::new() };
        assert(r@ =~= Seq::<MountMappingView>::empty());
        r
    }

    /// A table seeded with the example entries `server`/`shared` → `/mnt/shared`
    /// and `nas`/`data` → `/mnt/nas`, in that order.
    pub fn with_defaults() -> (r: Self)
        ensures
            r@ == seq![
                entry("server"@, "shared"@, "/mnt/shared"@),
                entry("nas"@, "data"@, "/mnt/nas"@),
            ],
    {
        let mut table = Self::new();
        table.add_mapping("server", "shared", "/mnt/shared");
        table.add_mapping("nas", "data", "/mnt/nas");
        assert(table@ =~= seq![
            entry("server"@, "shared"@, "/mnt/shared"@),
            entry("nas"@, "data"@, "/mnt/nas"@),
        ]);
        table
    }

    /// Appends one entry after all present ones.
    pub fn add_mapping(&mut self, host: &str, share: &str, mount_point: &str)
        ensures
            final(self)@ == old(self)@.push(entry(host@, share@, mount_point@)),
    {
        let m = MountMapping {
            host: host.to_owned(),
            share: share.to_owned(),
            mount_point: mount_point.to_owned(),
        };
        self.mappings.push(m);
        assert(self@ =~= old(self)@.push(entry(host@, share@, mount_point@)));
    }

    /// Appends the given entries, in their order, after all present ones.
    pub fn extend_mappings(&mut self, mappings: Vec<MountMapping>)
        ensures
            final(self)@ == old(self)@ + entries_of(mappings@),
    {
        let mut i: usize = 0;
        while i < mappings.len()
            invariant
                i <= mappings@.len(),
                self@ == old(self)@ + entries_of(mappings@.subrange(0, i as int)),
            decreases mappings@.len() - i,
        {
            let m = &mappings[i];
            let ghost before = self.mappings@;
            self.mappings.push(
                MountMapping {
                    host: m.host.clone(),
                    share: m.share.clone(),
                    mount_point: m.mount_point.clone(),
                },
            );
            assert(self@ =~= entries_of(before).push(mappings@[i as int]@));
            assert(entries_of(mappings@.subrange(0, i + 1)) =~= entries_of(
                mappings@.subrange(0, i as int),
            ).push(mappings@[i as int]@));
            i = i + 1;
        }
        assert(mappings@.subrange(0, i as int) =~= mappings@);
    }

    /// Parses `host:share:mount_point` and appends that entry. A text with any
    /// other number of colon-separated parts is refused and the table is left
    /// as it was.
    pub fn add_from_cli(&mut self, mapping_str: &str) -> (r: Result<(), UncPathError>)
        ensures
            r is Ok <==> cli_fields(mapping_str@) is Some,
            r matches Err(e) ==> e@ == ErrorView::InvalidMapping(cli_message() + mapping_str@)
                && final(self)@ == old(self)@,
            cli_fields(mapping_str@) matches Some((h, s, m)) ==> final(self)@ == old(self)@.push(
                entry(h, s, m),
            ),
    {
        let v = chars_of(mapping_str);
        let a = find_sep(&v, 0, ':');
        let mut b: usize = v.len();
        if a < v.len() {
            proof {
                lemma_run_end_bounds(v@, 0, ':');
            }
            b = find_sep(&v, a + 1, ':');
        }
        if a >= v.len() || b >= v.len() || find_sep(&v, b + 1, ':') < v.len() {
            return Err(
                UncPathError::InvalidMapping(
                    message("Expected format: host:share:mount_point, got: ", &v),
                ),
            );
        }
        proof {
            lemma_run_end_bounds(v@, 0, ':');
            lemma_run_end_bounds(v@, a + 1, ':');
        }
        let host = substring(&v, 0, a);
        let share = substring(&v, a + 1, b);
        let mount_point = substring(&v, b + 1, v.len());
        self.add_mapping(host.as_str(), share.as_str(), mount_point.as_str());
        Ok(())
    }

    /// The mount point of the first entry whose host and share equal `host`
    /// and `share` ignoring case, if any.
    pub fn find_mount_point(&self, host: &str, share: &str) -> (r: Option<&str>)
        ensures
            match r {
                Some(m) => lookup(self@, host@, share@) == Some(m@),
                None => lookup(self@, host@, share@) is None,
            },
    {
        let host_lower = lowercase(host);
        let share_lower = lowercase(share);
        let mut keys: Vec<(String, String)> = Vec::new();
        let mut i: usize = 0;
        while i < self.mappings.len()
            invariant
                i <= self.mappings@.len(),
                keys@.len() == i,
                keys_of(keys@) == folded_keys(self@).subrange(0, i as int),
            decreases self.mappings@.len() - i,
        {
            let m = &self.mappings[i];
            keys.push((lowercase(m.host.as_str()), lowercase(m.share.as_str())));
            assert(self@[i as int] == self.mappings@[i as int]@);
            assert(keys_of(keys@)[i as int] == folded_keys(self@)[i as int]);
            assert(keys_of(keys@) =~= folded_keys(self@).subrange(0, i + 1));
            i = i + 1;
        }
        assert(folded_keys(self@).subrange(0, i as int) =~= folded_keys(self@));
        match first_match(&keys, &host_lower, &share_lower) {
            Some(j) => {
                proof {
                    lemma_first_index_bounds(folded_keys(self@), lower_of(host@), lower_of(share@));
                }
                Some(self.mappings[j].mount_point.as_str())
            },
            None => None,
        }
    }

    /// All entries, in insertion order.
    pub fn get_mappings(&self) -> (r: &[MountMapping])
        ensures
            entries_of(r@) == self@,
    {
        self.mappings.as_slice()
    }
}

impl Default for MappingTable {
    fn default() -> (r: Self)
        ensures
            r@ == Seq::<MountMappingView>::empty(),
    {
        Self::new()
    }
}

} // verus!
