//! Parsing of share references and their conversion to local paths.
use vstd::prelude::*;

use crate::errors::{ErrorView, UncPathError};
use crate::mapping::{lemma_lookup_unmatched, lookup, MappingTable, MountMappingView};
use crate::text::{
    chars_of, find_sep, lemma_run_end_at, lemma_run_end_bounds, lemma_starts_with, lower_of,
    message, run_end, slashed_suffix, slashes, starts_with, string_of, substring, trim_of, trimmed,
};

verus! {

/// A share reference split into host, share and the path below the share.
#[derive(Debug, PartialEq)]
pub struct UncPath {
    pub host: String,
    pub share: String,
    pub path: String,
}

impl View for UncPath {
    type V = (Seq<char>, Seq<char>, Seq<char>);

    open spec fn view(&self) -> (Seq<char>, Seq<char>, Seq<char>) {
        (self.host@, self.share@, self.path@)
    }
}

impl UncPath {
    /// A reference made of the given parts.
    pub fn new(host: String, share: String, path: String) -> (r: Self)
        ensures
            r.host == host,
            r.share == share,
            r.path == path,
    {
        UncPath { host, share, path }
    }
}

/// The prefixes of the three notations.
pub open spec fn unc_prefix() -> Seq<char> {
    seq!['\\', '\\']
}

pub open spec fn smb_prefix() -> Seq<char> {
    seq!['s', 'm', 'b', ':', '/', '/']
}

pub open spec fn unix_prefix() -> Seq<char> {
    seq!['/', '/']
}

/// Host, share and remainder of `s` after its first `start` characters: the
/// host runs up to the first `sep`, the share from there up to the next `sep`
/// or the end, and both must be non-empty.
pub open spec fn fields_after(s: Seq<char>, start: int, sep: char) -> Option<
    (Seq<char>, Seq<char>, Seq<char>),
> {
    let h = run_end(s, start, sep);
    if h == start || h >= s.len() {
        None
    } else {
        let e = run_end(s, h + 1, sep);
        if e == h + 1 {
            None
        } else {
            Some((s.subrange(start, h), s.subrange(h + 1, e), s.subrange(e, s.len() as int)))
        }
    }
}

/// The starts of the messages of `InvalidFormat`, one per notation and one
/// for a reference in none of them.
pub open spec fn windows_message() -> Seq<char> {
    "Invalid Windows UNC format: "@
}

pub open spec fn smb_message() -> Seq<char> {
    "Invalid SMB URL format: "@
}

pub open spec fn unix_message() -> Seq<char> {
    "Invalid Unix-style UNC format: "@
}

pub open spec fn unknown_message() -> Seq<char> {
    "Path does not match any supported UNC format: "@
}

/// The outcome of parsing an already trimmed reference. The notation is chosen
/// by prefix, Windows first, then SMB URL, then Unix style.
pub open spec fn parse_spec(s: Seq<char>) -> Result<(Seq<char>, Seq<char>, Seq<char>), ErrorView> {
    if starts_with(s, unc_prefix()) {
        match fields_after(s, 2, '\\') {
            Some((h, sh, rest)) => Ok((h, sh, slashes(rest))),
            None => Err(ErrorView::InvalidFormat(windows_message() + s)),
        }
    } else if starts_with(s, smb_prefix()) {
        match fields_after(s, 6, '/') {
            Some(t) => Ok(t),
            None => Err(ErrorView::InvalidFormat(smb_message() + s)),
        }
    } else if starts_with(s, unix_prefix()) {
        match fields_after(s, 2, '/') {
            Some(t) => Ok(t),
            None => Err(ErrorView::InvalidFormat(unix_message() + s)),
        }
    } else {
        Err(ErrorView::InvalidFormat(unknown_message() + s))
    }
}

/// A parse outcome as sequences of characters.
pub open spec fn parsed_view(r: Result<UncPath, UncPathError>) -> Result<
    (Seq<char>, Seq<char>, Seq<char>),
    ErrorView,
> {
    match r {
        Ok(u) => Ok(u@),
        Err(e) => Err(e@),
    }
}

/// The mount point without one trailing slash, if it has one.
pub open spec fn strip_slash(m: Seq<char>) -> Seq<char> {
    if m.len() > 0 && m.last() == '/' {
        m.drop_last()
    } else {
        m
    }
}

/// The local path for `path` below the mount point `m`.
pub open spec fn join_spec(m: Seq<char>, path: Seq<char>) -> Seq<char> {
    if path.len() == 0 || path == seq!['/'] {
        m
    } else {
        strip_slash(m) + path
    }
}

/// The outcome of converting an already trimmed reference against `entries`.
pub open spec fn convert_spec(s: Seq<char>, entries: Seq<MountMappingView>) -> Result<
    Seq<char>,
    ErrorView,
> {
    match parse_spec(s) {
        Err(e) => Err(e),
        Ok((h, sh, p)) => match lookup(entries, h, sh) {
            Some(m) => Ok(join_spec(m, p)),
            None => Err(ErrorView::MappingNotFound(h, sh)),
        },
    }
}

/// A conversion outcome as sequences of characters.
pub open spec fn converted_view(r: Result<String, UncPathError>) -> Result<Seq<char>, ErrorView> {
    match r {
        Ok(o) => Ok(o@),
        Err(e) => Err(e@),
    }
}

/// Every slash replaced by a backslash.
pub open spec fn backslashes(s: Seq<char>) -> Seq<char> {
    s.map_values(|c: char| if c == '/' { '\\' } else { c })
}

/// The Windows form `\\host\share\rest`.
pub open spec fn windows_text(host: Seq<char>, share: Seq<char>, rest: Seq<char>) -> Seq<char> {
    unc_prefix() + host + seq!['\\'] + share + rest
}

/// The SMB URL form `smb://host/share/rest`.
pub open spec fn smb_text(host: Seq<char>, share: Seq<char>, rest: Seq<char>) -> Seq<char> {
    smb_prefix() + host + seq!['/'] + share + rest
}

/// The Unix form `//host/share/rest`.
pub open spec fn unix_text(host: Seq<char>, share: Seq<char>, rest: Seq<char>) -> Seq<char> {
    unix_prefix() + host + seq!['/'] + share + rest
}

/// A host or share name: non-empty, with no slash or backslash.
pub open spec fn is_name(s: Seq<char>) -> bool {
    s.len() > 0 && forall|i: int| 0 <= i < s.len() ==> s[i] != '/' && s[i] != '\\'
}

/// A path below a share: empty, or beginning with `sep`.
pub open spec fn is_rest(s: Seq<char>, sep: char) -> bool {
    s.len() == 0 || s[0] == sep
}

/// Host, share and remainder are found back in a text assembled from them.
proof fn lemma_fields(p: Seq<char>, host: Seq<char>, share: Seq<char>, rest: Seq<char>, sep: char)
    requires
        host.len() > 0,
        share.len() > 0,
        forall|i: int| 0 <= i < host.len() ==> host[i] != sep,
        forall|i: int| 0 <= i < share.len() ==> share[i] != sep,
        is_rest(rest, sep),
    ensures
        fields_after(p + host + seq![sep] + share + rest, p.len() as int, sep) == Some(
            (host, share, rest),
        ),
{
    let s = p + host + seq![sep] + share + rest;
    let h: int = p.len() + host.len() as int;
    let e: int = h + 1 + share.len();
    assert forall|k: int| p.len() <= k < h implies s[k] != sep by {
        assert(s[k] == host[k - p.len()]);
    }
    assert(s[h] == sep);
    lemma_run_end_at(s, p.len() as int, h, sep);
    assert forall|k: int| h + 1 <= k < e implies s[k] != sep by {
        assert(s[k] == share[k - h - 1]);
    }
    if rest.len() > 0 {
        assert(s[e] == rest[0]);
    }
    lemma_run_end_at(s, h + 1, e, sep);
    assert(s.subrange(p.len() as int, h) =~= host);
    assert(s.subrange(h + 1, e) =~= share);
    assert(s.subrange(e, s.len() as int) =~= rest);
}

/// Parsing a well-formed reference in any notation gives back the host and
/// share exactly as written, case included, and the path below the share.
pub proof fn lemma_parse_well_formed(host: Seq<char>, share: Seq<char>, rest: Seq<char>)
    requires
        host.len() > 0,
        share.len() > 0,
    ensures
        (forall|i: int| 0 <= i < host.len() ==> host[i] != '\\') && (forall|i: int|
            0 <= i < share.len() ==> share[i] != '\\') && is_rest(rest, '\\') ==> parse_spec(
            windows_text(host, share, rest),
        ) == Ok::<_, ErrorView>((host, share, slashes(rest))),
        (forall|i: int| 0 <= i < host.len() ==> host[i] != '/') && (forall|i: int|
            0 <= i < share.len() ==> share[i] != '/') && is_rest(rest, '/') ==> parse_spec(
            smb_text(host, share, rest),
        ) == Ok::<_, ErrorView>((host, share, rest)) && parse_spec(unix_text(host, share, rest))
            == Ok::<_, ErrorView>((host, share, rest)),
{
    let w = windows_text(host, share, rest);
    let m = smb_text(host, share, rest);
    let u = unix_text(host, share, rest);
    lemma_starts_with(w, unc_prefix());
    lemma_starts_with(m, unc_prefix());
    lemma_starts_with(m, smb_prefix());
    lemma_starts_with(u, unc_prefix());
    lemma_starts_with(u, smb_prefix());
    lemma_starts_with(u, unix_prefix());
    assert(w[0] == '\\' && w[1] == '\\');
    assert(m[0] == 's' && m[1] == 'm' && m[2] == 'b' && m[3] == ':' && m[4] == '/' && m[5] == '/');
    assert(u[0] == '/' && u[1] == '/');
    if (forall|i: int| 0 <= i < host.len() ==> host[i] != '\\') && (forall|i: int|
        0 <= i < share.len() ==> share[i] != '\\') && is_rest(rest, '\\') {
        lemma_fields(unc_prefix(), host, share, rest, '\\');
    }
    if (forall|i: int| 0 <= i < host.len() ==> host[i] != '/') && (forall|i: int|
        0 <= i < share.len() ==> share[i] != '/') && is_rest(rest, '/') {
        lemma_fields(smb_prefix(), host, share, rest, '/');
        lemma_fields(unix_prefix(), host, share, rest, '/');
    }
}

/// Parsing is a function of the input: equal inputs give equal outcomes.
pub proof fn lemma_parse_deterministic(a: Seq<char>, b: Seq<char>)
    requires
        a == b,
    ensures
        parse_spec(trim_of(a)) == parse_spec(trim_of(b)),
{
}

/// The three notations of one reference convert alike: with `host`/`share`
/// mounted at `m`, each gives `m`, less one trailing slash, followed by the
/// path below the share.
pub proof fn lemma_round_trip(
    host: Seq<char>,
    share: Seq<char>,
    rest: Seq<char>,
    entries: Seq<MountMappingView>,
)
    requires
        is_name(host),
        is_name(share),
        is_rest(rest, '/'),
        forall|i: int| 0 <= i < rest.len() ==> rest[i] != '\\',
    ensures
        convert_spec(windows_text(host, share, backslashes(rest)), entries) == convert_spec(
            smb_text(host, share, rest),
            entries,
        ),
        convert_spec(unix_text(host, share, rest), entries) == convert_spec(
            smb_text(host, share, rest),
            entries,
        ),
        lookup(entries, host, share) matches Some(m) ==> convert_spec(
            smb_text(host, share, rest),
            entries,
        ) == Ok::<_, ErrorView>(join_spec(m, rest)),
{
    let b = backslashes(rest);
    assert(slashes(b) =~= rest);
    if rest.len() > 0 {
        assert(b[0] == '\\');
    }
    lemma_parse_well_formed(host, share, b);
    lemma_parse_well_formed(host, share, rest);
}

/// A reference to a share itself converts to the mount point unchanged.
pub proof fn lemma_root_only(host: Seq<char>, share: Seq<char>, entries: Seq<MountMappingView>)
    requires
        is_name(host),
        is_name(share),
        lookup(entries, host, share) is Some,
    ensures
        convert_spec(windows_text(host, share, seq![]), entries) == Ok::<_, ErrorView>(
            lookup(entries, host, share)->0,
        ),
        convert_spec(unix_text(host, share, seq![]), entries) == Ok::<_, ErrorView>(
            lookup(entries, host, share)->0,
        ),
{
    assert(backslashes(seq![]) =~= Seq::<char>::empty());
    lemma_round_trip(host, share, seq![], entries);
}

/// A well-formed reference whose host and share no entry has, ignoring case,
/// fails with `MappingNotFound` naming them.
pub proof fn lemma_unmatched_fails(s: Seq<char>, entries: Seq<MountMappingView>)
    requires
        parse_spec(s) is Ok,
        forall|i: int|
            0 <= i < entries.len() ==> !(lower_of(entries[i].host) == lower_of(
                parse_spec(s)->Ok_0.0,
            ) && lower_of(entries[i].share) == lower_of(parse_spec(s)->Ok_0.1)),
    ensures
        convert_spec(s, entries) == Err::<Seq<char>, _>(
            ErrorView::MappingNotFound(parse_spec(s)->Ok_0.0, parse_spec(s)->Ok_0.1),
        ),
{
    lemma_lookup_unmatched(entries, parse_spec(s)->Ok_0.0, parse_spec(s)->Ok_0.1);
}

/// Positions that end the host and the share after `start`, when both are
/// non-empty.
fn split_fields(v: &Vec<char>, start: usize, sep: char) -> (r: Option<(usize, usize)>)
    requires
        start <= v@.len(),
    ensures
        r is None <==> fields_after(v@, start as int, sep) is None,
        r matches Some((h, e)) ==> start < h < e <= v@.len() && fields_after(v@, start as int, sep)
            == Some(
            (
                v@.subrange(start as int, h as int),
                v@.subrange(h + 1, e as int),
                v@.subrange(e as int, v@.len() as int),
            ),
        ),
{
    proof {
        lemma_run_end_bounds(v@, start as int, sep);
    }
    let h = find_sep(v, start, sep);
    if h == start || h >= v.len() {
        return None;
    }
    proof {
        lemma_run_end_bounds(v@, h + 1, sep);
    }
    let e = find_sep(v, h + 1, sep);
    if e == h + 1 {
        return None;
    }
    Some((h, e))
}

/// Parses `\\host\share\rest`; backslashes in the rest become slashes.
fn parse_windows_unc(v: &Vec<char>) -> (r: Result<UncPath, UncPathError>)
    requires
        starts_with(v@, unc_prefix()),
    ensures
        parsed_view(r) == parse_spec(v@),
{
    match split_fields(v, 2, '\\') {
        Some((h, e)) => Ok(UncPath::new(substring(v, 2, h), substring(v, h + 1, e), slashed_suffix(v, e))),
        None => Err(UncPathError::InvalidFormat(message("Invalid Windows UNC format: ", v))),
    }
}

/// Parses `smb://host/share/rest`.
fn parse_smb_url(v: &Vec<char>) -> (r: Result<UncPath, UncPathError>)
    requires
        !starts_with(v@, unc_prefix()),
        starts_with(v@, smb_prefix()),
    ensures
        parsed_view(r) == parse_spec(v@),
{
    match split_fields(v, 6, '/') {
        Some((h, e)) => Ok(UncPath::new(substring(v, 6, h), substring(v, h + 1, e), substring(v, e, v.len()))),
        None => Err(UncPathError::InvalidFormat(message("Invalid SMB URL format: ", v))),
    }
}

/// Parses `//host/share/rest`.
fn parse_unix_style(v: &Vec<char>) -> (r: Result<UncPath, UncPathError>)
    requires
        !starts_with(v@, unc_prefix()),
        !starts_with(v@, smb_prefix()),
        starts_with(v@, unix_prefix()),
    ensures
        parsed_view(r) == parse_spec(v@),
{
    match split_fields(v, 2, '/') {
        Some((h, e)) => Ok(UncPath::new(substring(v, 2, h), substring(v, h + 1, e), substring(v, e, v.len()))),
        None => Err(UncPathError::InvalidFormat(message("Invalid Unix-style UNC format: ", v))),
    }
}

/// Parses a reference that has no surrounding whitespace.
pub fn parse_trimmed(input: &str) -> (r: Result<UncPath, UncPathError>)
    ensures
        parsed_view(r) == parse_spec(input@),
{
    let v = chars_of(input);
    proof {
        lemma_starts_with(v@, unc_prefix());
        lemma_starts_with(v@, smb_prefix());
        lemma_starts_with(v@, unix_prefix());
    }
    if v.len() >= 2 && v[0] == '\\' && v[1] == '\\' {
        return parse_windows_unc(&v);
    }
    if v.len() >= 6 && v[0] == 's' && v[1] == 'm' && v[2] == 'b' && v[3] == ':' && v[4] == '/'
        && v[5] == '/' {
        return parse_smb_url(&v);
    }
    if v.len() >= 2 && v[0] == '/' && v[1] == '/' {
        return parse_unix_style(&v);
    }
    Err(UncPathError::InvalidFormat(message("Path does not match any supported UNC format: ", &v)))
}

/// Parses a share reference in any of the three notations, after trimming
/// surrounding whitespace.
pub fn parse_unc_path(input: &str) -> (r: Result<UncPath, UncPathError>)
    ensures
        parsed_view(r) == parse_spec(trim_of(input@)),
{
    parse_trimmed(trimmed(input))
}

/// Joins a mount point and the path below the share.
fn join(mount_point: &str, path: &str) -> (r: String)
    ensures
        r@ == join_spec(mount_point@, path@),
{
    let p = chars_of(path);
    let m = chars_of(mount_point);
    if p.len() == 0 || (p.len() == 1 && p[0] == '/') {
        assert(p.len() == 1 ==> (p@ == seq!['/'] <==> p@[0] == '/')) by {
            if p.len() == 1 && p@[0] == '/' {
                assert(p@ =~= seq!['/']);
            }
        }
        return mount_point.to_owned();
    }
    assert(p@ != seq!['/']) by {
        if p@ == seq!['/'] {
            assert(p@[0] == '/');
        }
    }
    let keep: usize = if m.len() > 0 && m[m.len() - 1] == '/' {
        m.len() - 1
    } else {
        m.len()
    };
    let mut out: Vec<char> = Vec::new();
    let mut i: usize = 0;
    while i < keep
        invariant
            keep <= m@.len(),
            i <= keep,
            out@ == m@.subrange(0, i as int),
        decreases keep - i,
    {
        out.push(m[i]);
        assert(out@ =~= m@.subrange(0, i + 1));
        i = i + 1;
    }
    assert(m@.subrange(0, keep as int) =~= strip_slash(m@));
    let mut j: usize = 0;
    while j < p.len()
        invariant
            j <= p@.len(),
            out@ == strip_slash(m@) + p@.subrange(0, j as int),
        decreases p@.len() - j,
    {
        out.push(p[j]);
        assert(out@ =~= strip_slash(m@) + p@.subrange(0, j + 1));
        j = j + 1;
    }
    assert(p@.subrange(0, p@.len() as int) =~= p@);
    string_of(&out)
}

/// Converts a reference that has no surrounding whitespace to a local path.
pub fn convert_trimmed(input: &str, mapping_table: &MappingTable) -> (r: Result<String, UncPathError>)
    ensures
        converted_view(r) == convert_spec(input@, mapping_table@),
{
    let unc_path = match parse_trimmed(input) {
        Ok(u) => u,
        Err(e) => return Err(e),
    };
    match mapping_table.find_mount_point(unc_path.host.as_str(), unc_path.share.as_str()) {
        Some(mount_point) => Ok(join(mount_point, unc_path.path.as_str())),
        None => Err(UncPathError::MappingNotFound(unc_path.host, unc_path.share)),
    }
}

/// Converts a share reference, after trimming surrounding whitespace, to the
/// local path below the mount point of its host and share.
pub fn convert_to_posix(input: &str, mapping_table: &MappingTable) -> (r: Result<String, UncPathError>)
    ensures
        converted_view(r) == convert_spec(trim_of(input@), mapping_table@),
{
    convert_trimmed(trimmed(input), mapping_table)
}

} // verus!
