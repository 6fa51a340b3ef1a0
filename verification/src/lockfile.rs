//! Lockfiles: the dependencies a playbook was resolved to, the digest of the
//! playbook they were resolved for, and the checks of recorded checksums.
use vstd::prelude::*;
use vstd::string::StringSliceAdditionalSpecFns;
use sha2::Digest;
use crate::inventory::host::opt_view;
use crate::text::{concat2, concat3, copy_str, push_char};

verus! {

/// Errors of lockfile operations; errors of outside libraries are kept as their messages.
#[derive(Debug, Clone, PartialEq, Eq)]
pub enum LockfileError {
    /// No lockfile at that path.
    NotFound(String),
    /// The playbook changed since it was locked.
    Outdated,
    /// An I/O error.
    Io(String),
    /// The lockfile could not be written as TOML.
    TomlSer(String),
    /// The lockfile could not be read as TOML.
    TomlDe(String),
    /// A checksum that does not match.
    IntegrityFailed { name: String, expected: String, actual: String },
    /// Dependencies that cannot be resolved or verified.
    ResolutionFailed(String),
    /// A version constraint that no version satisfies.
    VersionConstraint(String),
}

/// Metadata of a lockfile.
#[derive(Debug, Clone, Default)]
pub struct LockfileMetadata {
    /// Version of the tool that wrote the lockfile.
    pub generator_version: Option<String>,
    /// Free description.
    pub description: Option<String>,
    /// Custom entries.
    pub custom: Vec<(String, String)>,
}

impl LockfileMetadata {
    /// Whether there is nothing to record.
    pub fn is_empty(&self) -> (r: bool)
        ensures
            r == (self.generator_version is None && self.description is None && self.custom@.len() == 0),
    {
        self.generator_version.is_none() && self.description.is_none() && self.custom.len() == 0
    }
}

/// Where a dependency comes from.
#[derive(Debug, Clone, PartialEq, Eq)]
pub enum DependencySource {
    /// Ansible Galaxy, on an optional server.
    Galaxy { server: Option<String> },
    /// A git repository at a reference.
    Git { url: String, ref_: String },
    /// A download.
    Url { url: String },
    /// A local path.
    Local { path: String },
}

/// A locked role.
#[derive(Debug, Clone)]
pub struct LockedRole {
    /// Role name.
    pub name: String,
    /// Locked version.
    pub version: String,
    /// Where it comes from.
    pub source: DependencySource,
    /// Checksum of the role.
    pub checksum: String,
    /// Roles it depends on.
    pub dependencies: Vec<String>,
}

/// A locked collection.
#[derive(Debug, Clone)]
pub struct LockedCollection {
    /// Collection name.
    pub name: String,
    /// Locked version.
    pub version: String,
    /// Where it comes from.
    pub source: DependencySource,
    /// Checksum of the collection.
    pub checksum: String,
    /// Collections it depends on.
    pub dependencies: Vec<String>,
}

/// The kind of a locked resource.
#[derive(Debug, Clone, Copy, PartialEq, Eq, Structural)]
pub enum ResourceType {
    /// A download.
    Url,
    /// A git repository.
    Git,
    /// A local file.
    File,
    /// An S3 object.
    S3,
}

impl ResourceType {
    /// The name by which the kind is written in messages.
    pub fn debug_name(&self) -> (r: &'static str)
        ensures
            r@ == resource_type_name(*self),
    {
        match self {
            ResourceType::Url => "Url",
            ResourceType::Git => "Git",
            ResourceType::File => "File",
            ResourceType::S3 => "S3",
        }
    }
}

/// The name by which a resource kind is written in messages.
pub open spec fn resource_type_name(t: ResourceType) -> Seq<char> {
    match t {
        ResourceType::Url => "Url"@,
        ResourceType::Git => "Git"@,
        ResourceType::File => "File"@,
        ResourceType::S3 => "S3"@,
    }
}

/// A locked resource.
#[derive(Debug, Clone)]
pub struct LockedResource {
    /// Resource name.
    pub name: String,
    /// Its kind.
    pub resource_type: ResourceType,
    /// Where it is.
    pub location: String,
    /// Its SHA-256 checksum in hex, if recorded.
    pub checksum: Option<String>,
    /// The git reference, for git resources.
    pub git_ref: Option<String>,
}

/// The SHA-256 digest of some bytes.
pub uninterp spec fn sha256_of(bytes: Seq<u8>) -> Seq<u8>;

/// Calls `sha2::Sha256::digest`, and copies the digest into a vector. The
/// contract claims that the digest depends on the bytes alone and has 32 bytes.
#[verifier::external_body]
pub(crate) fn sha256_digest(bytes: &[u8]) -> (r: Vec<u8>)
    ensures
        r@ == sha256_of(bytes@),
        r@.len() == 32,
{
    sha2::Sha256::digest(bytes).to_vec()
}

/// The lowercase hex digit of a value below sixteen.
pub open spec fn hex_digit(d: u8) -> char {
    if d < 10 {
        ((d + 48) as u8) as char
    } else {
        ((d + 87) as u8) as char
    }
}

/// Bytes as lowercase hex, two digits a byte.
pub open spec fn hex_lower(bytes: Seq<u8>) -> Seq<char>
    decreases bytes.len(),
{
    if bytes.len() == 0 {
        Seq::empty()
    } else {
        hex_lower(bytes.drop_last()) + seq![hex_digit(bytes.last() / 16), hex_digit(bytes.last() % 16)]
    }
}

/// The lowercase hex digit of a value below sixteen.
fn hex_char(d: u8) -> (c: char)
    requires
        d < 16,
    ensures
        c == hex_digit(d),
{
    if d < 10 {
        (d + 48) as char
    } else {
        (d + 87) as char
    }
}

/// Writes bytes as lowercase hex.
pub fn to_hex(bytes: &[u8]) -> (r: String)
    ensures
        r@ == hex_lower(bytes@),
{
    let mut out = String::new();
    let mut i: usize = 0;
    while i < bytes.len()
        invariant
            i <= bytes@.len(),
            out@ == hex_lower(bytes@.take(i as int)),
        decreases bytes@.len() - i,
    {
        let b = bytes[i];
        proof {
            assert(bytes@.take(i + 1).drop_last() =~= bytes@.take(i as int));
        }
        let ghost before = out@;
        push_char(&mut out, hex_char(b / 16));
        push_char(&mut out, hex_char(b % 16));
        proof {
            assert(out@ =~= before + seq![hex_digit(b / 16), hex_digit(b % 16)]);
        }
        i = i + 1;
    }
    proof {
        assert(bytes@.take(bytes@.len() as int) =~= bytes@);
    }
    out
}

/// The digest recorded for a playbook: the SHA-256 of its text, in lowercase hex.
pub fn compute_hash(content: &str) -> (r: String)
    ensures
        r@ == hex_lower(sha256_of(content.spec_bytes())),
        r@.len() == 64,
{
    let digest = sha256_digest(content.as_bytes());
    proof {
        lemma_hex_lower_len(digest@);
    }
    to_hex(digest.as_slice())
}

proof fn lemma_hex_lower_len(bytes: Seq<u8>)
    ensures
        hex_lower(bytes).len() == 2 * bytes.len(),
    decreases bytes.len(),
{
    if bytes.len() > 0 {
        lemma_hex_lower_len(bytes.drop_last());
    }
}

/// ASCII letters in either case are the same.
pub open spec fn fold_ascii(c: char) -> char {
    crate::text::ascii_lower(c)
}

/// Two texts that are equal when ASCII letters are compared without case.
pub open spec fn eq_ignore_ascii_case(a: Seq<char>, b: Seq<char>) -> bool {
    a.len() == b.len() && forall|i: int| 0 <= i < a.len() ==> fold_ascii(a[i]) == fold_ascii(b[i])
}

/// Compares two texts, ASCII letters without case.
pub fn str_eq_ignore_ascii_case(a: &str, b: &str) -> (r: bool)
    ensures
        r == eq_ignore_ascii_case(a@, b@),
{
    let ac = crate::text::chars_of(a);
    let bc = crate::text::chars_of(b);
    if ac.len() != bc.len() {
        return false;
    }
    let mut i: usize = 0;
    while i < ac.len()
        invariant
            i <= ac@.len() == bc@.len(),
            ac@ == a@,
            bc@ == b@,
            forall|k: int| 0 <= k < i ==> fold_ascii(ac@[k]) == fold_ascii(bc@[k]),
        decreases ac@.len() - i,
    {
        let x = ac[i];
        let y = bc[i];
        let lx = if 'A' <= x && x <= 'Z' { ((x as u8) + 32) as char } else { x };
        let ly = if 'A' <= y && y <= 'Z' { ((y as u8) + 32) as char } else { y };
        if lx != ly {
            return false;
        }
        i = i + 1;
    }
    true
}

/// The refusal of roles and collections.
pub open spec fn unsupported_dependencies_message() -> Seq<char> {
    "Integrity verification for roles and collections is not supported; no installed artifacts were verified"@
}

/// A resource whose checksum can be checked: a local file with a recorded checksum.
pub open spec fn verifiable(r: LockedResource) -> bool {
    r.resource_type == ResourceType::File && r.checksum is Some
}

/// Why a resource cannot be verified.
pub open spec fn unverifiable_message(r: LockedResource) -> Seq<char> {
    if r.resource_type != ResourceType::File {
        "Integrity verification for "@ + resource_type_name(r.resource_type) + " resource '"@ + r.name@
            + "' is not supported"@
    } else {
        "No SHA256 checksum recorded for local resource '"@ + r.name@ + "'"@
    }
}

/// Compares the digest of a resource's content with the recorded checksum,
/// ASCII letters without case.
pub fn check_resource_digest(resource: &LockedResource, actual: String) -> (r: Result<(), LockfileError>)
    requires
        resource.checksum is Some,
    ensures
        eq_ignore_ascii_case(resource.checksum.unwrap()@, actual@) ==> r is Ok,
        !eq_ignore_ascii_case(resource.checksum.unwrap()@, actual@) ==> r == Err::<(), LockfileError>(
            LockfileError::IntegrityFailed { name: resource.name, expected: resource.checksum.unwrap(), actual },
        ),
{
    match &resource.checksum {
        Some(expected) => {
            if str_eq_ignore_ascii_case(expected.as_str(), actual.as_str()) {
                Ok(())
            } else {
                Err(LockfileError::IntegrityFailed { name: resource.name.clone(), expected: expected.clone(), actual })
            }
        },
        None => Ok(()),
    }
}

/// What was found at a resource's location.
#[derive(Debug, Clone)]
pub enum FileFound {
    /// A regular file (links followed), with its bytes.
    Regular(Vec<u8>),
    /// Something other than a regular file: a directory, a FIFO, a device.
    Special,
    /// Opening or reading failed; the message of the error.
    Unreadable(String),
}

/// Whether a resource passes the check on what was found at its location:
/// a local file with a recorded checksum, found as a regular file whose
/// SHA-256 in hex equals the checksum, ASCII letters without case.
pub open spec fn resource_passes(r: LockedResource, f: FileFound) -> bool {
    &&& verifiable(r)
    &&& f matches FileFound::Regular(b)
    &&& eq_ignore_ascii_case(r.checksum.unwrap()@, hex_lower(sha256_of(b@)))
}

/// The message for a location that is not a regular file.
pub open spec fn not_regular_message(r: LockedResource) -> Seq<char> {
    "Integrity verification requires a regular local file for resource '"@ + r.name@ + "'"@
}

/// The error a resource that does not pass is reported with.
pub open spec fn resource_error(r: LockedResource, f: FileFound, e: LockfileError) -> bool {
    if !verifiable(r) {
        e matches LockfileError::ResolutionFailed(m) && m@ == unverifiable_message(r)
    } else {
        match f {
            FileFound::Unreadable(m) => e matches LockfileError::Io(x) && x@ == m@,
            FileFound::Special => e matches LockfileError::ResolutionFailed(m) && m@ == not_regular_message(r),
            FileFound::Regular(b) => e matches LockfileError::IntegrityFailed { name, expected, actual }
                && name@ == r.name@ && expected@ == r.checksum.unwrap()@ && actual@ == hex_lower(sha256_of(b@)),
        }
    }
}

/// The first resource, in order, that does not pass.
pub open spec fn first_failing(rs: Seq<LockedResource>, fs: Seq<FileFound>) -> Option<int>
    decreases rs.len(),
{
    if rs.len() == 0 {
        None
    } else {
        match first_failing(rs.drop_last(), fs) {
            Some(i) => Some(i),
            None => if !resource_passes(rs.last(), fs[rs.len() - 1]) { Some(rs.len() - 1) } else { None },
        }
    }
}

proof fn lemma_first_failing(rs: Seq<LockedResource>, fs: Seq<FileFound>, i: int)
    requires
        0 <= i <= rs.len(),
        forall|k: int| 0 <= k < i ==> resource_passes(#[trigger] rs[k], fs[k]),
        i < rs.len() ==> !resource_passes(rs[i], fs[i]),
    ensures
        first_failing(rs, fs) == (if i < rs.len() { Some(i) } else { None::<int> }),
    decreases rs.len(),
{
    if rs.len() > 0 {
        if i < rs.len() - 1 {
            lemma_first_failing(rs.drop_last(), fs, i);
        } else {
            assert forall|k: int| 0 <= k < rs.len() - 1 implies resource_passes(#[trigger] rs.drop_last()[k], fs[k]) by {
                assert(rs.drop_last()[k] == rs[k]);
            }
            lemma_first_failing(rs.drop_last(), fs, rs.len() - 1);
        }
    }
}

/// The error for a resource that cannot be verified.
fn unverifiable_error(res: &LockedResource) -> (e: LockfileError)
    requires
        !verifiable(*res),
    ensures
        e matches LockfileError::ResolutionFailed(m) && m@ == unverifiable_message(*res),
{
    if res.resource_type != ResourceType::File {
        let m = concat3("Integrity verification for ", res.resource_type.debug_name(), " resource '");
        let m = concat3(m.as_str(), res.name.as_str(), "' is not supported");
        LockfileError::ResolutionFailed(m)
    } else {
        LockfileError::ResolutionFailed(concat3("No SHA256 checksum recorded for local resource '", res.name.as_str(), "'"))
    }
}

/// Checks one resource against what was found at its location: it must be
/// a local file with a recorded checksum, found as a regular file whose
/// digest matches.
pub fn check_resource(resource: &LockedResource, found: &FileFound) -> (r: Result<(), LockfileError>)
    ensures
        r is Ok <==> resource_passes(*resource, *found),
        r is Err ==> resource_error(*resource, *found, r->Err_0),
{
    if resource.resource_type != ResourceType::File || resource.checksum.is_none() {
        return Err(unverifiable_error(resource));
    }
    match found {
        FileFound::Unreadable(m) => Err(LockfileError::Io(m.clone())),
        FileFound::Special => Err(LockfileError::ResolutionFailed(
            concat3("Integrity verification requires a regular local file for resource '", resource.name.as_str(), "'"),
        )),
        FileFound::Regular(bytes) => {
            let digest = sha256_digest(bytes.as_slice());
            let actual = to_hex(digest.as_slice());
            check_resource_digest(resource, actual)
        },
    }
}

/// Verifies the recorded checksums of a lockfile's dependencies against
/// what was found at each resource's location, resource by resource in
/// order: roles and collections cannot be verified, and the first resource
/// that does not pass is reported.
pub fn verify_resources(
    roles: usize,
    collections: usize,
    resources: &[LockedResource],
    found: &[FileFound],
) -> (r: Result<(), LockfileError>)
    requires
        found@.len() == resources@.len(),
    ensures
        (roles > 0 || collections > 0) ==> (r matches Err(LockfileError::ResolutionFailed(m))
            && m@ == unsupported_dependencies_message()),
        (roles == 0 && collections == 0) ==> match first_failing(resources@, found@) {
            None => r is Ok,
            Some(i) => r is Err && resource_error(resources@[i], found@[i], r->Err_0),
        },
{
    if roles > 0 || collections > 0 {
        return Err(LockfileError::ResolutionFailed(copy_str(
            "Integrity verification for roles and collections is not supported; no installed artifacts were verified",
        )));
    }
    let mut i: usize = 0;
    while i < resources.len()
        invariant
            i <= resources@.len(),
            found@.len() == resources@.len(),
            roles == 0 && collections == 0,
            forall|k: int| 0 <= k < i ==> resource_passes(#[trigger] resources@[k], found@[k]),
        decreases resources@.len() - i,
    {
        match check_resource(&resources[i], &found[i]) {
            Err(e) => {
                proof {
                    lemma_first_failing(resources@, found@, i as int);
                }
                return Err(e);
            },
            Ok(()) => {},
        }
        i = i + 1;
    }
    proof {
        lemma_first_failing(resources@, found@, resources@.len() as int);
    }
    Ok(())
}

/// Whether a playbook's text still has the recorded digest.
pub fn verify_playbook_hash(recorded: &str, content: &str) -> (r: Result<(), LockfileError>)
    ensures
        (hex_lower(sha256_of(content.spec_bytes())) == recorded@) ==> r is Ok,
        (hex_lower(sha256_of(content.spec_bytes())) != recorded@) ==> r == Err::<(), LockfileError>(LockfileError::Outdated),
{
    let current = compute_hash(content);
    if crate::text::str_equal(current.as_str(), recorded) {
        Ok(())
    } else {
        Err(LockfileError::Outdated)
    }
}

} // verus!

verus! {

/// Whether `a` comes before `b` in the order of names: character by
/// character, a proper prefix first. On text this is the byte order of UTF-8,
/// the order in which sorted string maps keep their keys.
pub open spec fn name_less(a: Seq<char>, b: Seq<char>) -> bool
    decreases a.len(),
{
    if b.len() == 0 {
        false
    } else if a.len() == 0 {
        true
    } else if a[0] != b[0] {
        a[0] < b[0]
    } else {
        name_less(a.drop_first(), b.drop_first())
    }
}

proof fn lemma_name_less_irreflexive(a: Seq<char>)
    ensures
        !name_less(a, a),
    decreases a.len(),
{
    if a.len() > 0 {
        lemma_name_less_irreflexive(a.drop_first());
    }
}

proof fn lemma_name_less_total(a: Seq<char>, b: Seq<char>)
    ensures
        a != b ==> (name_less(a, b) || name_less(b, a)),
        !(name_less(a, b) && name_less(b, a)),
    decreases a.len(),
{
    if a.len() > 0 && b.len() > 0 {
        lemma_name_less_total(a.drop_first(), b.drop_first());
        if a[0] == b[0] && a != b {
            assert(a.drop_first() != b.drop_first()) by {
                if a.drop_first() == b.drop_first() {
                    assert(a =~= seq![a[0]] + a.drop_first());
                    assert(b =~= seq![b[0]] + b.drop_first());
                }
            }
        }
    } else if a.len() == 0 && b.len() == 0 {
        assert(a =~= b);
    }
}

proof fn lemma_name_less_transitive(a: Seq<char>, b: Seq<char>, c: Seq<char>)
    requires
        name_less(a, b),
        name_less(b, c),
    ensures
        name_less(a, c),
    decreases a.len(),
{
    if a.len() > 0 && b.len() > 0 && c.len() > 0 && a[0] == b[0] && b[0] == c[0] {
        lemma_name_less_transitive(a.drop_first(), b.drop_first(), c.drop_first());
    }
}

/// Something kept in a lockfile under its name.
pub trait Named {
    /// The name it is kept under.
    spec fn key(&self) -> Seq<char>;

    /// Its name.
    fn name_str(&self) -> (r: &str)
        ensures
            r@ == self.key();
}

impl Named for LockedRole {
    open spec fn key(&self) -> Seq<char> {
        self.name@
    }

    fn name_str(&self) -> (r: &str) {
        self.name.as_str()
    }
}

impl Named for LockedCollection {
    open spec fn key(&self) -> Seq<char> {
        self.name@
    }

    fn name_str(&self) -> (r: &str) {
        self.name.as_str()
    }
}

impl Named for LockedResource {
    open spec fn key(&self) -> Seq<char> {
        self.name@
    }

    fn name_str(&self) -> (r: &str) {
        self.name.as_str()
    }
}

/// Entries kept sorted by name, each name once.
pub open spec fn sorted_by_name<T: Named>(v: Seq<T>) -> bool {
    forall|i: int, j: int| 0 <= i < j < v.len() ==> name_less(#[trigger] v[i].key(), #[trigger] v[j].key())
}

/// Whether an entry has this name.
pub open spec fn has_name<T: Named>(v: Seq<T>, k: Seq<char>) -> bool {
    exists|i: int| 0 <= i < v.len() && #[trigger] v[i].key() == k
}

/// The position of an entry with this name.
pub open spec fn name_index<T: Named>(v: Seq<T>, k: Seq<char>) -> int {
    choose|i: int| 0 <= i < v.len() && #[trigger] v[i].key() == k
}

/// The entries by name.
pub open spec fn by_name<T: Named>(v: Seq<T>) -> Map<Seq<char>, T> {
    Map::new(|k: Seq<char>| has_name(v, k), |k: Seq<char>| v[name_index(v, k)])
}

proof fn lemma_by_name_at<T: Named>(v: Seq<T>, j: int)
    requires
        sorted_by_name(v),
        0 <= j < v.len(),
    ensures
        by_name(v).dom().contains(v[j].key()),
        by_name(v)[v[j].key()] == v[j],
{
    let k = v[j].key();
    assert(has_name(v, k));
    let i = name_index(v, k);
    assert(0 <= i < v.len() && v[i].key() == k);
    if i != j {
        lemma_name_less_irreflexive(k);
        if i < j {
            assert(name_less(v[i].key(), v[j].key()));
        } else {
            assert(name_less(v[j].key(), v[i].key()));
        }
    }
    assert(by_name(v)[k] == v[i]);
}

/// Puts an entry among entries sorted by name: in the place of the entry
/// with its name, or where its name falls in the order.
fn put_sorted<T: Named>(v: &mut Vec<T>, item: T)
    requires
        sorted_by_name(old(v)@),
    ensures
        sorted_by_name(final(v)@),
        by_name(final(v)@) == by_name(old(v)@).insert(item.key(), item),
{
    let ghost k = item.key();
    let mut i: usize = 0;
    while i < v.len()
        invariant
            i <= v@.len(),
            forall|j: int| 0 <= j < i ==> name_less(#[trigger] v@[j].key(), k),
            k == item.key(),
        ensures
            i <= v@.len(),
            forall|j: int| 0 <= j < i ==> name_less(#[trigger] v@[j].key(), k),
            i < v@.len() ==> !name_less(v@[i as int].key(), k),
        decreases v@.len() - i,
    {
        if !names_before(v[i].name_str(), item.name_str()) {
            break;
        }
        i = i + 1;
    }
    let ghost old_v = v@;
    let same = i < v.len() && crate::text::str_equal(v[i].name_str(), item.name_str());
    if same {
        v.set(i, item);
    } else {
        v.insert(i, item);
    }
    proof {
        let nv = v@;
        if same {
            lemma_put_replaces(old_v, i as int, item);
        } else {
            lemma_put_inserts(old_v, i as int, item);
        }
    }
}

proof fn lemma_put_replaces<T: Named>(v: Seq<T>, i: int, item: T)
    requires
        sorted_by_name(v),
        0 <= i < v.len(),
        v[i].key() == item.key(),
    ensures
        sorted_by_name(v.update(i, item)),
        by_name(v.update(i, item)) == by_name(v).insert(item.key(), item),
{
    let nv = v.update(i, item);
    let k = item.key();
    assert forall|a: int, b: int| 0 <= a < b < nv.len() implies name_less(#[trigger] nv[a].key(), #[trigger] nv[b].key()) by {
        assert(name_less(v[a].key(), v[b].key()));
    }
    assert forall|x: Seq<char>| has_name(nv, x) <==> has_name(v, x) by {
        if has_name(nv, x) {
            let j = choose|j: int| 0 <= j < nv.len() && #[trigger] nv[j].key() == x;
            assert(v[j].key() == x);
        }
        if has_name(v, x) {
            let j = choose|j: int| 0 <= j < v.len() && #[trigger] v[j].key() == x;
            assert(nv[j].key() == x);
        }
    }
    assert(has_name(v, k)) by {
        assert(v[i].key() == k);
    }
    let m1 = by_name(nv);
    let m2 = by_name(v).insert(k, item);
    assert forall|x: Seq<char>| #[trigger] m1.dom().contains(x) implies m2.dom().contains(x) && m1[x] == m2[x] by {
        let j = choose|j: int| 0 <= j < nv.len() && #[trigger] nv[j].key() == x;
        lemma_by_name_at(nv, j);
        if j != i {
            assert(nv[j] == v[j]);
            lemma_by_name_at(v, j);
            lemma_name_less_irreflexive(k);
            if j < i {
                assert(name_less(v[j].key(), v[i].key()));
            } else {
                assert(name_less(v[i].key(), v[j].key()));
            }
            assert(x != k);
        }
    }
    assert(m1.dom() =~= m2.dom());
    assert(m1 =~= m2);
}

proof fn lemma_put_inserts<T: Named>(v: Seq<T>, i: int, item: T)
    requires
        sorted_by_name(v),
        0 <= i <= v.len(),
        forall|j: int| 0 <= j < i ==> name_less(#[trigger] v[j].key(), item.key()),
        i < v.len() ==> !name_less(v[i].key(), item.key()) && v[i].key() != item.key(),
    ensures
        sorted_by_name(v.insert(i, item)),
        by_name(v.insert(i, item)) == by_name(v).insert(item.key(), item),
{
    let nv = v.insert(i, item);
    let k = item.key();
    assert forall|j: int| i <= j < v.len() implies name_less(k, #[trigger] v[j].key()) by {
        lemma_name_less_total(k, v[i].key());
        if j > i {
            assert(name_less(v[i].key(), v[j].key()));
            lemma_name_less_transitive(k, v[i].key(), v[j].key());
        }
    }
    assert forall|a: int, b: int| 0 <= a < b < nv.len() implies name_less(#[trigger] nv[a].key(), #[trigger] nv[b].key()) by {
        if b < i {
            assert(name_less(v[a].key(), v[b].key()));
        } else if b == i {
        } else if a < i {
            assert(nv[b] == v[b - 1]);
            assert(name_less(v[a].key(), v[b - 1].key()));
        } else if a == i {
            assert(nv[b] == v[b - 1]);
        } else {
            assert(nv[a] == v[a - 1] && nv[b] == v[b - 1]);
            assert(name_less(v[a - 1].key(), v[b - 1].key()));
        }
    }
    assert forall|j: int| 0 <= j < v.len() implies #[trigger] v[j].key() != k by {
        lemma_name_less_irreflexive(k);
    }
    let m1 = by_name(nv);
    let m2 = by_name(v).insert(k, item);
    assert forall|x: Seq<char>| #[trigger] m1.dom().contains(x) implies m2.dom().contains(x) && m1[x] == m2[x] by {
        let j = choose|j: int| 0 <= j < nv.len() && #[trigger] nv[j].key() == x;
        lemma_by_name_at(nv, j);
        if j < i {
            assert(nv[j] == v[j]);
            lemma_by_name_at(v, j);
        } else if j > i {
            assert(nv[j] == v[j - 1]);
            lemma_by_name_at(v, j - 1);
        }
    }
    assert forall|x: Seq<char>| #[trigger] m2.dom().contains(x) implies m1.dom().contains(x) by {
        if x == k {
            assert(nv[i].key() == k);
        } else {
            let j = choose|j: int| 0 <= j < v.len() && #[trigger] v[j].key() == x;
            if j < i {
                assert(nv[j] == v[j]);
            } else {
                assert(nv[j + 1] == v[j]);
            }
        }
    }
    assert(m1.dom() =~= m2.dom());
    assert(m1 =~= m2);
}

/// Whether the name `a` comes before the name `b`.
fn names_before(a: &str, b: &str) -> (r: bool)
    ensures
        r == name_less(a@, b@),
{
    let ac = crate::text::chars_of(a);
    let bc = crate::text::chars_of(b);
    let mut i: usize = 0;
    proof {
        assert(a@.skip(0) =~= a@);
        assert(b@.skip(0) =~= b@);
    }
    while i < ac.len() && i < bc.len()
        invariant
            ac@ == a@,
            bc@ == b@,
            i <= ac@.len(),
            i <= bc@.len(),
            forall|j: int| 0 <= j < i ==> ac@[j] == bc@[j],
            name_less(a@, b@) == name_less(a@.skip(i as int), b@.skip(i as int)),
        decreases ac@.len() - i,
    {
        if ac[i] != bc[i] {
            proof {
                assert(a@.skip(i as int)[0] == ac@[i as int]);
                assert(b@.skip(i as int)[0] == bc@[i as int]);
            }
            return ac[i] < bc[i];
        }
        proof {
            assert(a@.skip(i as int).drop_first() =~= a@.skip(i + 1));
            assert(b@.skip(i as int).drop_first() =~= b@.skip(i + 1));
        }
        i = i + 1;
    }
    proof {
        assert(a@.skip(i as int).len() == a@.len() - i);
        assert(b@.skip(i as int).len() == b@.len() - i);
    }
    i < bc.len()
}


/// A lockfile: the playbook it was made for, when, and the roles,
/// collections and resources it locks, each kept by name in the order of
/// names.
#[derive(Debug, Clone)]
pub struct Lockfile {
    /// Format version.
    pub version: u32,
    /// When it was created, in seconds since the Unix epoch.
    pub created_at: i64,
    /// When it was last changed, in seconds since the Unix epoch.
    pub updated_at: i64,
    /// The digest of the playbook it was made for.
    pub playbook_hash: String,
    /// The path of that playbook.
    pub playbook_path: String,
    /// The locked roles, in the order of their names.
    pub roles: Vec<LockedRole>,
    /// The locked collections, in the order of their names.
    pub collections: Vec<LockedCollection>,
    /// The locked resources, in the order of their names.
    pub resources: Vec<LockedResource>,
    /// Metadata.
    pub metadata: LockfileMetadata,
}

impl Lockfile {
    /// The locked roles, in the order of their names.
    pub open spec fn roles_seq(&self) -> Seq<LockedRole> {
        self.roles@
    }

    /// The locked collections, in the order of their names.
    pub open spec fn collections_seq(&self) -> Seq<LockedCollection> {
        self.collections@
    }

    /// The locked resources, in the order of their names.
    pub open spec fn resources_seq(&self) -> Seq<LockedResource> {
        self.resources@
    }

    /// Each list is kept in the order of names, each name once.
    pub open spec fn wf(&self) -> bool {
        &&& sorted_by_name(self.roles_seq())
        &&& sorted_by_name(self.collections_seq())
        &&& sorted_by_name(self.resources_seq())
    }

    /// The locked roles by name.
    pub open spec fn roles_view(&self) -> Map<Seq<char>, LockedRole> {
        by_name(self.roles_seq())
    }

    /// The locked collections by name.
    pub open spec fn collections_view(&self) -> Map<Seq<char>, LockedCollection> {
        by_name(self.collections_seq())
    }

    /// The locked resources by name.
    pub open spec fn resources_view(&self) -> Map<Seq<char>, LockedResource> {
        by_name(self.resources_seq())
    }

    /// A lockfile for a playbook with this path and text, made at `now`,
    /// with nothing locked yet: format version 1, the digest of the text,
    /// and the version of the tool that made it.
    pub fn new(playbook_path: &str, content: &str, now: i64, generator_version: &str) -> (l: Lockfile)
        ensures
            l.wf(),
            l.version == 1,
            l.created_at == now && l.updated_at == now,
            l.playbook_hash@ == hex_lower(sha256_of(content.spec_bytes())),
            l.playbook_path@ == playbook_path@,
            l.roles_seq().len() == 0 && l.collections_seq().len() == 0 && l.resources_seq().len() == 0,
            opt_view(l.metadata.generator_version) == Some(generator_version@),
            l.metadata.description is None,
            l.metadata.custom@.len() == 0,
    {
        Lockfile {
            version: 1,
            created_at: now,
            updated_at: now,
            playbook_hash: compute_hash(content),
            playbook_path: copy_str(playbook_path),
            roles: Vec::new(),
            collections: Vec::new(),
            resources: Vec::new(),
            metadata: LockfileMetadata {
                generator_version: Some(copy_str(generator_version)),
                description: None,
                custom: Vec::new(),
            },
        }
    }

    /// Locks a role, in the place of one with its name, at `now`.
    pub fn add_role(&mut self, role: LockedRole, now: i64)
        requires
            old(self).wf(),
        ensures
            final(self).wf(),
            final(self).roles_view() == old(self).roles_view().insert(role.name@, role),
            final(self).collections_seq() == old(self).collections_seq(),
            final(self).resources_seq() == old(self).resources_seq(),
            final(self).updated_at == now,
            final(self).created_at == old(self).created_at,
            final(self).playbook_hash == old(self).playbook_hash,
    {
        put_sorted(&mut self.roles, role);
        self.updated_at = now;
    }

    /// Locks a collection, in the place of one with its name, at `now`.
    pub fn add_collection(&mut self, collection: LockedCollection, now: i64)
        requires
            old(self).wf(),
        ensures
            final(self).wf(),
            final(self).collections_view() == old(self).collections_view().insert(collection.name@, collection),
            final(self).roles_seq() == old(self).roles_seq(),
            final(self).resources_seq() == old(self).resources_seq(),
            final(self).updated_at == now,
            final(self).created_at == old(self).created_at,
            final(self).playbook_hash == old(self).playbook_hash,
    {
        put_sorted(&mut self.collections, collection);
        self.updated_at = now;
    }

    /// Locks a resource, in the place of one with its name, at `now`.
    pub fn add_resource(&mut self, resource: LockedResource, now: i64)
        requires
            old(self).wf(),
        ensures
            final(self).wf(),
            final(self).resources_view() == old(self).resources_view().insert(resource.name@, resource),
            final(self).roles_seq() == old(self).roles_seq(),
            final(self).collections_seq() == old(self).collections_seq(),
            final(self).updated_at == now,
            final(self).created_at == old(self).created_at,
            final(self).playbook_hash == old(self).playbook_hash,
    {
        put_sorted(&mut self.resources, resource);
        self.updated_at = now;
    }

    /// The locked role with this name.
    pub fn get_role(&self, name: &str) -> (r: Option<&LockedRole>)
        requires
            self.wf(),
        ensures
            match r {
                Some(x) => self.roles_view().dom().contains(name@) && *x == self.roles_view()[name@],
                None => !self.roles_view().dom().contains(name@),
            },
    {
        find_named(&self.roles, name)
    }

    /// The locked collection with this name.
    pub fn get_collection(&self, name: &str) -> (r: Option<&LockedCollection>)
        requires
            self.wf(),
        ensures
            match r {
                Some(x) => self.collections_view().dom().contains(name@) && *x == self.collections_view()[name@],
                None => !self.collections_view().dom().contains(name@),
            },
    {
        find_named(&self.collections, name)
    }

    /// Records the digest of the playbook's current text, at `now`.
    pub fn update_playbook_hash(&mut self, content: &str, now: i64)
        ensures
            final(self).playbook_hash@ == hex_lower(sha256_of(content.spec_bytes())),
            final(self).updated_at == now,
            final(self).created_at == old(self).created_at,
            final(self).playbook_path == old(self).playbook_path,
            final(self).roles_seq() == old(self).roles_seq(),
            final(self).collections_seq() == old(self).collections_seq(),
            final(self).resources_seq() == old(self).resources_seq(),
    {
        self.playbook_hash = compute_hash(content);
        self.updated_at = now;
    }

    /// Whether a playbook's text still has the digest the lockfile was made for.
    pub fn verify_playbook(&self, content: &str) -> (r: Result<(), LockfileError>)
        ensures
            (hex_lower(sha256_of(content.spec_bytes())) == self.playbook_hash@) ==> r is Ok,
            (hex_lower(sha256_of(content.spec_bytes())) != self.playbook_hash@) ==> r == Err::<(), LockfileError>(
                LockfileError::Outdated,
            ),
    {
        verify_playbook_hash(self.playbook_hash.as_str(), content)
    }

    /// The locked resources, in the order of their names.
    pub fn resources(&self) -> (r: &[LockedResource])
        ensures
            r@ == self.resources_seq(),
    {
        self.resources.as_slice()
    }

    /// Whether nothing is locked.
    pub fn is_empty(&self) -> (r: bool)
        ensures
            r == (self.roles_seq().len() == 0 && self.collections_seq().len() == 0 && self.resources_seq().len() == 0),
    {
        self.roles.len() == 0 && self.collections.len() == 0 && self.resources.len() == 0
    }

    /// How many roles, collections and resources are locked in all.
    pub fn len(&self) -> (r: usize)
        requires
            self.roles_seq().len() + self.collections_seq().len() + self.resources_seq().len() <= usize::MAX,
        ensures
            r == self.roles_seq().len() + self.collections_seq().len() + self.resources_seq().len(),
    {
        self.roles.len() + self.collections.len() + self.resources.len()
    }

    /// Verifies the recorded checksums against what was found at each
    /// resource's location, given in the order of `resources`: roles and
    /// collections cannot be verified, and the first resource, in the order
    /// of names, that does not pass is reported.
    pub fn verify_integrity(&self, found: &[FileFound]) -> (r: Result<(), LockfileError>)
        requires
            found@.len() == self.resources_seq().len(),
        ensures
            (self.roles_seq().len() > 0 || self.collections_seq().len() > 0) ==> (r matches Err(
                LockfileError::ResolutionFailed(m),
            ) && m@ == unsupported_dependencies_message()),
            (self.roles_seq().len() == 0 && self.collections_seq().len() == 0) ==> match first_failing(
                self.resources_seq(),
                found@,
            ) {
                None => r is Ok,
                Some(i) => r is Err && resource_error(self.resources_seq()[i], found@[i], r->Err_0),
            },
    {
        verify_resources(self.roles.len(), self.collections.len(), self.resources.as_slice(), found)
    }
}

/// The entry with this name among entries sorted by name.
fn find_named<'a, T: Named>(v: &'a Vec<T>, name: &str) -> (r: Option<&'a T>)
    requires
        sorted_by_name(v@),
    ensures
        match r {
            Some(x) => by_name(v@).dom().contains(name@) && *x == by_name(v@)[name@],
            None => !by_name(v@).dom().contains(name@),
        },
{
    let mut i: usize = 0;
    while i < v.len()
        invariant
            i <= v@.len(),
            sorted_by_name(v@),
            forall|j: int| 0 <= j < i ==> #[trigger] v@[j].key() != name@,
        decreases v@.len() - i,
    {
        if crate::text::str_equal(v[i].name_str(), name) {
            proof {
                lemma_by_name_at(v@, i as int);
            }
            return Some(&v[i]);
        }
        i = i + 1;
    }
    None
}

/// What a lockfile gives back after a role is locked: that role under its
/// name, and every other name as before.
pub proof fn law_role_read_after_add(before: Lockfile, after: Lockfile, role: LockedRole, other: Seq<char>)
    requires
        after.roles_view() == before.roles_view().insert(role.name@, role),
    ensures
        after.roles_view().dom().contains(role.name@),
        after.roles_view()[role.name@] == role,
        other != role.name@ ==> (after.roles_view().dom().contains(other) == before.roles_view().dom().contains(
            other,
        )),
        other != role.name@ && before.roles_view().dom().contains(other) ==> after.roles_view()[other]
            == before.roles_view()[other],
{
}
} // verus!
