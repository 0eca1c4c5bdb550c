//! Asset sources: the backends a [`crate::Loader`] consults.
//!
//! Every backend answers the same two questions for a relative asset
//! path: "is there a blob here?" and "give me its bytes". A missing path
//! is a normal `false`/`None` outcome, never an error; only genuine I/O
//! or archive failures are errors.

use vstd::prelude::*;
use crate::paths::{join_path, views_of};
use crate::LoaderError;

verus! {

/// What one source holds at one path, at the level of specifications:
/// bytes, nothing, or a failure when probed.
pub enum Answer {
    Hit(Seq<u8>),
    Miss,
    Fail,
}

/// How an existence check must answer when the source's contents are
/// known at the level of specifications.
pub open spec fn has_matches(a: Answer, r: Result<bool, LoaderError>) -> bool {
    match a {
        Answer::Hit(_) => r matches Ok(b) && b == true,
        Answer::Miss => r matches Ok(b) && b == false,
        Answer::Fail => r is Err,
    }
}

/// How a load must answer when the source's contents are known at the
/// level of specifications.
pub open spec fn load_matches(a: Answer, r: Result<Option<Vec<u8>>, LoaderError>) -> bool {
    match a {
        Answer::Hit(bytes) => match r {
            Ok(Some(d)) => d@ == bytes,
            _ => false,
        },
        Answer::Miss => r matches Ok(d) && d is None,
        Answer::Fail => r is Err,
    }
}

/// The capability every backend provides: existence check and byte load
/// for a relative logical path.
///
/// A source whose `modeled` holds has fully known contents, and its
/// answers are pinned by `answer`; a live source (directory, package)
/// answers from the outside world and promises nothing here.
pub trait AssetSource {
    /// Whether the source's contents are fully known at the level of
    /// specifications.
    spec fn modeled(&self) -> bool;

    /// What the source holds at the given path.
    spec fn answer(&self, path: Seq<char>) -> Answer;

    /// Check whether a blob is retrievable at the path. A missing path
    /// is `Ok(false)`, never an error.
    fn has(&self, path: &str) -> (r: Result<bool, LoaderError>)
        ensures
            self.modeled() ==> has_matches(self.answer(path@), r),
    ;

    /// Load the blob at the path. A missing path is `Ok(None)`, never an
    /// error.
    fn load(&self, path: &str) -> (r: Result<Option<Vec<u8>>, LoaderError>)
        ensures
            self.modeled() ==> load_matches(self.answer(path@), r),
    ;
}

/// The bytes behind the first entry with the given path, if any.
pub open spec fn assoc_lookup(s: Seq<(String, Vec<u8>)>, path: Seq<char>) -> Option<Seq<u8>>
    decreases s.len(),
{
    if s.len() == 0 {
        None
    } else if s[0].0@ == path {
        Some(s[0].1@)
    } else {
        assoc_lookup(s.drop_first(), path)
    }
}

/// Some string in the list reads as `path`.
pub open spec fn in_list(s: Seq<String>, path: Seq<char>) -> bool {
    exists|i: int| 0 <= i < s.len() && #[trigger] s[i]@ == path
}

proof fn lemma_assoc_step(s: Seq<(String, Vec<u8>)>, path: Seq<char>, i: int)
    requires
        0 <= i < s.len(),
        s[i].0@ != path,
    ensures
        assoc_lookup(s.skip(i), path) == assoc_lookup(s.skip(i + 1), path),
{
    assert(s.skip(i)[0] == s[i]);
    assert(s.skip(i).drop_first() =~= s.skip(i + 1));
}

/// An in-memory source: an association list of paths to byte blobs, plus
/// a list of paths whose probe deliberately fails. It stands in for
/// pack-style content that lives entirely in memory, and it is the
/// backend whose behaviour is fully pinned by its contents.
#[derive(Debug)]
pub struct MemSource {
    entries: Vec<(String, Vec<u8>)>,
    faults: Vec<String>,
}

impl MemSource {
    /// The entries, as a specification-level association list.
    pub closed spec fn entries_view(&self) -> Seq<(String, Vec<u8>)> {
        self.entries@
    }

    /// The deliberately failing paths.
    pub closed spec fn faults_view(&self) -> Seq<String> {
        self.faults@
    }

    /// An empty in-memory source.
    pub fn new() -> (r: MemSource)
        ensures
            r.entries_view() == Seq::<(String, Vec<u8>)>::empty(),
            r.faults_view() == Seq::<String>::empty(),
    {
        MemSource { entries: Vec::new(), faults: Vec::new() }
    }

    /// Append one path/bytes entry.
    pub fn insert(&mut self, path: String, data: Vec<u8>)
        ensures
            final(self).entries_view() == old(self).entries_view().push((path, data)),
            final(self).faults_view() == old(self).faults_view(),
    {
        self.entries.push((path, data));
    }

    /// Make probes of one path fail, standing in for a genuine backend
    /// failure.
    pub fn add_fault(&mut self, path: String)
        ensures
            final(self).entries_view() == old(self).entries_view(),
            final(self).faults_view() == old(self).faults_view().push(path),
    {
        self.faults.push(path);
    }

    fn fault_hit(&self, path: &str) -> (r: bool)
        ensures
            r == in_list(self.faults_view(), path@),
    {
        let mut i: usize = 0;
        while i < self.faults.len()
            invariant
                i <= self.faults@.len(),
                forall|j: int| 0 <= j < i ==> #[trigger] self.faults@[j]@ != path@,
            decreases self.faults@.len() - i,
        {
            if crate::paths::str_eq(self.faults[i].as_str(), path) {
                proof {
                    assert(self.faults@[i as int]@ == path@);
                }
                return true;
            }
            i += 1;
        }
        false
    }

    fn lookup(&self, path: &str) -> (r: Option<Vec<u8>>)
        ensures
            match assoc_lookup(self.entries_view(), path@) {
                Some(bytes) => r matches Some(d) && d@ == bytes,
                None => r is None,
            },
    {
        let mut i: usize = 0;
        proof {
            assert(self.entries@.skip(0) =~= self.entries@);
        }
        while i < self.entries.len()
            invariant
                i <= self.entries@.len(),
                assoc_lookup(self.entries@, path@) == assoc_lookup(
                    self.entries@.skip(i as int),
                    path@,
                ),
            decreases self.entries@.len() - i,
        {
            if crate::paths::str_eq(self.entries[i].0.as_str(), path) {
                proof {
                    assert(self.entries@.skip(i as int)[0] == self.entries@[i as int]);
                }
                let data = vstd::slice::slice_to_vec(self.entries[i].1.as_slice());
                return Some(data);
            }
            proof {
                lemma_assoc_step(self.entries@, path@, i as int);
            }
            i += 1;
        }
        proof {
            assert(self.entries@.skip(self.entries@.len() as int) =~= Seq::<(
                String,
                Vec<u8>,
            )>::empty());
        }
        None
    }
}

impl AssetSource for MemSource {
    open spec fn modeled(&self) -> bool {
        true
    }

    open spec fn answer(&self, path: Seq<char>) -> Answer {
        if in_list(self.faults_view(), path) {
            Answer::Fail
        } else {
            match assoc_lookup(self.entries_view(), path) {
                Some(bytes) => Answer::Hit(bytes),
                None => Answer::Miss,
            }
        }
    }

    fn has(&self, path: &str) -> (r: Result<bool, LoaderError>)
        ensures
            self.modeled() ==> has_matches(self.answer(path@), r),
    {
        if self.fault_hit(path) {
            return Err(LoaderError::Other(String::from_str("failing path")));
        }
        match self.lookup(path) {
            Some(_) => Ok(true),
            None => Ok(false),
        }
    }

    fn load(&self, path: &str) -> (r: Result<Option<Vec<u8>>, LoaderError>)
        ensures
            self.modeled() ==> load_matches(self.answer(path@), r),
    {
        if self.fault_hit(path) {
            return Err(LoaderError::Other(String::from_str("failing path")));
        }
        match self.lookup(path) {
            Some(data) => Ok(Some(data)),
            None => Ok(None),
        }
    }
}

/// Relies on `fs_err::metadata`: it succeeds exactly when the path
/// exists on disk (following symlinks), whatever kind of entry it is.
#[verifier::external_body]
pub(crate) fn fs_path_exists(path: &str) -> bool {
    fs_err::metadata(path).is_ok()
}

/// Relies on `fs_err::read_dir`: the directory's immediate entries as
/// path strings. Entries whose read fails, or whose path is not valid
/// UTF-8, are skipped, as a scan for well-named package files
/// tolerates; a directory that cannot be read at all is an I/O error.
#[verifier::external_body]
pub(crate) fn list_dir(path: &str) -> (r: Result<Vec<String>, LoaderError>)
    ensures
        r matches Err(e) ==> e is Io,
{
    let entries = match fs_err::read_dir(path) {
        Ok(entries) => entries,
        Err(e) => {
            return Err(LoaderError::Io(e));
        },
    };
    Ok(entries.filter_map(|item| item.ok()).filter_map(|item| {
        Some(item.path().to_str()?.to_string())
    }).collect())
}

/// The outcome of reading one file from disk.
pub enum FileRead {
    Data(Vec<u8>),
    Missing,
    Failed(std::io::Error),
}

/// Relies on `fs_err::read`: the file's full contents on success; a
/// not-found failure is told apart from every other failure by the
/// error's kind, which `fs_err` preserves from the underlying read.
#[verifier::external_body]
fn fs_read_file(path: &str) -> FileRead {
    match fs_err::read(path) {
        Ok(data) => FileRead::Data(data),
        Err(e) => {
            if e.kind() == std::io::ErrorKind::NotFound {
                FileRead::Missing
            } else {
                FileRead::Failed(e)
            }
        },
    }
}

/// How a file-read outcome must be answered: bytes are a hit, a
/// not-found failure is the explicit absent result, and any other
/// failure is exactly the `Io` error wrapping the original failure.
pub open spec fn mapped_read(outcome: FileRead, r: Result<Option<Vec<u8>>, LoaderError>) -> bool {
    match outcome {
        FileRead::Data(data) => match r {
            Ok(Some(b)) => b == data,
            _ => false,
        },
        FileRead::Missing => r matches Ok(b) && b is None,
        FileRead::Failed(e) => match r {
            Err(LoaderError::Io(e2)) => e2 == e,
            _ => false,
        },
    }
}

/// Map one file-read outcome to the backend's answer.
pub fn map_read_outcome(outcome: FileRead) -> (r: Result<Option<Vec<u8>>, LoaderError>)
    ensures
        mapped_read(outcome, r),
{
    match outcome {
        FileRead::Data(data) => Ok(Some(data)),
        FileRead::Missing => Ok(None),
        FileRead::Failed(e) => Err(LoaderError::Io(e)),
    }
}

/// A plain directory backend: paths resolve relative to a base directory
/// and every call touches the live filesystem, so which paths exist is
/// never promised — only the shape of the answers is.
#[derive(Debug)]
pub struct DirSource {
    pub base: String,
}

impl DirSource {
    /// Probe the filesystem for the joined path: a plain boolean
    /// existence check that never raises — a missing path is `false`,
    /// not an error.
    pub fn probe(&self, path: &str) -> (r: Result<bool, LoaderError>)
        ensures
            r is Ok,
    {
        let full = join_path(self.base.as_str(), path);
        Ok(fs_path_exists(full.as_str()))
    }

    /// Read the joined path from disk: bytes when the read succeeds, the
    /// explicit absent result when it fails as not-found, and otherwise
    /// exactly the `Io` error — never any other variant.
    pub fn fetch(&self, path: &str) -> (r: Result<Option<Vec<u8>>, LoaderError>)
        ensures
            r matches Err(e) ==> e is Io,
    {
        let full = join_path(self.base.as_str(), path);
        let outcome = fs_read_file(full.as_str());
        map_read_outcome(outcome)
    }
}

impl AssetSource for DirSource {
    open spec fn modeled(&self) -> bool {
        false
    }

    open spec fn answer(&self, path: Seq<char>) -> Answer {
        Answer::Miss
    }

    fn has(&self, path: &str) -> (r: Result<bool, LoaderError>)
        ensures
            self.modeled() ==> has_matches(self.answer(path@), r),
    {
        self.probe(path)
    }

    fn load(&self, path: &str) -> (r: Result<Option<Vec<u8>>, LoaderError>)
        ensures
            self.modeled() ==> load_matches(self.answer(path@), r),
    {
        self.fetch(path)
    }
}

#[verifier::external_type_specification]
#[verifier::external_body]
pub struct ExVpk(vpk::VPK);

#[verifier::external_type_specification]
#[verifier::external_body]
pub struct ExVpkEntry(vpk::entry::VPKEntry);

/// The set of relative paths a parsed package index holds. The index
/// tree is built once when the package file is parsed and never changes,
/// so this is a function of the parsed value alone.
pub uninterp spec fn vpk_paths(v: vpk::VPK) -> Set<Seq<char>>;

/// Relies on `vpk::from_path`: parses a package index file into its
/// in-memory tree; a package whose parse fails yields nothing here.
#[verifier::external_body]
pub(crate) fn vpk_open(path: &str) -> Option<vpk::VPK> {
    vpk::from_path(path).ok()
}

/// Relies on the parsed index tree (`HashMap::contains_key` on
/// `vpk::VPK::tree`): a key is present exactly when the package holds
/// the path.
#[verifier::external_body]
fn vpk_contains(v: &vpk::VPK, path: &str) -> (r: bool)
    ensures
        r == vpk_paths(*v).contains(path@),
{
    v.tree.contains_key(path)
}

/// Relies on the parsed index tree (`HashMap::get` on `vpk::VPK::tree`):
/// an entry is returned exactly when the package holds the path.
#[verifier::external_body]
fn vpk_entry<'a>(v: &'a vpk::VPK, path: &str) -> (r: Option<&'a vpk::entry::VPKEntry>)
    ensures
        r is Some <==> vpk_paths(*v).contains(path@),
{
    v.tree.get(path)
}

/// Relies on `vpk::entry::VPKEntry::get`: materializes the entry's bytes
/// from the package's data files on disk, or fails with an I/O error.
#[verifier::external_body]
fn vpk_entry_bytes(entry: &vpk::entry::VPKEntry) -> Result<Vec<u8>, std::io::Error> {
    match entry.get() {
        Ok(data) => Ok(data.into_owned()),
        Err(e) => Err(e),
    }
}

/// A package-index backend over a parsed `dir.vpk` index. Which paths it
/// holds is fixed at parse time; the bytes still come from the package's
/// data files on disk when loaded. `path` records the index file the
/// package was parsed from.
#[derive(Debug)]
pub struct VpkSource {
    pub path: String,
    pub vpk: vpk::VPK,
}

impl VpkSource {
    /// Wrap a parsed package index together with the index file's path.
    pub fn from_vpk(path: String, v: vpk::VPK) -> (r: VpkSource)
        ensures
            r.path == path,
            r.vpk == v,
    {
        VpkSource { path, vpk: v }
    }

    /// Whether the package holds the path.
    pub fn contains(&self, path: &str) -> (r: bool)
        ensures
            r == vpk_paths(self.vpk).contains(path@),
    {
        vpk_contains(&self.vpk, path)
    }

    /// Load the path's bytes out of the package: bytes exactly when the
    /// package holds the path and its data files cooperate, `None`
    /// exactly when it does not hold the path.
    pub fn read(&self, path: &str) -> (r: Result<Option<Vec<u8>>, LoaderError>)
        ensures
            r matches Ok(d) ==> (d is Some <==> vpk_paths(self.vpk).contains(path@)),
            r is Err ==> vpk_paths(self.vpk).contains(path@),
            r matches Err(e) ==> e is Io,
    {
        match vpk_entry(&self.vpk, path) {
            Some(entry) => match vpk_entry_bytes(entry) {
                Ok(data) => Ok(Some(data)),
                Err(e) => Err(LoaderError::Io(e)),
            },
            None => Ok(None),
        }
    }
}

impl AssetSource for VpkSource {
    open spec fn modeled(&self) -> bool {
        false
    }

    open spec fn answer(&self, path: Seq<char>) -> Answer {
        Answer::Miss
    }

    fn has(&self, path: &str) -> (r: Result<bool, LoaderError>)
        ensures
            self.modeled() ==> has_matches(self.answer(path@), r),
    {
        Ok(self.contains(path))
    }

    fn load(&self, path: &str) -> (r: Result<Option<Vec<u8>>, LoaderError>)
        ensures
            self.modeled() ==> load_matches(self.answer(path@), r),
    {
        self.read(path)
    }
}

/// The picked candidate indices behind a package list: every package's
/// recorded path is the candidate at its pick, and the picks are
/// strictly increasing, so the packages keep the candidates' order.
pub open spec fn picks_packages(
    picks: Seq<int>,
    packages: Seq<VpkSource>,
    candidates: Seq<Seq<char>>,
) -> bool {
    &&& picks.len() == packages.len()
    &&& forall|k: int| 0 <= k < picks.len() ==> 0 <= #[trigger] picks[k] < candidates.len()
    &&& forall|k: int|
        0 <= k < picks.len() ==> (#[trigger] packages[k]).path@ == candidates[picks[k]]
    &&& forall|k1: int, k2: int|
        0 <= k1 < k2 < picks.len() ==> #[trigger] picks[k1] < #[trigger] picks[k2]
}

/// The packages are the successfully parsed candidates, in the
/// candidates' order: some subsequence of the candidate paths, one
/// package per kept candidate.
pub open spec fn packages_from(packages: Seq<VpkSource>, candidates: Seq<Seq<char>>) -> bool {
    exists|picks: Seq<int>| picks_packages(picks, packages, candidates)
}

/// Parse every candidate package index in order, keeping each
/// successful parse and skipping — without failing construction — each
/// candidate whose parse fails.
pub fn open_packages(candidates: &Vec<String>) -> (r: Vec<VpkSource>)
    ensures
        packages_from(r@, views_of(candidates@)),
{
    let mut out: Vec<VpkSource> = Vec::new();
    let ghost mut picks: Seq<int> = Seq::empty();
    let mut i: usize = 0;
    while i < candidates.len()
        invariant
            i <= candidates@.len(),
            picks_packages(picks, out@, views_of(candidates@)),
            forall|k: int| 0 <= k < picks.len() ==> #[trigger] picks[k] < i,
        decreases candidates@.len() - i,
    {
        let entry = &candidates[i];
        match vpk_open(entry.as_str()) {
            Some(v) => {
                let ghost pre_picks = picks;
                let ghost pre_out = out@;
                out.push(VpkSource::from_vpk(entry.clone(), v));
                proof {
                    picks = pre_picks.push(i as int);
                    assert(out@[out@.len() - 1].path@ == views_of(candidates@)[i as int]);
                    assert(picks_packages(picks, out@, views_of(candidates@))) by {
                        assert(forall|k: int|
                            0 <= k < pre_picks.len() ==> picks[k] == #[trigger] pre_picks[k]);
                        assert(forall|k: int|
                            0 <= k < pre_out.len() ==> out@[k] == #[trigger] pre_out[k]);
                    }
                }
            },
            None => {},
        }
        i += 1;
    }
    out
}

/// One backend of a loader.
#[derive(Debug)]
pub enum Source {
    /// A live directory on disk.
    Dir(DirSource),
    /// A parsed package index.
    Vpk(VpkSource),
    /// An in-memory source.
    Mem(MemSource),
}

impl AssetSource for Source {
    open spec fn modeled(&self) -> bool {
        match self {
            Source::Dir(s) => s.modeled(),
            Source::Vpk(s) => s.modeled(),
            Source::Mem(s) => s.modeled(),
        }
    }

    open spec fn answer(&self, path: Seq<char>) -> Answer {
        match self {
            Source::Dir(s) => s.answer(path),
            Source::Vpk(s) => s.answer(path),
            Source::Mem(s) => s.answer(path),
        }
    }

    fn has(&self, path: &str) -> (r: Result<bool, LoaderError>)
        ensures
            self.modeled() ==> has_matches(self.answer(path@), r),
    {
        match self {
            Source::Dir(s) => s.has(path),
            Source::Vpk(s) => s.has(path),
            Source::Mem(s) => s.has(path),
        }
    }

    fn load(&self, path: &str) -> (r: Result<Option<Vec<u8>>, LoaderError>)
        ensures
            self.modeled() ==> load_matches(self.answer(path@), r),
    {
        match self {
            Source::Dir(s) => s.load(path),
            Source::Vpk(s) => s.load(path),
            Source::Mem(s) => s.load(path),
        }
    }
}

} // verus!
