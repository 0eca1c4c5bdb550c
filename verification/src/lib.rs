//! Asset lookup for a game's content tree.
//!
//! A [`Loader`] owns an ordered list of asset sources and answers
//! existence and load queries for relative asset paths, trying each
//! source in priority order with an ASCII-lowercase fallback pass.

use vstd::prelude::*;
use std::sync::Arc;

pub mod discover;
pub mod laws;
pub mod paths;
pub mod source;

pub use discover::tf2_path;
pub use paths::clean_path;
pub use source::AssetSource;
use paths::{clean, join_path, lower, spec_join_path, views_of};
use source::{has_matches, load_matches, Answer, DirSource, Source, VpkSource};

verus! {

#[verifier::external_type_specification]
#[verifier::external_body]
pub struct ExIoError(std::io::Error);

/// The unified error type at the loader's public boundary.
#[derive(Debug)]
pub enum LoaderError {
    /// The game's install directory could not be determined.
    Tf2NotFound,
    /// An underlying filesystem or stream failure other than "not
    /// found" for the path being probed.
    Io(std::io::Error),
    /// A normalized failure from a backend whose own failures do not
    /// map onto the variants above, as a description.
    Other(String),
}

impl From<std::io::Error> for LoaderError {
    fn from(e: std::io::Error) -> (r: LoaderError) {
        LoaderError::Io(e)
    }
}

impl vstd::std_specs::convert::FromSpecImpl<std::io::Error> for LoaderError {
    open spec fn obeys_from_spec() -> bool {
        true
    }

    open spec fn from_spec(e: std::io::Error) -> LoaderError {
        LoaderError::Io(e)
    }
}

/// What scanning the sources in priority order for one path yields: the
/// first non-miss answer decides, a full scan of misses is a miss.
pub open spec fn scan_spec(srcs: Seq<Source>, path: Seq<char>) -> Answer
    decreases srcs.len(),
{
    if srcs.len() == 0 {
        Answer::Miss
    } else {
        match srcs[0].answer(path) {
            Answer::Hit(bytes) => Answer::Hit(bytes),
            Answer::Fail => Answer::Fail,
            Answer::Miss => scan_spec(srcs.drop_first(), path),
        }
    }
}

/// The loader's lookup policy for an already-cleaned path: a full
/// exact-case scan, then — only on a full miss, and only when the path
/// differs from its ASCII-lowercase form — one more scan with the
/// lowercased path.
pub open spec fn two_pass_spec(srcs: Seq<Source>, cleaned: Seq<char>) -> Answer {
    let first = scan_spec(srcs, cleaned);
    if !(first is Miss) {
        first
    } else if cleaned != lower(cleaned) {
        scan_spec(srcs, lower(cleaned))
    } else {
        Answer::Miss
    }
}

/// Every source's contents are fully known at the specification level.
pub open spec fn all_modeled(srcs: Seq<Source>) -> bool {
    forall|i: int| 0 <= i < srcs.len() ==> (#[trigger] srcs[i]).modeled()
}

/// The source is a directory backend over the given base path.
pub open spec fn is_dir_src(s: Source, base: Seq<char>) -> bool {
    s matches Source::Dir(d) && d.base@ == base
}

/// Every source from position `k` on is a package-index backend.
pub open spec fn all_vpk_from(srcs: Seq<Source>, k: int) -> bool {
    forall|i: int| k <= i < srcs.len() ==> (#[trigger] srcs[i]) is Vpk
}

/// The default source list for an install root: the game content
/// directory, the base engine content directory, then optionally the
/// downloaded-content directory, then only package-index sources.
pub open spec fn default_layout(srcs: Seq<Source>, root: Seq<char>) -> bool {
    let tf = spec_join_path(root, "tf"@);
    let hl = spec_join_path(root, "hl2"@);
    let dl = spec_join_path(tf, "download"@);
    &&& srcs.len() >= 2
    &&& is_dir_src(srcs[0], tf)
    &&& is_dir_src(srcs[1], hl)
    &&& (all_vpk_from(srcs, 2) || (srcs.len() >= 3 && is_dir_src(srcs[2], dl) && all_vpk_from(
        srcs,
        3,
    )))
}

pub proof fn lemma_scan_all_miss(srcs: Seq<Source>, path: Seq<char>)
    requires
        forall|j: int| 0 <= j < srcs.len() ==> (#[trigger] srcs[j]).answer(path) is Miss,
    ensures
        scan_spec(srcs, path) is Miss,
    decreases srcs.len(),
{
    if srcs.len() > 0 {
        assert(forall|j: int|
            0 <= j < srcs.drop_first().len() ==> (#[trigger] srcs.drop_first()[j]).answer(path)
                is Miss) by {
            assert(forall|j: int|
                0 <= j < srcs.drop_first().len() ==> srcs.drop_first()[j] == srcs[j + 1]);
        }
        lemma_scan_all_miss(srcs.drop_first(), path);
    }
}

pub proof fn lemma_scan_first_decides(srcs: Seq<Source>, path: Seq<char>, i: int)
    requires
        0 <= i < srcs.len(),
        forall|j: int| 0 <= j < i ==> (#[trigger] srcs[j]).answer(path) is Miss,
        !(srcs[i].answer(path) is Miss),
    ensures
        scan_spec(srcs, path) == srcs[i].answer(path),
    decreases i,
{
    if i > 0 {
        assert(forall|j: int|
            0 <= j < i - 1 ==> (#[trigger] srcs.drop_first()[j]).answer(path) is Miss) by {
            assert(forall|j: int|
                0 <= j < srcs.drop_first().len() ==> srcs.drop_first()[j] == srcs[j + 1]);
        }
        assert(srcs.drop_first()[i - 1] == srcs[i]);
        lemma_scan_first_decides(srcs.drop_first(), path, i - 1);
    }
}

/// What the multi-base-path search yields in one pass: for each prefix
/// in order, the prefix is glued directly onto the name (callers supply
/// trailing separators), the result is cleaned, and the first candidate
/// whose lookup hits is returned. A candidate whose lookup fails counts
/// as a miss, not as an error.
pub open spec fn find_first_hit(srcs: Seq<Source>, prefixes: Seq<Seq<char>>, name: Seq<char>) -> Option<
    Seq<char>,
>
    decreases prefixes.len(),
{
    if prefixes.len() == 0 {
        None
    } else {
        let cand = clean(prefixes[0] + name);
        if two_pass_spec(srcs, cand) is Hit {
            Some(cand)
        } else {
            find_first_hit(srcs, prefixes.drop_first(), name)
        }
    }
}

/// What the multi-base-path search yields: one pass with the name as
/// given, then — only when the name differs from its lowercase form —
/// one more pass with the lowercased name.
pub open spec fn find_spec(srcs: Seq<Source>, prefixes: Seq<Seq<char>>, name: Seq<char>) -> Option<
    Seq<char>,
> {
    match find_first_hit(srcs, prefixes, name) {
        Some(p) => Some(p),
        None => if name != lower(name) {
            find_first_hit(srcs, prefixes, lower(name))
        } else {
            None
        },
    }
}

/// The found path reads as the specification's found path.
pub open spec fn opt_str_matches(r: Option<String>, s: Option<Seq<char>>) -> bool {
    match r {
        Some(p) => s matches Some(q) && p@ == q,
        None => s is None,
    }
}

/// The asset loader: an ordered, append-only list of shared sources.
/// First hit wins; a source's error aborts the whole lookup.
#[derive(Clone, Debug)]
pub struct Loader {
    sources: Vec<Arc<Source>>,
}

impl Loader {
    /// The sources, in priority order.
    pub closed spec fn srcs(&self) -> Seq<Source> {
        self.sources@.map_values(|a: Arc<Source>| *a)
    }

    /// Append a caller-supplied source at the end of the priority list.
    pub fn add_source(&mut self, source: Source)
        ensures
            final(self).srcs() == old(self).srcs().push(source),
    {
        let ghost pre = self.srcs();
        let ghost gsource = source;
        self.sources.push(Arc::new(source));
        proof {
            assert(self.srcs() =~= pre.push(gsource));
        }
    }

    /// Check whether any source holds the path, after cleaning it, with
    /// the lowercase fallback pass. Errors from a source propagate
    /// immediately and abort the scan.
    pub fn has(&self, name: &str) -> (r: Result<bool, LoaderError>)
        ensures
            all_modeled(self.srcs()) ==> has_matches(two_pass_spec(self.srcs(), clean(name@)), r),
            r matches Ok(b) && b == false ==> forall|i: int|
                0 <= i < self.srcs().len() && (#[trigger] self.srcs()[i]).modeled() ==> (self.srcs(
                )[i].answer(clean(name@)) is Miss && self.srcs()[i].answer(lower(clean(name@)))
                    is Miss),
    {
        let cleaned = clean_path(name);
        let ghost srcs = self.srcs();
        let ghost cpath = clean(name@);
        let mut i: usize = 0;
        while i < self.sources.len()
            invariant
                srcs == self.srcs(),
                cpath == clean(name@),
                cleaned@ == cpath,
                self.sources@.len() == srcs.len(),
                i <= srcs.len(),
                forall|j: int|
                    0 <= j < i && (#[trigger] srcs[j]).modeled() ==> srcs[j].answer(cpath) is Miss,
            decreases srcs.len() - i,
        {
            let s: &Source = &*self.sources[i];
            proof {
                assert(*self.sources@[i as int] == srcs[i as int]);
            }
            match s.has(cleaned.as_str()) {
                Ok(true) => {
                    proof {
                        if all_modeled(srcs) {
                            lemma_scan_first_decides(srcs, cpath, i as int);
                        }
                    }
                    return Ok(true);
                },
                Ok(false) => {},
                Err(e) => {
                    proof {
                        if all_modeled(srcs) {
                            lemma_scan_first_decides(srcs, cpath, i as int);
                        }
                    }
                    return Err(e);
                },
            }
            i += 1;
        }
        proof {
            if all_modeled(srcs) {
                lemma_scan_all_miss(srcs, cpath);
            }
        }
        let low = paths::to_lower(cleaned.as_str());
        if !paths::str_eq(cleaned.as_str(), low.as_str()) {
            let mut k: usize = 0;
            while k < self.sources.len()
                invariant
                    srcs == self.srcs(),
                    cpath == clean(name@),
                    cleaned@ == cpath,
                    low@ == lower(cpath),
                    cpath != lower(cpath),
                    self.sources@.len() == srcs.len(),
                    k <= srcs.len(),
                    forall|j: int|
                        0 <= j < srcs.len() && (#[trigger] srcs[j]).modeled() ==> srcs[j].answer(
                            cpath,
                        ) is Miss,
                    forall|j: int|
                        0 <= j < k && (#[trigger] srcs[j]).modeled() ==> srcs[j].answer(low@)
                            is Miss,
                decreases srcs.len() - k,
            {
                let s: &Source = &*self.sources[k];
                proof {
                    assert(*self.sources@[k as int] == srcs[k as int]);
                }
                match s.has(low.as_str()) {
                    Ok(true) => {
                        proof {
                            if all_modeled(srcs) {
                                lemma_scan_all_miss(srcs, cpath);
                                lemma_scan_first_decides(srcs, lower(cpath), k as int);
                            }
                        }
                        return Ok(true);
                    },
                    Ok(false) => {},
                    Err(e) => {
                        proof {
                            if all_modeled(srcs) {
                                lemma_scan_all_miss(srcs, cpath);
                                lemma_scan_first_decides(srcs, lower(cpath), k as int);
                            }
                        }
                        return Err(e);
                    },
                }
                k += 1;
            }
            proof {
                if all_modeled(srcs) {
                    lemma_scan_all_miss(srcs, cpath);
                    lemma_scan_all_miss(srcs, lower(cpath));
                }
            }
            Ok(false)
        } else {
            proof {
                if all_modeled(srcs) {
                    lemma_scan_all_miss(srcs, cpath);
                }
            }
            Ok(false)
        }
    }

    /// Load the path's bytes from the first source that holds it, after
    /// cleaning the path, with the lowercase fallback pass. A path no
    /// source holds is `Ok(None)`; a source's error propagates
    /// immediately and aborts the scan.
    pub fn load(&self, name: &str) -> (r: Result<Option<Vec<u8>>, LoaderError>)
        ensures
            all_modeled(self.srcs()) ==> load_matches(two_pass_spec(self.srcs(), clean(name@)), r),
            r matches Ok(d) && d is None ==> forall|i: int|
                0 <= i < self.srcs().len() && (#[trigger] self.srcs()[i]).modeled() ==> (self.srcs(
                )[i].answer(clean(name@)) is Miss && self.srcs()[i].answer(lower(clean(name@)))
                    is Miss),
    {
        let cleaned = clean_path(name);
        let ghost srcs = self.srcs();
        let ghost cpath = clean(name@);
        let mut i: usize = 0;
        while i < self.sources.len()
            invariant
                srcs == self.srcs(),
                cpath == clean(name@),
                cleaned@ == cpath,
                self.sources@.len() == srcs.len(),
                i <= srcs.len(),
                forall|j: int|
                    0 <= j < i && (#[trigger] srcs[j]).modeled() ==> srcs[j].answer(cpath) is Miss,
            decreases srcs.len() - i,
        {
            let s: &Source = &*self.sources[i];
            proof {
                assert(*self.sources@[i as int] == srcs[i as int]);
            }
            match s.load(cleaned.as_str()) {
                Ok(Some(data)) => {
                    proof {
                        if all_modeled(srcs) {
                            lemma_scan_first_decides(srcs, cpath, i as int);
                        }
                    }
                    return Ok(Some(data));
                },
                Ok(None) => {},
                Err(e) => {
                    proof {
                        if all_modeled(srcs) {
                            lemma_scan_first_decides(srcs, cpath, i as int);
                        }
                    }
                    return Err(e);
                },
            }
            i += 1;
        }
        proof {
            if all_modeled(srcs) {
                lemma_scan_all_miss(srcs, cpath);
            }
        }
        let low = paths::to_lower(cleaned.as_str());
        if !paths::str_eq(cleaned.as_str(), low.as_str()) {
            let mut k: usize = 0;
            while k < self.sources.len()
                invariant
                    srcs == self.srcs(),
                    cpath == clean(name@),
                    cleaned@ == cpath,
                    low@ == lower(cpath),
                    cpath != lower(cpath),
                    self.sources@.len() == srcs.len(),
                    k <= srcs.len(),
                    forall|j: int|
                        0 <= j < srcs.len() && (#[trigger] srcs[j]).modeled() ==> srcs[j].answer(
                            cpath,
                        ) is Miss,
                    forall|j: int|
                        0 <= j < k && (#[trigger] srcs[j]).modeled() ==> srcs[j].answer(low@)
                            is Miss,
                decreases srcs.len() - k,
            {
                let s: &Source = &*self.sources[k];
                proof {
                    assert(*self.sources@[k as int] == srcs[k as int]);
                }
                match s.load(low.as_str()) {
                    Ok(Some(data)) => {
                        proof {
                            if all_modeled(srcs) {
                                lemma_scan_all_miss(srcs, cpath);
                                lemma_scan_first_decides(srcs, lower(cpath), k as int);
                            }
                        }
                        return Ok(Some(data));
                    },
                    Ok(None) => {},
                    Err(e) => {
                        proof {
                            if all_modeled(srcs) {
                                lemma_scan_all_miss(srcs, cpath);
                                lemma_scan_first_decides(srcs, lower(cpath), k as int);
                            }
                        }
                        return Err(e);
                    },
                }
                k += 1;
            }
            proof {
                if all_modeled(srcs) {
                    lemma_scan_all_miss(srcs, cpath);
                    lemma_scan_all_miss(srcs, lower(cpath));
                }
            }
            Ok(None)
        } else {
            proof {
                if all_modeled(srcs) {
                    lemma_scan_all_miss(srcs, cpath);
                }
            }
            Ok(None)
        }
    }

    /// Search for the name under each candidate prefix in order: the
    /// prefix is glued directly onto the name (no separator is
    /// inserted), the result is cleaned and looked up; the first
    /// candidate that hits is returned. Lookup errors are swallowed and
    /// count as misses, and a second pass retries every prefix with the
    /// lowercased name when it differs.
    pub fn find_in_paths(&self, name: &str, paths: &[String]) -> (r: Option<String>)
        ensures
            all_modeled(self.srcs()) ==> opt_str_matches(
                r,
                find_spec(self.srcs(), views_of(paths@), name@),
            ),
            r matches Some(p) ==> exists|i: int|
                0 <= i < paths@.len() && (p@ == clean(#[trigger] paths@[i]@ + name@) || p@ == clean(
                    paths@[i]@ + lower(name@),
                )),
    {
        let ghost srcs = self.srcs();
        let ghost prefixes = views_of(paths@);
        let mut i: usize = 0;
        proof {
            assert(prefixes.skip(0) =~= prefixes);
        }
        while i < paths.len()
            invariant
                srcs == self.srcs(),
                prefixes == views_of(paths@),
                paths@.len() == prefixes.len(),
                i <= prefixes.len(),
                all_modeled(srcs) ==> find_first_hit(srcs, prefixes, name@) == find_first_hit(
                    srcs,
                    prefixes.skip(i as int),
                    name@,
                ),
            decreases prefixes.len() - i,
        {
            let full = paths::concat_str(paths[i].as_str(), name);
            let cand = clean_path(full.as_str());
            proof {
                paths::lemma_clean_idempotent(full@);
                assert(prefixes.skip(i as int)[0] == paths@[i as int]@);
                assert(prefixes.skip(i as int).drop_first() =~= prefixes.skip(i as int + 1));
            }
            match self.has(cand.as_str()) {
                Ok(true) => {
                    return Some(cand);
                },
                _ => {},
            }
            i += 1;
        }
        proof {
            assert(prefixes.skip(prefixes.len() as int) =~= Seq::<Seq<char>>::empty());
        }
        let low = paths::to_lower(name);
        if !paths::str_eq(name, low.as_str()) {
            let mut k: usize = 0;
            proof {
                assert(prefixes.skip(0) =~= prefixes);
            }
            while k < paths.len()
                invariant
                    srcs == self.srcs(),
                    prefixes == views_of(paths@),
                    paths@.len() == prefixes.len(),
                    k <= prefixes.len(),
                    low@ == lower(name@),
                    name@ != lower(name@),
                    all_modeled(srcs) ==> find_first_hit(srcs, prefixes, name@) is None,
                    all_modeled(srcs) ==> find_first_hit(srcs, prefixes, low@) == find_first_hit(
                        srcs,
                        prefixes.skip(k as int),
                        low@,
                    ),
                decreases prefixes.len() - k,
            {
                let full = paths::concat_str(paths[k].as_str(), low.as_str());
                let cand = clean_path(full.as_str());
                proof {
                    paths::lemma_clean_idempotent(full@);
                    assert(prefixes.skip(k as int)[0] == paths@[k as int]@);
                    assert(prefixes.skip(k as int).drop_first() =~= prefixes.skip(k as int + 1));
                }
                match self.has(cand.as_str()) {
                    Ok(true) => {
                        return Some(cand);
                    },
                    _ => {},
                }
                k += 1;
            }
            proof {
                assert(prefixes.skip(prefixes.len() as int) =~= Seq::<Seq<char>>::empty());
            }
            None
        } else {
            None
        }
    }
}

/// Build the default source list for the derived content directories:
/// the game content directory first, the base engine content directory
/// second, the downloaded-content directory third exactly when it was
/// present at construction time, and then every discovered package
/// index, in discovery order.
pub fn assemble_sources(
    tf_dir: String,
    hl_dir: String,
    download_dir: String,
    download_present: bool,
    vpks: Vec<VpkSource>,
) -> (r: Vec<Arc<Source>>)
    ensures
        r@.len() == (if download_present {
            3int
        } else {
            2int
        }) + vpks@.len(),
        is_dir_src(*r@[0], tf_dir@),
        is_dir_src(*r@[1], hl_dir@),
        download_present ==> is_dir_src(*r@[2], download_dir@),
        forall|k: int|
            0 <= k < vpks@.len() ==> *r@[(if download_present {
                3int
            } else {
                2int
            }) + k] == Source::Vpk(#[trigger] vpks@[k]),
{
    let ghost orig = vpks@;
    let mut sources: Vec<Arc<Source>> = Vec::new();
    sources.push(Arc::new(Source::Dir(DirSource { base: tf_dir })));
    sources.push(Arc::new(Source::Dir(DirSource { base: hl_dir })));
    if download_present {
        sources.push(Arc::new(Source::Dir(DirSource { base: download_dir })));
    }
    let ghost base: int = if download_present {
        3int
    } else {
        2int
    };
    let mut vpks = vpks;
    let ghost mut j: int = 0;
    while vpks.len() > 0
        invariant
            sources@.len() == base + j,
            0 <= j,
            j + vpks@.len() == orig.len(),
            base == if download_present {
                3int
            } else {
                2int
            },
            forall|m: int| 0 <= m < vpks@.len() ==> vpks@[m] == orig[j + m],
            is_dir_src(*sources@[0], tf_dir@),
            is_dir_src(*sources@[1], hl_dir@),
            download_present ==> is_dir_src(*sources@[2], download_dir@),
            forall|k: int| 0 <= k < j ==> *sources@[base + k] == Source::Vpk(#[trigger] orig[k]),
        decreases vpks@.len(),
    {
        let ghost before = vpks@;
        let v = vpks.remove(0);
        proof {
            assert(v == orig[j]);
            before.remove_ensures(0);
            assert(forall|m: int| 0 <= m < vpks@.len() ==> vpks@[m] == orig[j + 1 + m]);
        }
        sources.push(Arc::new(Source::Vpk(v)));
        proof {
            j = j + 1;
        }
    }
    sources
}

impl Loader {
    /// Create the loader for an explicit install root: derive the game
    /// content directory (`tf`), the base engine content directory
    /// (`hl2`) and the downloaded-content directory (`tf/download`),
    /// scan the two content directories for `dir.vpk` package indexes
    /// and assemble the default source list in its fixed priority
    /// order. The scan is the composition of contracted steps:
    /// [`paths::dirvpk_candidates`] keeps exactly the `dir.vpk` entries
    /// of each listing in order, [`source::open_packages`] keeps each
    /// successful parse in that order (a failed parse is skipped, never
    /// fatal), and [`assemble_sources`] pins every position of the
    /// final list.
    pub fn with_tf2_dir(tf2_dir: &str) -> (r: Result<Loader, LoaderError>)
        ensures
            r matches Ok(l) ==> default_layout(l.srcs(), tf2_dir@),
            r matches Err(e) ==> e is Io,
    {
        let tf_dir = join_path(tf2_dir, "tf");
        let hl_dir = join_path(tf2_dir, "hl2");
        let download_dir = join_path(tf_dir.as_str(), "download");

        let tf_entries = match source::list_dir(tf_dir.as_str()) {
            Ok(entries) => entries,
            Err(e) => {
                return Err(e);
            },
        };
        let hl_entries = match source::list_dir(hl_dir.as_str()) {
            Ok(entries) => entries,
            Err(e) => {
                return Err(e);
            },
        };

        let mut candidates = paths::dirvpk_candidates(&tf_entries);
        let mut hl_candidates = paths::dirvpk_candidates(&hl_entries);
        candidates.append(&mut hl_candidates);
        let vpks = source::open_packages(&candidates);

        let download_present = source::fs_path_exists(download_dir.as_str());
        let ghost gpresent = download_present;
        let ghost gvpks = vpks@;
        let sources = assemble_sources(tf_dir, hl_dir, download_dir, download_present, vpks);
        let loader = Loader { sources };
        proof {
            let srcs = loader.srcs();
            assert(srcs.len() == sources@.len());
            assert(forall|k: int| 0 <= k < srcs.len() ==> srcs[k] == *sources@[k]);
            let b: int = if gpresent {
                3int
            } else {
                2int
            };
            assert(srcs.len() == b + gvpks.len());
            assert forall|k: int| b <= k < srcs.len() implies (#[trigger] srcs[k]) is Vpk by {
                let kk = k - b;
                assert(*sources@[b + kk] == Source::Vpk(gvpks[kk]));
                assert(srcs[k] == *sources@[k]);
            }
        }
        Ok(loader)
    }

    /// Create the loader, discovering the install root from the
    /// environment override or the platform client's metadata.
    pub fn new() -> (r: Result<Loader, LoaderError>)
        ensures
            r matches Ok(l) ==> exists|root: Seq<char>| #[trigger] default_layout(l.srcs(), root),
            r matches Err(e) ==> (e is Tf2NotFound || e is Io),
    {
        match discover::tf2_path() {
            Ok(dir) => {
                let built = Self::with_tf2_dir(dir.as_str());
                proof {
                    match &built {
                        Ok(l) => {
                            assert(default_layout(l.srcs(), dir@));
                        },
                        Err(_) => {},
                    }
                }
                built
            },
            Err(e) => Err(e),
        }
    }
}

} // verus!
