//! The lookup policy's guarantees, stated and proved over the loader's
//! specification-level model.

use vstd::prelude::*;
use crate::paths::{clean, lower};
use crate::source::{Answer, AssetSource, Source};
use crate::{find_first_hit, lemma_scan_all_miss, lemma_scan_first_decides, two_pass_spec};

verus! {

/// Priority ordering: when every source before position `i` misses a
/// path and source `i` holds bytes for it, looking the path up yields
/// exactly source `i`'s bytes — whatever the sources after `i` hold,
/// and however the loader was grown to that list.
pub proof fn lemma_priority_order(srcs: Seq<Source>, path: Seq<char>, i: int, bytes: Seq<u8>)
    requires
        0 <= i < srcs.len(),
        srcs[i].answer(path) == Answer::Hit(bytes),
        forall|j: int| 0 <= j < i ==> (#[trigger] srcs[j]).answer(path) is Miss,
    ensures
        two_pass_spec(srcs, path) == Answer::Hit(bytes),
{
    lemma_scan_first_decides(srcs, path, i);
}

/// A miss is absent, not an error: when every source misses the path
/// under both the exact-case and the lowercased form, the lookup's
/// outcome is a plain miss. This is also the whole extent of the case
/// fallback: a source holding the asset only under a third casing —
/// neither the path as given nor its full lowercase form — is never
/// consulted under that casing, so the lookup still misses.
pub proof fn lemma_miss_is_absent(srcs: Seq<Source>, path: Seq<char>)
    requires
        forall|j: int| 0 <= j < srcs.len() ==> (#[trigger] srcs[j]).answer(path) is Miss,
        forall|j: int| 0 <= j < srcs.len() ==> (#[trigger] srcs[j]).answer(lower(path)) is Miss,
    ensures
        two_pass_spec(srcs, path) is Miss,
{
    lemma_scan_all_miss(srcs, path);
    if path != lower(path) {
        lemma_scan_all_miss(srcs, lower(path));
    }
}

/// Case-insensitive fallback: when every source misses the exact-case
/// path, the path differs from its lowercase form, and source `i` is
/// the first to hold the lowercased path, the lookup yields source
/// `i`'s bytes through the second pass.
pub proof fn lemma_case_fallback(srcs: Seq<Source>, path: Seq<char>, i: int, bytes: Seq<u8>)
    requires
        path != lower(path),
        forall|j: int| 0 <= j < srcs.len() ==> (#[trigger] srcs[j]).answer(path) is Miss,
        0 <= i < srcs.len(),
        srcs[i].answer(lower(path)) == Answer::Hit(bytes),
        forall|j: int| 0 <= j < i ==> (#[trigger] srcs[j]).answer(lower(path)) is Miss,
    ensures
        two_pass_spec(srcs, path) == Answer::Hit(bytes),
{
    lemma_scan_all_miss(srcs, path);
    lemma_scan_first_decides(srcs, lower(path), i);
}

/// Error propagation aborts the scan: when every source before
/// position `i` misses the path and source `i` fails on it, the whole
/// lookup fails — even when a source after `i` holds the path.
pub proof fn lemma_error_aborts(srcs: Seq<Source>, path: Seq<char>, i: int)
    requires
        0 <= i < srcs.len(),
        forall|j: int| 0 <= j < i ==> (#[trigger] srcs[j]).answer(path) is Miss,
        srcs[i].answer(path) is Fail,
    ensures
        two_pass_spec(srcs, path) is Fail,
{
    lemma_scan_first_decides(srcs, path, i);
}

/// The multi-base-path search swallows lookup errors: a candidate
/// whose lookup fails — not only one that misses — is passed over, and
/// the first candidate whose lookup hits is returned, here `k`'s
/// cleaned concatenation.
pub proof fn lemma_find_swallows_errors(
    srcs: Seq<Source>,
    prefixes: Seq<Seq<char>>,
    name: Seq<char>,
    k: int,
)
    requires
        0 <= k < prefixes.len(),
        forall|j: int|
            0 <= j < k ==> !(two_pass_spec(srcs, clean(#[trigger] prefixes[j] + name)) is Hit),
        two_pass_spec(srcs, clean(prefixes[k] + name)) is Hit,
    ensures
        find_first_hit(srcs, prefixes, name) == Some(clean(prefixes[k] + name)),
    decreases k,
{
    if k == 0 {
    } else {
        assert(forall|j: int|
            0 <= j < prefixes.drop_first().len() ==> prefixes.drop_first()[j] == prefixes[j + 1]);
        assert(forall|j: int|
            0 <= j < k - 1 ==> !(two_pass_spec(
                srcs,
                clean(#[trigger] prefixes.drop_first()[j] + name),
            ) is Hit)) by {
            assert(forall|j: int|
                0 <= j < k - 1 ==> prefixes.drop_first()[j] == prefixes[j + 1]);
        }
        lemma_find_swallows_errors(srcs, prefixes.drop_first(), name, k - 1);
    }
}

} // verus!
