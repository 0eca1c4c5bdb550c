//! Logical asset paths and their normalization.
//!
//! An asset path is a forward-slash separated string. Lookup applies two
//! normalizations: collapsing embedded `..` segments against a synthetic
//! root (only when the literal substring `/../` occurs), and an
//! ASCII-lowercase fallback when the exact-case lookup misses.

use vstd::prelude::*;
use vstd::string::*;

verus! {

/// True when `c` is an ASCII uppercase letter.
pub open spec fn is_upper(c: char) -> bool {
    'A' <= c && c <= 'Z'
}

/// The ASCII-lowercased form of one character.
pub open spec fn lower_char(c: char) -> char {
    if is_upper(c) {
        (((c as u32) + 32) as u8) as char
    } else {
        c
    }
}

/// The ASCII-lowercased form of a string.
pub open spec fn lower(s: Seq<char>) -> Seq<char> {
    s.map_values(|c: char| lower_char(c))
}

/// ASCII-lowercase a single character.
pub fn char_to_lower(c: char) -> (r: char)
    ensures
        r == lower_char(c),
{
    let u = c as u32;
    if 65 <= u && u < 91 {
        ((u + 32) as u8) as char
    } else {
        c
    }
}

/// Relies on std's `String::push`: appends exactly one character at the end.
#[verifier::external_body]
fn push_char(s: &mut String, c: char)
    ensures
        final(s)@ == old(s)@.push(c),
{
    s.push(c);
}

/// ASCII-lowercase a whole string, leaving every other character unchanged.
pub fn to_lower(s: &str) -> (r: String)
    ensures
        r@ == lower(s@),
{
    let n = s.unicode_len();
    let mut out = String::new();
    let mut i: usize = 0;
    while i < n
        invariant
            n == s@.len(),
            i <= n,
            out@ == lower(s@.subrange(0, i as int)),
        decreases n - i,
    {
        let c = s.get_char(i);
        let l = char_to_lower(c);
        push_char(&mut out, l);
        proof {
            assert(s@.subrange(0, i + 1 as int) =~= s@.subrange(0, i as int).push(s@[i as int]));
            assert(lower(s@.subrange(0, i + 1 as int)) =~= lower(s@.subrange(0, i as int)).push(
                lower_char(s@[i as int]),
            ));
        }
        i += 1;
    }
    proof {
        assert(s@.subrange(0, n as int) =~= s@);
    }
    out
}

/// Compare two string slices character by character.
pub fn str_eq(a: &str, b: &str) -> (r: bool)
    ensures
        r == (a@ == b@),
{
    let na = a.unicode_len();
    let nb = b.unicode_len();
    if na != nb {
        return false;
    }
    let mut i: usize = 0;
    while i < na
        invariant
            na == a@.len(),
            na == b@.len(),
            i <= na,
            forall|j: int| 0 <= j < i ==> a@[j] == b@[j],
        decreases na - i,
    {
        let ca = a.get_char(i);
        let cb = b.get_char(i);
        if ca != cb {
            return false;
        }
        i += 1;
    }
    proof {
        assert(a@ =~= b@);
    }
    true
}

/// Concatenate two strings.
pub fn concat_str(a: &str, b: &str) -> (r: String)
    ensures
        r@ == a@ + b@,
{
    let mut out = a.to_owned();
    out.append(b);
    out
}

/// A `/../` occurrence starts at index `j`.
pub open spec fn updir_at(s: Seq<char>, j: int) -> bool {
    &&& s[j] == '/'
    &&& s[j + 1] == '.'
    &&& s[j + 2] == '.'
    &&& s[j + 3] == '/'
}

/// The path contains the literal substring `/../` somewhere.
pub open spec fn has_updir(s: Seq<char>) -> bool {
    exists|j: int| 0 <= j && j + 4 <= s.len() && #[trigger] updir_at(s, j)
}

/// Scan for the literal substring `/../`.
pub fn contains_updir(s: &str) -> (r: bool)
    ensures
        r == has_updir(s@),
{
    let n = s.unicode_len();
    if n < 4 {
        return false;
    }
    let mut i: usize = 0;
    while i <= n - 4
        invariant
            4 <= n,
            n == s@.len(),
            i <= n - 3,
            forall|j: int| 0 <= j < i ==> !updir_at(s@, j),
        decreases n - i,
    {
        let c0 = s.get_char(i);
        let c1 = s.get_char(i + 1);
        let c2 = s.get_char(i + 2);
        let c3 = s.get_char(i + 3);
        if c0 == '/' && c1 == '.' && c2 == '.' && c3 == '/' {
            proof {
                assert(updir_at(s@, i as int));
            }
            return true;
        }
        i += 1;
    }
    false
}

/// The segments of a path: the text between consecutive separators,
/// including empty segments.
pub open spec fn split_slash(s: Seq<char>) -> Seq<Seq<char>>
    decreases s.len(),
{
    if s.len() == 0 {
        seq![Seq::<char>::empty()]
    } else if s.last() == '/' {
        split_slash(s.drop_last()).push(Seq::<char>::empty())
    } else {
        let rest = split_slash(s.drop_last());
        rest.update(rest.len() - 1, rest.last().push(s.last()))
    }
}

pub open spec fn dot() -> Seq<char> {
    seq!['.']
}

pub open spec fn dotdot() -> Seq<char> {
    seq!['.', '.']
}

/// Collapse `.`/`..` path segments against a synthetic root: empty and `.`
/// segments vanish, `..` removes the previous kept segment and vanishes at
/// the root instead of climbing above it.
pub open spec fn collapse(segs: Seq<Seq<char>>) -> Seq<Seq<char>>
    decreases segs.len(),
{
    if segs.len() == 0 {
        Seq::empty()
    } else {
        let prefix = collapse(segs.drop_last());
        let last = segs.last();
        if last.len() == 0 || last == dot() {
            prefix
        } else if last == dotdot() {
            if prefix.len() == 0 {
                prefix
            } else {
                prefix.drop_last()
            }
        } else {
            prefix.push(last)
        }
    }
}

/// Join segments back with `/` separators.
pub open spec fn join_slash(segs: Seq<Seq<char>>) -> Seq<char>
    decreases segs.len(),
{
    if segs.len() == 0 {
        Seq::empty()
    } else if segs.len() == 1 {
        segs[0]
    } else {
        join_slash(segs.drop_last()) + seq!['/'] + segs.last()
    }
}

/// What cleaning a path yields: paths holding an embedded `/../` are
/// resolved against a synthetic root; every other path is untouched.
pub open spec fn clean(s: Seq<char>) -> Seq<char> {
    if has_updir(s) {
        join_slash(collapse(split_slash(s)))
    } else {
        s
    }
}

/// The views of a sequence of owned strings.
pub open spec fn views_of(v: Seq<String>) -> Seq<Seq<char>> {
    v.map_values(|s: String| s@)
}

/// Split a path into its `/`-separated segments.
fn split_path(s: &str) -> (r: Vec<String>)
    ensures
        views_of(r@) == split_slash(s@),
{
    let n = s.unicode_len();
    let mut done: Vec<String> = Vec::new();
    let mut cur = String::new();
    let mut i: usize = 0;
    while i < n
        invariant
            n == s@.len(),
            i <= n,
            views_of(done@).push(cur@) == split_slash(s@.subrange(0, i as int)),
        decreases n - i,
    {
        let c = s.get_char(i);
        proof {
            assert(s@.subrange(0, i + 1 as int) =~= s@.subrange(0, i as int).push(s@[i as int]));
            assert(s@.subrange(0, i + 1 as int).drop_last() =~= s@.subrange(0, i as int));
        }
        if c == '/' {
            let ghost old_done = done@;
            let ghost old_cur = cur@;
            done.push(cur);
            cur = String::new();
            proof {
                assert(views_of(done@).push(cur@) =~= views_of(old_done).push(old_cur).push(
                    Seq::<char>::empty(),
                ));
            }
        } else {
            let ghost old_done = done@;
            let ghost old_cur = cur@;
            push_char(&mut cur, c);
            proof {
                let rest = split_slash(s@.subrange(0, i as int));
                assert(views_of(old_done).push(old_cur).last() == old_cur);
                assert(views_of(done@).push(cur@) =~= rest.update(
                    rest.len() - 1,
                    rest.last().push(s@[i as int]),
                ));
            }
        }
        i += 1;
    }
    proof {
        assert(s@.subrange(0, n as int) =~= s@);
    }
    done.push(cur);
    proof {
        assert(views_of(done@) =~= split_slash(s@));
    }
    done
}

/// True when the segment is empty or a lone `.`.
fn is_empty_or_dot(seg: &String) -> (r: bool)
    ensures
        r == (seg@.len() == 0 || seg@ == dot()),
{
    let n = seg.as_str().unicode_len();
    if n == 0 {
        true
    } else if n == 1 {
        let c = seg.as_str().get_char(0);
        if c == '.' {
            proof {
                assert(seg@ =~= dot());
            }
            true
        } else {
            proof {
                assert(seg@ != dot()) by {
                    assert(dot()[0] == '.');
                }
            }
            false
        }
    } else {
        proof {
            assert(seg@ != dot()) by {
                assert(dot().len() == 1);
            }
        }
        false
    }
}

/// True when the segment is exactly `..`.
fn is_dotdot(seg: &String) -> (r: bool)
    ensures
        r == (seg@ == dotdot()),
{
    let n = seg.as_str().unicode_len();
    if n == 2 {
        let c0 = seg.as_str().get_char(0);
        let c1 = seg.as_str().get_char(1);
        if c0 == '.' && c1 == '.' {
            proof {
                assert(seg@ =~= dotdot());
            }
            true
        } else {
            proof {
                assert(seg@ != dotdot()) by {
                    assert(dotdot()[0] == '.' && dotdot()[1] == '.');
                }
            }
            false
        }
    } else {
        proof {
            assert(seg@ != dotdot()) by {
                assert(dotdot().len() == 2);
            }
        }
        false
    }
}

/// Collapse the segment list with a stack, never popping past the root.
fn collapse_segments(segs: Vec<String>) -> (r: Vec<String>)
    ensures
        views_of(r@) == collapse(views_of(segs@)),
{
    let mut stack: Vec<String> = Vec::new();
    let mut i: usize = 0;
    while i < segs.len()
        invariant
            i <= segs@.len(),
            views_of(stack@) == collapse(views_of(segs@).subrange(0, i as int)),
        decreases segs@.len() - i,
    {
        let seg = &segs[i];
        proof {
            assert(views_of(segs@).subrange(0, i + 1 as int) =~= views_of(segs@).subrange(
                0,
                i as int,
            ).push(seg@));
            assert(views_of(segs@).subrange(0, i + 1 as int).drop_last() =~= views_of(
                segs@,
            ).subrange(0, i as int));
        }
        if is_empty_or_dot(seg) {
            // dropped
        } else if is_dotdot(seg) {
            if stack.len() > 0 {
                let ghost old_stack = stack@;
                let _popped = stack.pop();
                proof {
                    assert(views_of(stack@) =~= views_of(old_stack).drop_last());
                }
            }
        } else {
            let ghost old_stack = stack@;
            stack.push(seg.clone());
            proof {
                assert(views_of(stack@) =~= views_of(old_stack).push(seg@));
            }
        }
        i += 1;
    }
    proof {
        assert(views_of(segs@).subrange(0, segs@.len() as int) =~= views_of(segs@));
    }
    stack
}

/// Join segments back into one path.
fn join_segments(segs: Vec<String>) -> (r: String)
    ensures
        r@ == join_slash(views_of(segs@)),
{
    if segs.len() == 0 {
        return String::new();
    }
    let mut out: String = segs[0].clone();
    proof {
        assert(views_of(segs@).subrange(0, 1) =~= seq![segs@[0]@]);
    }
    let mut i: usize = 1;
    while i < segs.len()
        invariant
            1 <= i <= segs@.len(),
            out@ == join_slash(views_of(segs@).subrange(0, i as int)),
        decreases segs@.len() - i,
    {
        out.append("/");
        out.append(segs[i].as_str());
        proof {
            reveal_strlit("/");
            assert("/"@ =~= seq!['/']);
            assert(views_of(segs@).subrange(0, i + 1 as int) =~= views_of(segs@).subrange(
                0,
                i as int,
            ).push(segs@[i as int]@));
            assert(views_of(segs@).subrange(0, i + 1 as int).drop_last() =~= views_of(
                segs@,
            ).subrange(0, i as int));
        }
        i += 1;
    }
    proof {
        assert(views_of(segs@).subrange(0, segs@.len() as int) =~= views_of(segs@));
    }
    out
}

/// Normalize a lookup path.
///
/// Only a path holding the literal substring `/../` is rewritten: its
/// segments are collapsed against a synthetic root, so upward references
/// can never escape it. Any other path — including a bare leading `..`
/// not framed by slashes — is returned unchanged.
pub fn clean_path(path: &str) -> (r: String)
    ensures
        r@ == clean(path@),
{
    if contains_updir(path) {
        let segs = split_path(path);
        let collapsed = collapse_segments(segs);
        join_segments(collapsed)
    } else {
        path.to_owned()
    }
}

/// What joining a base directory with a relative path yields: an absolute
/// relative part replaces the base, anything else is appended after a
/// separator.
pub open spec fn spec_join_path(base: Seq<char>, rel: Seq<char>) -> Seq<char> {
    if rel.len() > 0 && rel[0] == '/' {
        rel
    } else {
        base + seq!['/'] + rel
    }
}

/// Join a base directory path with a relative path.
pub fn join_path(base: &str, rel: &str) -> (r: String)
    ensures
        r@ == spec_join_path(base@, rel@),
{
    let n = rel.unicode_len();
    if n > 0 {
        let c = rel.get_char(0);
        if c == '/' {
            return rel.to_owned();
        }
    }
    let mut out = base.to_owned();
    out.append("/");
    out.append(rel);
    proof {
        reveal_strlit("/");
        assert("/"@ =~= seq!['/']);
    }
    out
}

/// The segment holds no separator.
pub open spec fn slash_free(seg: Seq<char>) -> bool {
    forall|i: int| 0 <= i < seg.len() ==> #[trigger] seg[i] != '/'
}

/// A segment that survives collapsing: nonempty, not `.`, not `..`,
/// and without separators.
pub open spec fn kept_seg(seg: Seq<char>) -> bool {
    &&& seg.len() > 0
    &&& seg != dot()
    &&& seg != dotdot()
    &&& slash_free(seg)
}

proof fn lemma_split_len_pos(s: Seq<char>)
    ensures
        split_slash(s).len() >= 1,
    decreases s.len(),
{
    if s.len() > 0 {
        lemma_split_len_pos(s.drop_last());
    }
}

proof fn lemma_split_slash_free(s: Seq<char>)
    ensures
        forall|k: int| 0 <= k < split_slash(s).len() ==> slash_free(#[trigger] split_slash(s)[k]),
    decreases s.len(),
{
    if s.len() > 0 {
        lemma_split_slash_free(s.drop_last());
        lemma_split_len_pos(s.drop_last());
        let rest = split_slash(s.drop_last());
        let r = split_slash(s);
        if s.last() == '/' {
            assert forall|k: int| 0 <= k < r.len() implies slash_free(#[trigger] r[k]) by {
                if k < rest.len() {
                    assert(slash_free(rest[k]));
                }
            }
        } else {
            let newlast = rest.last().push(s.last());
            assert(slash_free(newlast)) by {
                assert(slash_free(rest[rest.len() - 1]));
                assert forall|i: int| 0 <= i < newlast.len() implies #[trigger] newlast[i] != '/' by {
                    if i < rest.last().len() {
                        assert(newlast[i] == rest[rest.len() - 1][i]);
                    }
                }
            }
            assert forall|k: int| 0 <= k < r.len() implies slash_free(#[trigger] r[k]) by {
                if k < rest.len() - 1 {
                    assert(r[k] == rest[k]);
                    assert(slash_free(rest[k]));
                } else {
                    assert(r[k] == newlast);
                }
            }
        }
    }
}

proof fn lemma_collapse_kept(segs: Seq<Seq<char>>)
    requires
        forall|k: int| 0 <= k < segs.len() ==> slash_free(#[trigger] segs[k]),
    ensures
        forall|k: int| 0 <= k < collapse(segs).len() ==> kept_seg(#[trigger] collapse(segs)[k]),
    decreases segs.len(),
{
    if segs.len() > 0 {
        assert(forall|k: int|
            0 <= k < segs.drop_last().len() ==> slash_free(#[trigger] segs.drop_last()[k]));
        lemma_collapse_kept(segs.drop_last());
        let prefix = collapse(segs.drop_last());
        let last = segs.last();
        if last.len() == 0 || last == dot() {
        } else if last == dotdot() {
        } else {
            assert(kept_seg(last)) by {
                assert(slash_free(segs[segs.len() - 1]));
            }
        }
    }
}

/// The joined path neither holds an embedded `/../` nor ends with
/// `/..`, provided every segment is one that collapsing keeps.
proof fn lemma_join_no_updir(segs: Seq<Seq<char>>)
    requires
        forall|k: int| 0 <= k < segs.len() ==> kept_seg(#[trigger] segs[k]),
    ensures
        !has_updir(join_slash(segs)),
        ({
            let j = join_slash(segs);
            j.len() >= 3 ==> !(j[j.len() - 3] == '/' && j[j.len() - 2] == '.' && j[j.len() - 1]
                == '.')
        }),
    decreases segs.len(),
{
    let j = join_slash(segs);
    if segs.len() == 0 {
        assert(!has_updir(j)) by {
            assert(j.len() == 0);
            assert forall|i: int| 0 <= i && i + 4 <= j.len() implies !updir_at(j, i) by {
            }
        }
    } else if segs.len() == 1 {
        assert(slash_free(segs[0]));
        assert(!has_updir(j)) by {
            assert forall|i: int| 0 <= i && i + 4 <= j.len() implies !updir_at(j, i) by {
                assert(j[i] != '/');
            }
        }
        if j.len() >= 3 {
            assert(j[j.len() - 3] != '/');
        }
    } else {
        assert(forall|k: int|
            0 <= k < segs.drop_last().len() ==> kept_seg(#[trigger] segs.drop_last()[k]));
        lemma_join_no_updir(segs.drop_last());
        let a = join_slash(segs.drop_last());
        let x = segs.last();
        let n = a.len() as int;
        let m = x.len() as int;
        assert(kept_seg(x));
        assert(j == a + seq!['/'] + x);
        assert(j.len() == n + 1 + m);
        assert(forall|t: int| 0 <= t < n ==> j[t] == a[t]);
        assert(j[n] == '/');
        assert(forall|t: int| 0 <= t < m ==> j[n + 1 + t] == x[t]);
        assert(!has_updir(j)) by {
            assert forall|i: int| 0 <= i && i + 4 <= j.len() implies !updir_at(j, i) by {
                if i + 4 <= n {
                    assert(!updir_at(a, i));
                } else if i + 3 == n {
                    // the pattern would need `a` to end with `/..`
                    assert(a[n - 3] == j[i] && a[n - 2] == j[i + 1] && a[n - 1] == j[i + 2]);
                } else if i + 2 == n || i + 1 == n {
                    // the middle of the pattern is a dot, the joint is a slash
                    assert(j[n] == '/');
                } else if i == n {
                    // the pattern would need a separator inside `x`
                    assert(j[i + 3] == x[2]);
                    assert(x[2] != '/');
                } else {
                    // the pattern would need a separator inside `x`
                    assert(i > n);
                    assert(j[i] == x[i - n - 1]);
                    assert(x[i - n - 1] != '/');
                }
            }
        }
        if j.len() >= 3 {
            if m >= 3 {
                assert(j[j.len() - 3] == x[m - 3]);
                assert(x[m - 3] != '/');
            } else if m == 2 {
                if j[j.len() - 2] == '.' && j[j.len() - 1] == '.' {
                    assert(x[0] == '.' && x[1] == '.');
                    assert(x =~= dotdot());
                }
            } else {
                assert(m == 1);
                assert(j[j.len() - 2] == '/');
            }
        }
    }
}

/// A cleaned path holds no embedded `/../`: a path that had one was
/// resolved against the synthetic root, and one that had none never
/// held the substring in the first place. Upward references can
/// therefore never survive framed inside a cleaned path.
pub proof fn lemma_clean_free_of_updirs(s: Seq<char>)
    ensures
        !has_updir(clean(s)),
{
    if has_updir(s) {
        lemma_split_slash_free(s);
        lemma_collapse_kept(split_slash(s));
        lemma_join_no_updir(collapse(split_slash(s)));
    }
}

/// Cleaning is idempotent: a cleaned path holds no embedded `/../`, so
/// cleaning it again leaves it untouched. The multi-base-path search
/// relies on this shape: the candidate it hands to the lookup is
/// already clean.
pub proof fn lemma_clean_idempotent(s: Seq<char>)
    ensures
        clean(clean(s)) == clean(s),
{
    lemma_clean_free_of_updirs(s);
}

/// The path ends with `dir.vpk`.
pub open spec fn dirvpk_suffix(s: Seq<char>) -> bool {
    &&& s.len() >= 7
    &&& s[s.len() - 7] == 'd'
    &&& s[s.len() - 6] == 'i'
    &&& s[s.len() - 5] == 'r'
    &&& s[s.len() - 4] == '.'
    &&& s[s.len() - 3] == 'v'
    &&& s[s.len() - 2] == 'p'
    &&& s[s.len() - 1] == 'k'
}

/// The entries whose paths end with `dir.vpk`, in their given order.
pub open spec fn dirvpk_filter(entries: Seq<Seq<char>>) -> Seq<Seq<char>>
    decreases entries.len(),
{
    if entries.len() == 0 {
        Seq::empty()
    } else {
        let rest = dirvpk_filter(entries.drop_last());
        if dirvpk_suffix(entries.last()) {
            rest.push(entries.last())
        } else {
            rest
        }
    }
}

/// Keep exactly the entries that name a `dir.vpk` package index, in
/// their given order.
pub fn dirvpk_candidates(entries: &Vec<String>) -> (r: Vec<String>)
    ensures
        views_of(r@) == dirvpk_filter(views_of(entries@)),
{
    let mut out: Vec<String> = Vec::new();
    let mut i: usize = 0;
    while i < entries.len()
        invariant
            i <= entries@.len(),
            views_of(out@) == dirvpk_filter(views_of(entries@).subrange(0, i as int)),
        decreases entries@.len() - i,
    {
        let entry = &entries[i];
        proof {
            assert(views_of(entries@).subrange(0, i + 1 as int) =~= views_of(entries@).subrange(
                0,
                i as int,
            ).push(entry@));
            assert(views_of(entries@).subrange(0, i + 1 as int).drop_last() =~= views_of(
                entries@,
            ).subrange(0, i as int));
        }
        if ends_with_dirvpk(entry.as_str()) {
            let ghost pre = out@;
            out.push(entry.clone());
            proof {
                assert(views_of(out@) =~= views_of(pre).push(entry@));
            }
        }
        i += 1;
    }
    proof {
        assert(views_of(entries@).subrange(0, entries@.len() as int) =~= views_of(entries@));
    }
    out
}

/// Check for the `dir.vpk` package-index suffix.
pub fn ends_with_dirvpk(s: &str) -> (r: bool)
    ensures
        r == dirvpk_suffix(s@),
{
    let n = s.unicode_len();
    if n < 7 {
        return false;
    }
    let c0 = s.get_char(n - 7);
    let c1 = s.get_char(n - 6);
    let c2 = s.get_char(n - 5);
    let c3 = s.get_char(n - 4);
    let c4 = s.get_char(n - 3);
    let c5 = s.get_char(n - 2);
    let c6 = s.get_char(n - 1);
    c0 == 'd' && c1 == 'i' && c2 == 'r' && c3 == '.' && c4 == 'v' && c5 == 'p' && c6 == 'k'
}

} // verus!
