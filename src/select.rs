//! Discovery and classification: buckets candidate files into categories,
//! each as a sorted list without duplicates.

use crate::args::{CliArgs, Targets};
use vstd::prelude::*;

verus! {

/// One value per category.
#[derive(Clone, Copy, Debug, Default)]
pub struct TargetedData<T> {
    /// Audio containers.
    pub oggs: T,
    /// Raster images (`dmi` and `png`).
    pub dmis: T,
}

/// The closed set of file categories.
#[derive(Clone, Copy, Debug, PartialEq, Eq, Structural)]
pub enum Category {
    /// `dmi` and `png` files.
    Raster,
    /// `ogg` files.
    Audio,
}

/// The path separator byte, `/`.
pub const SLASH: u8 = 0x2f;

/// The extension separator byte, `.`.
pub const DOT: u8 = 0x2e;

/// Index of the last `b` among the first `n` bytes of `p`, or -1.
pub open spec fn last_index_before(p: Seq<u8>, b: u8, n: int) -> int
    decreases n,
{
    if n <= 0 {
        -1
    } else if p[n - 1] == b {
        n - 1
    } else {
        last_index_before(p, b, n - 1)
    }
}

/// Index where the last component of the path starts.
pub open spec fn file_name_start(p: Seq<u8>) -> int {
    last_index_before(p, SLASH, p.len() as int) + 1
}

/// The extension of a path: what follows the last dot of its last component,
/// unless that dot starts the component or there is none.
pub open spec fn extension(p: Seq<u8>) -> Option<Seq<u8>> {
    let k = last_index_before(p, DOT, p.len() as int);
    if k <= file_name_start(p) {
        None
    } else {
        Some(p.subrange(k + 1, p.len() as int))
    }
}

/// ASCII lower case of a byte.
pub open spec fn lower(b: u8) -> u8 {
    if 0x41 <= b <= 0x5a {
        (b + 0x20) as u8
    } else {
        b
    }
}

/// ASCII case-insensitive equality.
pub open spec fn eq_ignore_case(a: Seq<u8>, b: Seq<u8>) -> bool {
    a.len() == b.len() && forall|i: int| 0 <= i < a.len() ==> lower(a[i]) == lower(b[i])
}

/// `dmi`.
pub open spec fn dmi_ext() -> Seq<u8> {
    seq![0x64u8, 0x6d, 0x69]
}

/// `png`.
pub open spec fn png_ext() -> Seq<u8> {
    seq![0x70u8, 0x6e, 0x67]
}

/// `ogg`.
pub open spec fn ogg_ext() -> Seq<u8> {
    seq![0x6fu8, 0x67, 0x67]
}

/// The enabled category whose extension set holds the path's extension, if any.
pub open spec fn category_of(p: Seq<u8>, targets: Targets) -> Option<Category> {
    match extension(p) {
        Some(e) => if targets.dmi && (eq_ignore_case(e, dmi_ext()) || eq_ignore_case(e, png_ext())) {
            Some(Category::Raster)
        } else if targets.ogg && eq_ignore_case(e, ogg_ext()) {
            Some(Category::Audio)
        } else {
            None
        },
        None => None,
    }
}

proof fn lemma_last_index_bounds(p: Seq<u8>, b: u8, n: int)
    requires
        0 <= n <= p.len(),
    ensures
        -1 <= last_index_before(p, b, n) < n,
        last_index_before(p, b, n) >= 0 ==> p[last_index_before(p, b, n)] == b,
    decreases n,
{
    if n > 0 {
        lemma_last_index_bounds(p, b, n - 1);
    }
}

/// Start of the extension of `path`, exactly when it has one.
fn extension_start(path: &Vec<u8>) -> (r: Option<usize>)
    ensures
        r is None <==> extension(path@) is None,
        r matches Some(k) ==> k <= path@.len() && extension(path@) == Some(
            path@.subrange(k as int, path@.len() as int),
        ),
{
    let ghost p = path@;
    let ghost n = p.len() as int;
    let mut i: usize = path.len();
    while i > 0
        invariant
            i <= path.len(),
            p == path@,
            n == p.len(),
            last_index_before(p, SLASH, n) == last_index_before(p, SLASH, i as int),
            last_index_before(p, DOT, n) == last_index_before(p, DOT, i as int),
        decreases i,
    {
        let c = path[i - 1];
        if c == SLASH {
            proof {
                lemma_last_index_bounds(p, DOT, i - 1);
            }
            return None;
        }
        if c == DOT {
            proof {
                lemma_last_index_bounds(p, SLASH, i - 1);
            }
            if i - 1 == 0 || path[i - 2] == SLASH {
                return None;
            }
            return Some(i);
        }
        i = i - 1;
    }
    None
}

/// ASCII lower case of a byte.
fn to_lower(b: u8) -> (r: u8)
    ensures
        r == lower(b),
{
    if 0x41 <= b && b <= 0x5a {
        b + 0x20
    } else {
        b
    }
}

/// Whether the bytes of `path` from `start` equal the three given ones, ignoring ASCII case.
fn tail_is(path: &Vec<u8>, start: usize, a: u8, b: u8, c: u8) -> (r: bool)
    requires
        start <= path@.len(),
    ensures
        r == eq_ignore_case(path@.subrange(start as int, path@.len() as int), seq![a, b, c]),
{
    let ghost t = path@.subrange(start as int, path@.len() as int);
    if path.len() - start != 3 {
        return false;
    }
    let r = to_lower(path[start]) == to_lower(a) && to_lower(path[start + 1]) == to_lower(b)
        && to_lower(path[start + 2]) == to_lower(c);
    proof {
        let w = seq![a, b, c];
        if r {
            assert forall|i: int| 0 <= i < t.len() implies lower(t[i]) == lower(w[i]) by {
                assert(t[i] == path@[start + i]);
            }
        } else {
            if eq_ignore_case(t, w) {
                assert(t[0] == path@[start as int]);
                assert(t[1] == path@[start + 1]);
                assert(t[2] == path@[start + 2]);
                assert(lower(t[0]) == lower(w[0]));
                assert(lower(t[1]) == lower(w[1]));
                assert(lower(t[2]) == lower(w[2]));
            }
        }
    }
    r
}

/// The category of `path` among the enabled ones, by case-insensitive extension.
pub fn classify(path: &Vec<u8>, targets: &Targets) -> (r: Option<Category>)
    ensures
        r == category_of(path@, *targets),
{
    match extension_start(path) {
        Some(k) => {
            if targets.dmi && (tail_is(path, k, 0x64, 0x6d, 0x69) || tail_is(path, k, 0x70, 0x6e, 0x67)) {
                Some(Category::Raster)
            } else if targets.ogg && tail_is(path, k, 0x6f, 0x67, 0x67) {
                Some(Category::Audio)
            } else {
                None
            }
        },
        None => None,
    }
}

/// Lexicographic order on byte strings: strict, a proper prefix first.
pub open spec fn lex_lt(a: Seq<u8>, b: Seq<u8>) -> bool
    decreases a.len(),
{
    if b.len() == 0 {
        false
    } else if a.len() == 0 {
        true
    } else if a[0] != b[0] {
        a[0] < b[0]
    } else {
        lex_lt(a.drop_first(), b.drop_first())
    }
}

/// Every earlier path is lexicographically smaller than every later one.
pub open spec fn strictly_sorted(s: Seq<Seq<u8>>) -> bool {
    forall|i: int, j: int| 0 <= i < j < s.len() ==> lex_lt(#[trigger] s[i], #[trigger] s[j])
}

/// The paths of a list, as byte sequences.
pub open spec fn paths(v: Seq<Vec<u8>>) -> Seq<Seq<u8>> {
    v.map_values(|p: Vec<u8>| p@)
}

/// The distinct candidates that fall into `cat`.
pub open spec fn selected(candidates: Seq<Seq<u8>>, targets: Targets, cat: Category) -> Set<Seq<u8>> {
    candidates.to_set().filter(|p: Seq<u8>| category_of(p, targets) == Some(cat))
}

proof fn lemma_lex_irreflexive(a: Seq<u8>)
    ensures
        !lex_lt(a, a),
    decreases a.len(),
{
    if a.len() > 0 {
        lemma_lex_irreflexive(a.drop_first());
    }
}

proof fn lemma_lex_transitive(a: Seq<u8>, b: Seq<u8>, c: Seq<u8>)
    requires
        lex_lt(a, b),
        lex_lt(b, c),
    ensures
        lex_lt(a, c),
    decreases a.len(),
{
    if a.len() > 0 && a[0] == b[0] && b[0] == c[0] {
        lemma_lex_transitive(a.drop_first(), b.drop_first(), c.drop_first());
    }
}

proof fn lemma_lex_total(a: Seq<u8>, b: Seq<u8>)
    requires
        a != b,
    ensures
        lex_lt(a, b) || lex_lt(b, a),
    decreases a.len(),
{
    if a.len() > 0 && b.len() > 0 && a[0] == b[0] {
        if a.drop_first() == b.drop_first() {
            assert(a == seq![a[0]] + a.drop_first());
            assert(b == seq![b[0]] + b.drop_first());
        }
        lemma_lex_total(a.drop_first(), b.drop_first());
    } else if a.len() == 0 && b.len() == 0 {
        assert(a == b);
    }
}

/// Byte-wise lexicographic comparison.
pub fn lex_less(a: &Vec<u8>, b: &Vec<u8>) -> (r: bool)
    ensures
        r == lex_lt(a@, b@),
{
    let mut i: usize = 0;
    assert(a@.skip(0) == a@);
    assert(b@.skip(0) == b@);
    while i < a.len() && i < b.len()
        invariant
            i <= a.len(),
            i <= b.len(),
            lex_lt(a@, b@) == lex_lt(a@.skip(i as int), b@.skip(i as int)),
        decreases a.len() - i,
    {
        if a[i] != b[i] {
            return a[i] < b[i];
        }
        assert(a@.skip(i as int).drop_first() == a@.skip(i as int + 1));
        assert(b@.skip(i as int).drop_first() == b@.skip(i as int + 1));
        i = i + 1;
    }
    i == a.len() && i < b.len()
}

/// Adds `path` to a strictly sorted list unless it is already there.
fn insert_sorted(list: &mut Vec<Vec<u8>>, path: &Vec<u8>)
    requires
        strictly_sorted(paths(old(list)@)),
    ensures
        strictly_sorted(paths(final(list)@)),
        paths(final(list)@).to_set() == paths(old(list)@).to_set().insert(path@),
{
    let ghost v = paths(list@);
    let mut k: usize = 0;
    while k < list.len()
        invariant
            list@ == old(list)@,
            v == paths(list@),
            k <= list.len(),
            forall|j: int| 0 <= j < k ==> lex_lt(#[trigger] v[j], path@),
        ensures
            k <= list.len(),
            forall|j: int| 0 <= j < k ==> lex_lt(#[trigger] v[j], path@),
            k < list.len() ==> !lex_lt(v[k as int], path@),
        decreases list.len() - k,
    {
        if !lex_less(&list[k], path) {
            break;
        }
        k = k + 1;
    }
    if k < list.len() && !lex_less(path, &list[k]) {
        proof {
            if v[k as int] != path@ {
                lemma_lex_total(v[k as int], path@);
            }
            assert(v.contains(path@) && v[k as int] == path@);
            assert(v.to_set().insert(path@) =~= v.to_set());
        }
        return;
    }
    proof {
        if k < v.len() {
            if v[k as int] == path@ {
                lemma_lex_irreflexive(path@);
            }
            lemma_lex_total(v[k as int], path@);
        }
    }
    list.insert(k, path.clone());
    proof {
        let w = paths(list@);
        assert(w == v.insert(k as int, path@));
        assert forall|i: int, j: int| 0 <= i < j < w.len() implies lex_lt(#[trigger] w[i], #[trigger] w[j]) by {
            if i < k && j > k {
                assert(lex_lt(v[i], v[j - 1]));
            } else if i == k && j > k + 1 {
                lemma_lex_transitive(path@, v[k as int], v[j - 1]);
            }
        }
        assert forall|x: Seq<u8>| w.to_set().contains(x) <==> v.to_set().insert(path@).contains(x) by {
            if w.contains(x) {
                let i = choose|i: int| 0 <= i < w.len() && w[i] == x;
                if i < k {
                    assert(v[i] == x);
                } else if i > k {
                    assert(v[i - 1] == x);
                }
            }
            if v.contains(x) {
                let i = choose|i: int| 0 <= i < v.len() && v[i] == x;
                if i < k {
                    assert(w[i] == x);
                } else {
                    assert(w[i + 1] == x);
                }
            }
            if x == path@ {
                assert(w[k as int] == x);
            }
        }
        assert(w.to_set() =~= v.to_set().insert(path@));
    }
}

/// Files the candidate into its category's list, if it has one.
fn add_file(path: &Vec<u8>, targets: &Targets, files: &mut TargetedData<Vec<Vec<u8>>>)
    requires
        strictly_sorted(paths(old(files).dmis@)),
        strictly_sorted(paths(old(files).oggs@)),
    ensures
        strictly_sorted(paths(final(files).dmis@)),
        strictly_sorted(paths(final(files).oggs@)),
        paths(final(files).dmis@).to_set() == if category_of(path@, *targets) == Some(Category::Raster) {
            paths(old(files).dmis@).to_set().insert(path@)
        } else {
            paths(old(files).dmis@).to_set()
        },
        paths(final(files).oggs@).to_set() == if category_of(path@, *targets) == Some(Category::Audio) {
            paths(old(files).oggs@).to_set().insert(path@)
        } else {
            paths(old(files).oggs@).to_set()
        },
{
    match classify(path, targets) {
        Some(Category::Raster) => insert_sorted(&mut files.dmis, path),
        Some(Category::Audio) => insert_sorted(&mut files.oggs, path),
        None => {},
    }
}

/// Buckets the files found under the run's roots (`candidates`, in any order,
/// possibly repeated) into the enabled categories: each list is sorted
/// lexicographically and holds exactly the distinct candidates of its category.
pub fn get_target_files_from_args(args: &CliArgs, candidates: &Vec<Vec<u8>>) -> (r: TargetedData<Vec<Vec<u8>>>)
    ensures
        strictly_sorted(paths(r.dmis@)),
        strictly_sorted(paths(r.oggs@)),
        paths(r.dmis@).to_set() == selected(paths(candidates@), args.targets, Category::Raster),
        paths(r.oggs@).to_set() == selected(paths(candidates@), args.targets, Category::Audio),
{
    let mut files = TargetedData { oggs: Vec::new(), dmis: Vec::new() };
    let ghost c = paths(candidates@);
    let mut i: usize = 0;
    while i < candidates.len()
        invariant
            i <= candidates.len(),
            c == paths(candidates@),
            strictly_sorted(paths(files.dmis@)),
            strictly_sorted(paths(files.oggs@)),
            paths(files.dmis@).to_set() == selected(c.take(i as int), args.targets, Category::Raster),
            paths(files.oggs@).to_set() == selected(c.take(i as int), args.targets, Category::Audio),
        decreases candidates.len() - i,
    {
        add_file(&candidates[i], &args.targets, &mut files);
        proof {
            let t = c.take(i as int);
            let t1 = c.take(i as int + 1);
            assert(t1 == t.push(c[i as int]));
            t.lemma_push_to_set_commute(c[i as int]);
            assert(selected(t1, args.targets, Category::Raster) =~= (if category_of(c[i as int], args.targets) == Some(Category::Raster) {
                selected(t, args.targets, Category::Raster).insert(c[i as int])
            } else {
                selected(t, args.targets, Category::Raster)
            }));
            assert(selected(t1, args.targets, Category::Audio) =~= (if category_of(c[i as int], args.targets) == Some(Category::Audio) {
                selected(t, args.targets, Category::Audio).insert(c[i as int])
            } else {
                selected(t, args.targets, Category::Audio)
            }));
        }
        i = i + 1;
    }
    assert(c.take(i as int) == c);
    files
}

/// However the roots overlap, a category's sorted listing of its distinct
/// candidates holds each matching path once: its length is the number of
/// distinct matching paths.
pub proof fn lemma_dedup_count(candidates: Seq<Seq<u8>>, targets: Targets, cat: Category, listed: Seq<Seq<u8>>)
    requires
        strictly_sorted(listed),
        listed.to_set() == selected(candidates, targets, cat),
    ensures
        listed.no_duplicates(),
        listed.len() == selected(candidates, targets, cat).len(),
{
    assert forall|i: int, j: int| 0 <= i < listed.len() && 0 <= j < listed.len() && i != j implies listed[i] != listed[j] by {
        lemma_lex_irreflexive(listed[i]);
        if i > j {
            assert(lex_lt(listed[j], listed[i]));
        } else {
            assert(lex_lt(listed[i], listed[j]));
        }
    }
    listed.unique_seq_to_set();
}

/// A path whose extension is `png` in any letter case is a raster image iff
/// raster images are enabled, and one whose extension is neither `dmi`, `png`
/// nor `ogg` in any letter case, or that has none, is in no category.
pub proof fn lemma_classification(p: Seq<u8>, targets: Targets)
    ensures
        (extension(p) matches Some(e) && eq_ignore_case(e, png_ext())) ==> (category_of(p, targets) == Some(
            Category::Raster,
        ) <==> targets.dmi),
        (extension(p) matches Some(e) && eq_ignore_case(e, png_ext())) ==> category_of(p, targets) != Some(
            Category::Audio,
        ),
        !(extension(p) matches Some(e) && (eq_ignore_case(e, dmi_ext()) || eq_ignore_case(e, png_ext())
            || eq_ignore_case(e, ogg_ext()))) ==> category_of(p, targets) is None,
{
    if let Some(e) = extension(p) {
        if eq_ignore_case(e, png_ext()) {
            assert(lower(e[0]) == lower(png_ext()[0]));
            assert(lower(png_ext()[0]) != lower(ogg_ext()[0]));
        }
    }
}

} // verus!
