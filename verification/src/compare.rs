//! Comparing two manifests of the same sample.

use vstd::prelude::*;
use vstd::string::*;
use crate::manifest::FileView;
use crate::manifest::RestoredFile;
use crate::manifest;
use crate::sort;
use crate::text;

verus! {

/// A catalog with `f` put in: in place of the entry with its path, or else
/// where its path belongs in the order.
pub open spec fn catalog_put(c: Seq<FileView>, f: FileView) -> Seq<FileView> {
    let p = sort::run_before(c, f.path) as int;
    if p < c.len() && c[p].path == f.path {
        c.update(p, f)
    } else {
        c.insert(p, f)
    }
}

/// The files of a manifest by path, in the order of the paths; of several with
/// one path the last counts.
pub open spec fn catalog(files: Seq<FileView>) -> Seq<FileView>
    decreases files.len(),
{
    if files.len() == 0 {
        seq![]
    } else {
        catalog_put(catalog(files.drop_last()), files.last())
    }
}

/// The entry of a catalog with the given path.
pub open spec fn catalog_get(c: Seq<FileView>, path: Seq<char>) -> Option<FileView> {
    let p = sort::run_before(c, path) as int;
    if p < c.len() && c[p].path == path {
        Some(c[p])
    } else {
        None
    }
}

/// What is wrong with a file, now that `after` is what was read back of it.
pub open spec fn file_difference(before: FileView, after: Option<FileView>) -> Option<Seq<char>> {
    match after {
        None => Some("missing after: "@ + before.path),
        Some(now) => if before.sha256 != now.sha256 {
            Some(
                "sha256 mismatch: "@ + before.path + " ("@ + before.sha256 + " -> "@ + now.sha256
                    + ")"@,
            )
        } else if before.size != now.size {
            Some(
                "size mismatch: "@ + before.path + " ("@ + text::decimal(before.size as nat)
                    + " -> "@ + text::decimal(now.size as nat) + ")"@,
            )
        } else {
            None
        },
    }
}

/// What is wrong with the files of the catalog `a`, now that `b` was read back.
pub open spec fn changed(a: Seq<FileView>, b: Seq<FileView>) -> Seq<Seq<char>>
    decreases a.len(),
{
    if a.len() == 0 {
        seq![]
    } else {
        let before = changed(a.drop_last(), b);
        match file_difference(a.last(), catalog_get(b, a.last().path)) {
            Some(d) => before.push(d),
            None => before,
        }
    }
}

/// The files of the catalog `b` that the catalog `a` lacks.
pub open spec fn extra(a: Seq<FileView>, b: Seq<FileView>) -> Seq<Seq<char>>
    decreases b.len(),
{
    if b.len() == 0 {
        seq![]
    } else {
        let before = extra(a, b.drop_last());
        if catalog_get(a, b.last().path) is None {
            before.push("unexpected extra: "@ + b.last().path)
        } else {
            before
        }
    }
}

/// The differences between two manifests: what changed or is missing, in the
/// order of the paths, and then what was not there before.
pub open spec fn differences(before: Seq<FileView>, after: Seq<FileView>) -> Seq<Seq<char>> {
    changed(catalog(before), catalog(after)) + extra(catalog(before), catalog(after))
}

/// Whether the paths of a catalog are in order, no two alike.
spec fn strictly_ordered(c: Seq<FileView>) -> bool {
    forall|i: int, j: int|
        0 <= i < j < c.len() ==> text::text_lt((#[trigger] c[i]).path, (#[trigger] c[j]).path)
}

proof fn lemma_put_keeps_order(c: Seq<FileView>, f: FileView)
    requires
        strictly_ordered(c),
    ensures
        strictly_ordered(catalog_put(c, f)),
{
    sort::lemma_run_before_splits(c, f.path);
    let p = sort::run_before(c, f.path) as int;
    let r = catalog_put(c, f);
    if !(p < c.len() && c[p].path == f.path) {
        assert forall|i: int| p <= i < c.len() implies text::text_lt(
            f.path,
            (#[trigger] c[i]).path,
        ) by {
            text::lemma_text_lt_total(f.path, c[p].path);
            if i > p {
                text::lemma_text_lt_transitive(f.path, c[p].path, c[i].path);
            }
        }
        assert forall|i: int, j: int| 0 <= i < j < r.len() implies text::text_lt(
            (#[trigger] r[i]).path,
            (#[trigger] r[j]).path,
        ) by {
            let oi = if i < p {
                i
            } else {
                i - 1
            };
            let oj = if j < p {
                j
            } else {
                j - 1
            };
            if i != p {
                assert(r[i] == c[oi]);
            }
            if j != p {
                assert(r[j] == c[oj]);
            }
        }
    }
}

proof fn lemma_catalog_is_ordered(files: Seq<FileView>)
    ensures
        strictly_ordered(catalog(files)),
    decreases files.len(),
{
    if files.len() > 0 {
        lemma_catalog_is_ordered(files.drop_last());
        lemma_put_keeps_order(catalog(files.drop_last()), files.last());
    }
}

proof fn lemma_strict_is_in_order(c: Seq<FileView>)
    requires
        strictly_ordered(c),
    ensures
        sort::in_order(c),
{
    assert forall|i: int, j: int| 0 <= i < j < c.len() implies !text::text_lt(
        (#[trigger] c[j]).path,
        (#[trigger] c[i]).path,
    ) by {
        if text::text_lt(c[j].path, c[i].path) {
            text::lemma_text_lt_transitive(c[i].path, c[j].path, c[i].path);
            text::lemma_text_lt_irreflexive(c[i].path);
        }
    }
}

/// The entry at `i` is the one that its path finds, and every path that is
/// found is found at some place.
proof fn lemma_get_finds(c: Seq<FileView>, path: Seq<char>)
    requires
        strictly_ordered(c),
    ensures
        forall|i: int|
            0 <= i < c.len() && (#[trigger] c[i]).path == path ==> catalog_get(c, path) == Some(
                c[i],
            ),
        catalog_get(c, path) matches Some(f) ==> f.path == path && c.contains(f),
        (forall|i: int| 0 <= i < c.len() ==> (#[trigger] c[i]).path != path) ==> catalog_get(
            c,
            path,
        ) is None,
{
    assert forall|i: int| 0 <= i < c.len() && (#[trigger] c[i]).path == path implies catalog_get(
        c,
        path,
    ) == Some(c[i]) by {
        text::lemma_text_lt_irreflexive(path);
        sort::lemma_run_before(c, path, i);
    }
    sort::lemma_run_before_splits(c, path);
}

proof fn lemma_put_get(c: Seq<FileView>, f: FileView, path: Seq<char>)
    requires
        strictly_ordered(c),
    ensures
        catalog_get(catalog_put(c, f), path) == if path == f.path {
            Some(f)
        } else {
            catalog_get(c, path)
        },
{
    let r = catalog_put(c, f);
    let p = sort::run_before(c, f.path) as int;
    sort::lemma_run_before_splits(c, f.path);
    lemma_put_keeps_order(c, f);
    lemma_get_finds(r, path);
    lemma_get_finds(c, path);
    assert(r[p] == f);
    if path != f.path {
        match catalog_get(c, path) {
            Some(g) => {
                let i = choose|i: int| 0 <= i < c.len() && c[i] == g;
                if r.len() == c.len() {
                    assert(r[i] == g);
                } else if i < p {
                    assert(r[i] == g);
                } else {
                    assert(r[i + 1] == g);
                }
            },
            None => {
                if catalog_get(r, path) is Some {
                    let g = catalog_get(r, path)->0;
                    let i = choose|i: int| 0 <= i < r.len() && r[i] == g;
                    if r.len() == c.len() {
                        assert(c[i] == g);
                    } else if i < p {
                        assert(c[i] == g);
                    } else {
                        assert(c[i - 1] == g);
                    }
                }
            },
        }
    }
}

/// The last file of a manifest with the given path.
pub open spec fn last_with_path(files: Seq<FileView>, path: Seq<char>) -> Option<FileView>
    decreases files.len(),
{
    if files.len() == 0 {
        None
    } else if files.last().path == path {
        Some(files.last())
    } else {
        last_with_path(files.drop_last(), path)
    }
}

/// A catalog holds, under each path, the last file of the manifest with it.
pub proof fn law_catalog_holds_last_files(files: Seq<FileView>, path: Seq<char>)
    ensures
        catalog_get(catalog(files), path) == last_with_path(files, path),
    decreases files.len(),
{
    if files.len() > 0 {
        law_catalog_holds_last_files(files.drop_last(), path);
        lemma_catalog_is_ordered(files.drop_last());
        lemma_put_get(catalog(files.drop_last()), files.last(), path);
    }
}

proof fn lemma_changed_empty(a: Seq<FileView>, b: Seq<FileView>)
    ensures
        changed(a, b).len() == 0 <==> forall|i: int|
            0 <= i < a.len() ==> file_difference(
                #[trigger] a[i],
                catalog_get(b, a[i].path),
            ) is None,
    decreases a.len(),
{
    if a.len() > 0 {
        lemma_changed_empty(a.drop_last(), b);
        if changed(a, b).len() == 0 {
            assert forall|i: int| 0 <= i < a.len() implies file_difference(
                #[trigger] a[i],
                catalog_get(b, a[i].path),
            ) is None by {
                if i < a.len() - 1 {
                    assert(a.drop_last()[i] == a[i]);
                }
            }
        }
        if forall|i: int|
            0 <= i < a.len() ==> file_difference(
                #[trigger] a[i],
                catalog_get(b, a[i].path),
            ) is None {
            assert(file_difference(a.last(), catalog_get(b, a.last().path)) is None);
            assert forall|i: int| 0 <= i < a.drop_last().len() implies file_difference(
                #[trigger] a.drop_last()[i],
                catalog_get(b, a.drop_last()[i].path),
            ) is None by {
                assert(a.drop_last()[i] == a[i]);
            }
        }
    }
}

proof fn lemma_extra_empty(a: Seq<FileView>, b: Seq<FileView>)
    ensures
        extra(a, b).len() == 0 <==> forall|i: int|
            0 <= i < b.len() ==> catalog_get(a, (#[trigger] b[i]).path) is Some,
    decreases b.len(),
{
    if b.len() > 0 {
        lemma_extra_empty(a, b.drop_last());
        if extra(a, b).len() == 0 {
            assert forall|i: int| 0 <= i < b.len() implies catalog_get(
                a,
                (#[trigger] b[i]).path,
            ) is Some by {
                if i < b.len() - 1 {
                    assert(b.drop_last()[i] == b[i]);
                }
            }
        }
        if forall|i: int| 0 <= i < b.len() ==> catalog_get(a, (#[trigger] b[i]).path) is Some {
            assert(catalog_get(a, b.last().path) is Some);
            assert forall|i: int| 0 <= i < b.drop_last().len() implies catalog_get(
                a,
                (#[trigger] b.drop_last()[i]).path,
            ) is Some by {
                assert(b.drop_last()[i] == b[i]);
            }
        }
    }
}

/// Two manifests show no difference exactly if they say the same of every
/// path: that it is not there, or that it is there with one digest and one
/// size.
pub proof fn law_no_difference_means_same_files(before: Seq<FileView>, after: Seq<FileView>)
    ensures
        differences(before, after).len() == 0 <==> forall|path: Seq<char>| #[trigger]
            last_with_path(before, path) == last_with_path(after, path),
{
    let a = catalog(before);
    let b = catalog(after);
    lemma_catalog_is_ordered(before);
    lemma_catalog_is_ordered(after);
    lemma_changed_empty(a, b);
    lemma_extra_empty(a, b);
    if differences(before, after).len() == 0 {
        assert forall|path: Seq<char>| #[trigger] last_with_path(before, path) == last_with_path(
            after,
            path,
        ) by {
            law_catalog_holds_last_files(before, path);
            law_catalog_holds_last_files(after, path);
            lemma_get_finds(a, path);
            lemma_get_finds(b, path);
            match catalog_get(a, path) {
                Some(f) => {
                    let i = choose|i: int| 0 <= i < a.len() && a[i] == f;
                    assert(file_difference(a[i], catalog_get(b, a[i].path)) is None);
                },
                None => {
                    if catalog_get(b, path) is Some {
                        let g = catalog_get(b, path)->0;
                        let i = choose|i: int| 0 <= i < b.len() && b[i] == g;
                        assert(catalog_get(a, b[i].path) is Some);
                    }
                },
            }
        }
    }
    if forall|path: Seq<char>| #[trigger]
        last_with_path(before, path) == last_with_path(after, path) {
        assert forall|i: int| 0 <= i < a.len() implies file_difference(
            #[trigger] a[i],
            catalog_get(b, a[i].path),
        ) is None by {
            let path = a[i].path;
            law_catalog_holds_last_files(before, path);
            law_catalog_holds_last_files(after, path);
            lemma_get_finds(a, path);
            assert(last_with_path(before, path) == last_with_path(after, path));
        }
        assert forall|i: int| 0 <= i < b.len() implies catalog_get(
            a,
            (#[trigger] b[i]).path,
        ) is Some by {
            let path = b[i].path;
            law_catalog_holds_last_files(before, path);
            law_catalog_holds_last_files(after, path);
            lemma_get_finds(b, path);
            assert(last_with_path(before, path) == last_with_path(after, path));
        }
    }
}

/// A manifest does not differ from itself.
pub proof fn law_manifest_equals_itself(files: Seq<FileView>)
    ensures
        differences(files, files).len() == 0,
{
    law_no_difference_means_same_files(files, files);
}

/// Two ordered catalogs with the same entries are the same.
proof fn lemma_same_entries(c: Seq<FileView>, d: Seq<FileView>)
    requires
        strictly_ordered(c),
        strictly_ordered(d),
        forall|f: FileView| #[trigger] c.contains(f) <==> d.contains(f),
    ensures
        c == d,
    decreases c.len(),
{
    if c.len() == 0 {
        if d.len() > 0 {
            assert(d.contains(d[0]));
            assert(c.contains(d[0]));
        }
        assert(c =~= d);
    } else {
        let x = c.last();
        assert(c.contains(x));
        assert(d.contains(x));
        let y = d.last();
        assert(d.contains(y));
        assert(c.contains(y));
        let i = choose|i: int| 0 <= i < c.len() && c[i] == y;
        let j = choose|j: int| 0 <= j < d.len() && d[j] == x;
        if i < c.len() - 1 && j < d.len() - 1 {
            assert(text::text_lt(c[i].path, x.path));
            assert(text::text_lt(d[j].path, y.path));
            text::lemma_text_lt_transitive(x.path, y.path, x.path);
            text::lemma_text_lt_irreflexive(x.path);
        }
        assert(x == y);
        let front = c.drop_last();
        let back = d.drop_last();
        assert forall|f: FileView| #[trigger] front.contains(f) <==> back.contains(f) by {
            lemma_front_holds(c, f);
            lemma_front_holds(d, f);
            assert(c.contains(f) <==> d.contains(f));
        }
        lemma_same_entries(front, back);
        assert(c =~= front.push(x));
        assert(d =~= back.push(y));
    }
}

/// All but the last entry of an ordered catalog are the entries other than it.
proof fn lemma_front_holds(c: Seq<FileView>, f: FileView)
    requires
        strictly_ordered(c),
        c.len() > 0,
    ensures
        c.drop_last().contains(f) <==> c.contains(f) && f != c.last(),
{
    let front = c.drop_last();
    if front.contains(f) {
        let i = choose|i: int| 0 <= i < front.len() && front[i] == f;
        assert(c[i] == f);
        assert(text::text_lt(c[i].path, c[c.len() - 1].path));
        text::lemma_text_lt_irreflexive(f.path);
    }
    if c.contains(f) && f != c.last() {
        let i = choose|i: int| 0 <= i < c.len() && c[i] == f;
        assert(front[i] == f);
    }
}

/// Whether no two files of a manifest have one path.
pub open spec fn distinct_paths(files: Seq<FileView>) -> bool {
    forall|i: int, j: int|
        0 <= i < files.len() && 0 <= j < files.len() && i != j ==> (#[trigger] files[i]).path != (
        #[trigger] files[j]).path
}

/// Where paths are distinct a catalog holds the files of the manifest.
proof fn lemma_catalog_holds_files(files: Seq<FileView>, f: FileView)
    requires
        distinct_paths(files),
    ensures
        catalog(files).contains(f) <==> files.contains(f),
{
    lemma_catalog_is_ordered(files);
    lemma_get_finds(catalog(files), f.path);
    law_catalog_holds_last_files(files, f.path);
    lemma_last_with_path(files, f.path);
    if catalog(files).contains(f) {
        let i = choose|i: int| 0 <= i < catalog(files).len() && catalog(files)[i] == f;
        assert(catalog(files)[i].path == f.path);
    }
    if files.contains(f) {
        let i = choose|i: int| 0 <= i < files.len() && files[i] == f;
        assert(files[i].path == f.path);
    }
}

proof fn lemma_last_with_path(files: Seq<FileView>, path: Seq<char>)
    requires
        distinct_paths(files),
    ensures
        last_with_path(files, path) matches Some(f) ==> files.contains(f) && f.path == path,
        forall|i: int|
            0 <= i < files.len() && (#[trigger] files[i]).path == path ==> last_with_path(
                files,
                path,
            ) == Some(files[i]),
    decreases files.len(),
{
    if files.len() > 0 {
        let front = files.drop_last();
        assert forall|i: int, j: int|
            0 <= i < front.len() && 0 <= j < front.len() && i != j implies (
        #[trigger] front[i]).path != (#[trigger] front[j]).path by {
            assert(front[i] == files[i] && front[j] == files[j]);
        }
        lemma_last_with_path(front, path);
        assert(files.contains(files.last()));
        if files.last().path != path {
            if let Some(f) = last_with_path(front, path) {
                let i = choose|i: int| 0 <= i < front.len() && front[i] == f;
                assert(files[i] == f);
            }
        }
        assert forall|i: int|
            0 <= i < files.len() && (#[trigger] files[i]).path == path implies last_with_path(
            files,
            path,
        ) == Some(files[i]) by {
            if i < front.len() {
                assert(front[i] == files[i]);
                assert(files[i].path != files[files.len() - 1].path);
            }
        }
    }
}

/// A manifest in another order has the same catalog.
proof fn lemma_reordered_catalog(files: Seq<FileView>, other: Seq<FileView>)
    requires
        distinct_paths(files),
        files.to_multiset() == other.to_multiset(),
    ensures
        catalog(other) == catalog(files),
{
    files.to_multiset_ensures();
    other.to_multiset_ensures();
    assert forall|f: FileView| #[trigger] files.contains(f) <==> other.contains(f) by {
        assert(files.contains(f) <==> files.to_multiset().count(f) > 0);
        assert(other.contains(f) <==> other.to_multiset().count(f) > 0);
    }
    assert(files.no_duplicates());
    files.lemma_multiset_has_no_duplicates();
    other.lemma_multiset_has_no_duplicates_conv();
    assert forall|i: int, j: int|
        0 <= i < other.len() && 0 <= j < other.len() && i != j implies (#[trigger] other[i]).path
        != (#[trigger] other[j]).path by {
        assert(other.contains(other[i]) && other.contains(other[j]));
        assert(files.contains(other[i]) && files.contains(other[j]));
        let x = choose|x: int| 0 <= x < files.len() && files[x] == other[i];
        let y = choose|y: int| 0 <= y < files.len() && files[y] == other[j];
        assert(other[i] != other[j]);
        assert(files[x].path != files[y].path);
    }
    lemma_catalog_is_ordered(files);
    lemma_catalog_is_ordered(other);
    assert forall|f: FileView| #[trigger] catalog(other).contains(f) <==> catalog(files).contains(
        f,
    ) by {
        lemma_catalog_holds_files(files, f);
        lemma_catalog_holds_files(other, f);
        assert(files.contains(f) <==> other.contains(f));
    }
    lemma_same_entries(catalog(other), catalog(files));
}

/// The order in which two manifests list their files does not matter; so a
/// manifest does not differ from itself in another order.
pub proof fn law_order_of_files_does_not_matter(
    before: Seq<FileView>,
    before2: Seq<FileView>,
    after: Seq<FileView>,
    after2: Seq<FileView>,
)
    requires
        distinct_paths(before),
        distinct_paths(after),
        before.to_multiset() == before2.to_multiset(),
        after.to_multiset() == after2.to_multiset(),
    ensures
        differences(before2, after2) == differences(before, after),
        differences(before, before2).len() == 0,
{
    lemma_reordered_catalog(before, before2);
    lemma_reordered_catalog(after, after2);
    law_manifest_equals_itself(before);
}

/// Whether a file was read back otherwise than it was.
spec fn altered(before: FileView, after: Option<FileView>) -> bool {
    after matches Some(now) && (before.sha256 != now.sha256 || before.size != now.size)
}

/// The paths of the catalog `a` whose files are altered in `b`.
spec fn altered_paths(a: Seq<FileView>, b: Seq<FileView>) -> Seq<Seq<char>>
    decreases a.len(),
{
    if a.len() == 0 {
        seq![]
    } else {
        let before = altered_paths(a.drop_last(), b);
        if altered(a.last(), catalog_get(b, a.last().path)) {
            before.push(a.last().path)
        } else {
            before
        }
    }
}

proof fn lemma_altered_paths(a: Seq<FileView>, b: Seq<FileView>)
    requires
        strictly_ordered(a),
    ensures
        altered_paths(a, b).no_duplicates(),
        forall|p: Seq<char>| #[trigger]
            altered_paths(a, b).contains(p) <==> exists|i: int|
                0 <= i < a.len() && (#[trigger] a[i]).path == p && altered(
                    a[i],
                    catalog_get(b, p),
                ),
        changed(a, b).len() == extra(b, a).len() + altered_paths(a, b).len(),
    decreases a.len(),
{
    if a.len() > 0 {
        let front = a.drop_last();
        let x = a.last();
        lemma_altered_paths(front, b);
        let earlier = altered_paths(front, b);
        let all = altered_paths(a, b);
        if earlier.contains(x.path) {
            let i = choose|i: int|
                0 <= i < front.len() && (#[trigger] front[i]).path == x.path && altered(
                    front[i],
                    catalog_get(b, x.path),
                );
            assert(text::text_lt(a[i].path, a[a.len() - 1].path));
            text::lemma_text_lt_irreflexive(x.path);
        }
        assert forall|p: Seq<char>| #[trigger] all.contains(p) <==> exists|i: int|
            0 <= i < a.len() && (#[trigger] a[i]).path == p && altered(
                a[i],
                catalog_get(b, p),
            ) by {
            if all.contains(p) {
                let n = choose|n: int| 0 <= n < all.len() && all[n] == p;
                if n < earlier.len() {
                    assert(earlier[n] == p);
                    assert(earlier.contains(p));
                    let i = choose|i: int|
                        0 <= i < front.len() && (#[trigger] front[i]).path == p && altered(
                            front[i],
                            catalog_get(b, p),
                        );
                    assert(a[i] == front[i]);
                } else {
                    assert(a[a.len() - 1].path == p);
                }
            }
            if exists|i: int|
                0 <= i < a.len() && (#[trigger] a[i]).path == p && altered(
                    a[i],
                    catalog_get(b, p),
                ) {
                let i = choose|i: int|
                    0 <= i < a.len() && (#[trigger] a[i]).path == p && altered(
                        a[i],
                        catalog_get(b, p),
                    );
                if i < front.len() {
                    assert(front[i] == a[i]);
                    assert(earlier.contains(p));
                    let n = choose|n: int| 0 <= n < earlier.len() && earlier[n] == p;
                    assert(all[n] == p);
                } else {
                    assert(all[all.len() - 1] == p);
                }
            }
        }
    }
}

/// A path that is altered one way is altered the other way.
proof fn lemma_alteration_is_mutual(a: Seq<FileView>, b: Seq<FileView>, p: Seq<char>)
    requires
        strictly_ordered(a),
        strictly_ordered(b),
        altered_paths(a, b).contains(p),
    ensures
        altered_paths(b, a).contains(p),
{
    lemma_altered_paths(a, b);
    lemma_altered_paths(b, a);
    let i = choose|i: int|
        0 <= i < a.len() && (#[trigger] a[i]).path == p && altered(a[i], catalog_get(b, p));
    lemma_get_finds(a, p);
    lemma_get_finds(b, p);
    let g = catalog_get(b, p)->0;
    let j = choose|j: int| 0 <= j < b.len() && b[j] == g;
    assert(b[j].path == p && altered(b[j], catalog_get(a, p)));
}

/// Two manifests show as many differences one way as the other.
pub proof fn law_number_of_differences_is_symmetric(before: Seq<FileView>, after: Seq<FileView>)
    ensures
        differences(after, before).len() == differences(before, after).len(),
{
    let a = catalog(before);
    let b = catalog(after);
    lemma_catalog_is_ordered(before);
    lemma_catalog_is_ordered(after);
    lemma_altered_paths(a, b);
    lemma_altered_paths(b, a);
    let x = altered_paths(a, b);
    let y = altered_paths(b, a);
    assert forall|p: Seq<char>| x.to_set().contains(p) <==> y.to_set().contains(p) by {
        if x.contains(p) {
            lemma_alteration_is_mutual(a, b, p);
        }
        if y.contains(p) {
            lemma_alteration_is_mutual(b, a, p);
        }
    }
    assert(x.to_set() =~= y.to_set());
    x.unique_seq_to_set();
    y.unique_seq_to_set();
}

/// The entries of a manifest by path.
fn build_catalog(files: &[RestoredFile]) -> (r: Vec<RestoredFile>)
    ensures
        manifest::file_views(r@) == catalog(manifest::file_views(files@)),
{
    let ghost all = manifest::file_views(files@);
    let mut r: Vec<RestoredFile> = Vec::new();
    let mut i: usize = 0;
    assert(all.take(0) =~= Seq::<FileView>::empty());
    assert(manifest::file_views(r@) =~= Seq::<FileView>::empty());
    while i < files.len()
        invariant
            i <= files@.len(),
            all == manifest::file_views(files@),
            manifest::file_views(r@) == catalog(all.take(i as int)),
        decreases files@.len() - i,
    {
        let f: RestoredFile = files[i].clone();
        let ghost c = manifest::file_views(r@);
        proof {
            lemma_catalog_is_ordered(all.take(i as int));
            lemma_views_in_order(r@);
            sort::lemma_run_maps(r@, |x: RestoredFile| x@, f@.path);
            assert(all.take(i + 1).drop_last() =~= all.take(i as int));
            assert(all.take(i + 1).last() == f@);
        }
        let p: usize = sort::find_place(&r, f.path.as_str());
        let ghost before = r@;
        assert(c.len() == before.len());
        if p < r.len() && r[p].path == f.path {
            assert(c[p as int].path == f@.path);
            r.set(p, f);
            assert(manifest::file_views(r@) =~= catalog_put(c, f@));
        } else {
            assert(p < c.len() ==> c[p as int].path == before[p as int]@.path);
            r.insert(p, f);
            assert(manifest::file_views(r@) =~= catalog_put(c, f@));
        }
        i += 1;
    }
    assert(all.take(i as int) =~= all);
    r
}

/// The files are in order if what they hold is.
proof fn lemma_views_in_order(v: Seq<RestoredFile>)
    requires
        strictly_ordered(manifest::file_views(v)),
    ensures
        sort::in_order(v),
{
    let c = manifest::file_views(v);
    lemma_strict_is_in_order(c);
    assert forall|i: int, j: int| 0 <= i < j < v.len() implies !text::text_lt(
        sort::Sorted::sort_text(&#[trigger] v[j]),
        sort::Sorted::sort_text(&#[trigger] v[i]),
    ) by {
        assert(c[i] == v[i]@ && c[j] == v[j]@);
        assert(!text::text_lt(
            sort::Sorted::sort_text(&c[j]),
            sort::Sorted::sort_text(&c[i]),
        ));
    }
}

/// The place of the entry with the given path.
fn find_entry(c: &Vec<RestoredFile>, path: &String) -> (r: Option<usize>)
    requires
        strictly_ordered(manifest::file_views(c@)),
    ensures
        match r {
            Some(i) => i < c@.len() && catalog_get(manifest::file_views(c@), path@) == Some(
                c@[i as int]@,
            ),
            None => catalog_get(manifest::file_views(c@), path@) is None,
        },
{
    proof {
        lemma_views_in_order(c@);
        sort::lemma_run_maps(c@, |x: RestoredFile| x@, path@);
    }
    let p: usize = sort::find_place(c, path.as_str());
    assert(manifest::file_views(c@).len() == c@.len());
    if p < c.len() {
        assert(manifest::file_views(c@)[p as int] == c@[p as int]@);
        if c[p].path == *path {
            return Some(p);
        }
    }
    None
}

/// What is wrong with a file, now that `after` is what was read back of it.
fn describe_difference(before: &RestoredFile, after: Option<&RestoredFile>) -> (r: Option<String>)
    ensures
        text::opt_text(r) == file_difference(
            before@,
            match after {
                Some(f) => Some(f@),
                None => None,
            },
        ),
{
    match after {
        None => {
            let mut d = "missing after: ".to_owned();
            d.append(before.path.as_str());
            Some(d)
        },
        Some(now) => {
            if before.sha256 != now.sha256 {
                let mut d = "sha256 mismatch: ".to_owned();
                d.append(before.path.as_str());
                d.append(" (");
                d.append(before.sha256.as_str());
                d.append(" -> ");
                d.append(now.sha256.as_str());
                d.append(")");
                Some(d)
            } else if before.size != now.size {
                let mut d = "size mismatch: ".to_owned();
                d.append(before.path.as_str());
                d.append(" (");
                text::push_decimal(&mut d, before.size);
                d.append(" -> ");
                text::push_decimal(&mut d, now.size);
                d.append(")");
                Some(d)
            } else {
                None
            }
        },
    }
}

/// The differences between two manifests, in words.
pub fn manifest_diff(before: &[RestoredFile], after: &[RestoredFile]) -> (r: Vec<String>)
    ensures
        text::texts(r@) == differences(
            manifest::file_views(before@),
            manifest::file_views(after@),
        ),
{
    broadcast use text::lemma_texts_push;

    let a: Vec<RestoredFile> = build_catalog(before);
    let b: Vec<RestoredFile> = build_catalog(after);
    let ghost va = manifest::file_views(a@);
    let ghost vb = manifest::file_views(b@);
    proof {
        lemma_catalog_is_ordered(manifest::file_views(before@));
        lemma_catalog_is_ordered(manifest::file_views(after@));
    }
    let mut diffs: Vec<String> = Vec::new();
    let mut i: usize = 0;
    assert(va.take(0) =~= Seq::<FileView>::empty());
    assert(text::texts(diffs@) =~= Seq::<Seq<char>>::empty());
    while i < a.len()
        invariant
            i <= a@.len(),
            va == manifest::file_views(a@),
            vb == manifest::file_views(b@),
            strictly_ordered(vb),
            text::texts(diffs@) == changed(va.take(i as int), vb),
        decreases a@.len() - i,
    {
        broadcast use text::lemma_texts_push;

        assert(va.take(i + 1).drop_last() =~= va.take(i as int));
        assert(va.take(i + 1).last() == a@[i as int]@);
        let now: Option<&RestoredFile> = match find_entry(&b, &a[i].path) {
            Some(j) => Some(&b[j]),
            None => None,
        };
        match describe_difference(&a[i], now) {
            Some(d) => {
                diffs.push(d);
            },
            None => {},
        }
        i += 1;
    }
    assert(va.take(i as int) =~= va);
    let ghost first = text::texts(diffs@);
    assert(vb.take(0) =~= Seq::<FileView>::empty());
    assert(first + extra(va, vb.take(0)) =~= first);
    let mut j: usize = 0;
    while j < b.len()
        invariant
            j <= b@.len(),
            va == manifest::file_views(a@),
            vb == manifest::file_views(b@),
            strictly_ordered(va),
            text::texts(diffs@) == first + extra(va, vb.take(j as int)),
        decreases b@.len() - j,
    {
        broadcast use text::lemma_texts_push;

        assert(vb.take(j + 1).drop_last() =~= vb.take(j as int));
        assert(vb.take(j + 1).last() == b@[j as int]@);
        if find_entry(&a, &b[j].path).is_none() {
            let mut d = "unexpected extra: ".to_owned();
            d.append(b[j].path.as_str());
            diffs.push(d);
            assert(text::texts(diffs@) =~= first + extra(va, vb.take(j + 1)));
        }
        j += 1;
    }
    assert(vb.take(j as int) =~= vb);
    diffs
}

proof fn lemma_changed_holds(a: Seq<FileView>, b: Seq<FileView>, i: int)
    requires
        0 <= i < a.len(),
        file_difference(a[i], catalog_get(b, a[i].path)) is Some,
    ensures
        changed(a, b).contains(file_difference(a[i], catalog_get(b, a[i].path))->0),
    decreases a.len(),
{
    let front = a.drop_last();
    let d = file_difference(a[i], catalog_get(b, a[i].path))->0;
    let all = changed(a, b);
    if i < front.len() {
        assert(front[i] == a[i]);
        lemma_changed_holds(front, b, i);
        let n = choose|n: int| 0 <= n < changed(front, b).len() && changed(front, b)[n] == d;
        assert(all[n] == d);
    } else {
        assert(all[all.len() - 1] == d);
    }
}

proof fn lemma_extra_holds(a: Seq<FileView>, b: Seq<FileView>, i: int)
    requires
        0 <= i < b.len(),
        catalog_get(a, b[i].path) is None,
    ensures
        extra(a, b).contains("unexpected extra: "@ + b[i].path),
    decreases b.len(),
{
    let front = b.drop_last();
    let d = "unexpected extra: "@ + b[i].path;
    let all = extra(a, b);
    if i < front.len() {
        assert(front[i] == b[i]);
        lemma_extra_holds(a, front, i);
        let n = choose|n: int| 0 <= n < extra(a, front).len() && extra(a, front)[n] == d;
        assert(all[n] == d);
    } else {
        assert(all[all.len() - 1] == d);
    }
}

/// What is told of a path, given what the manifests say of it.
pub open spec fn told_of_path(
    path: Seq<char>,
    before: Option<FileView>,
    after: Option<FileView>,
) -> Option<Seq<char>> {
    match (before, after) {
        (Some(_), None) => Some("missing after: "@ + path),
        (None, Some(_)) => Some("unexpected extra: "@ + path),
        (Some(x), Some(y)) => if x.sha256 != y.sha256 {
            Some(
                "sha256 mismatch: "@ + path + " ("@ + x.sha256 + " -> "@ + y.sha256 + ")"@,
            )
        } else if x.size != y.size {
            Some(
                "size mismatch: "@ + path + " ("@ + text::decimal(x.size as nat) + " -> "@
                    + text::decimal(y.size as nat) + ")"@,
            )
        } else {
            None
        },
        (None, None) => None,
    }
}

/// Every path of which the manifests do not say the same is told of, in the
/// words for what is wrong with it.
pub proof fn law_every_difference_is_told(
    before: Seq<FileView>,
    after: Seq<FileView>,
    path: Seq<char>,
)
    ensures
        told_of_path(path, last_with_path(before, path), last_with_path(after, path)) matches Some(
            d,
        ) ==> differences(before, after).contains(d),
{
    let a = catalog(before);
    let b = catalog(after);
    lemma_catalog_is_ordered(before);
    lemma_catalog_is_ordered(after);
    law_catalog_holds_last_files(before, path);
    law_catalog_holds_last_files(after, path);
    lemma_get_finds(a, path);
    lemma_get_finds(b, path);
    let all = differences(before, after);
    if let Some(d) = told_of_path(path, last_with_path(before, path), last_with_path(after, path)) {
        if catalog_get(a, path) is Some {
            let f = catalog_get(a, path)->0;
            let i = choose|i: int| 0 <= i < a.len() && a[i] == f;
            lemma_changed_holds(a, b, i);
            let n = choose|n: int| 0 <= n < changed(a, b).len() && changed(a, b)[n] == d;
            assert(all[n] == d);
        } else {
            let g = catalog_get(b, path)->0;
            let i = choose|i: int| 0 <= i < b.len() && b[i] == g;
            lemma_extra_holds(a, b, i);
            let n = choose|n: int| 0 <= n < extra(a, b).len() && extra(a, b)[n] == d;
            assert(all[changed(a, b).len() + n] == d);
        }
    }
}

proof fn lemma_changed_tells(a: Seq<FileView>, b: Seq<FileView>, n: int) -> (i: int)
    requires
        0 <= n < changed(a, b).len(),
    ensures
        0 <= i < a.len(),
        file_difference(a[i], catalog_get(b, a[i].path)) == Some(changed(a, b)[n]),
    decreases a.len(),
{
    let front = a.drop_last();
    if n < changed(front, b).len() {
        let i = lemma_changed_tells(front, b, n);
        assert(front[i] == a[i]);
        i
    } else {
        a.len() - 1
    }
}

proof fn lemma_extra_tells(a: Seq<FileView>, b: Seq<FileView>, n: int) -> (i: int)
    requires
        0 <= n < extra(a, b).len(),
    ensures
        0 <= i < b.len(),
        catalog_get(a, b[i].path) is None,
        extra(a, b)[n] == "unexpected extra: "@ + b[i].path,
    decreases b.len(),
{
    let front = b.drop_last();
    if n < extra(a, front).len() {
        let i = lemma_extra_tells(a, front, n);
        assert(front[i] == b[i]);
        i
    } else {
        b.len() - 1
    }
}

/// Whatever is told is told of some path of which the manifests do not say the
/// same.
pub proof fn law_nothing_else_is_told(before: Seq<FileView>, after: Seq<FileView>, n: int) -> (path:
    Seq<char>)
    requires
        0 <= n < differences(before, after).len(),
    ensures
        told_of_path(path, last_with_path(before, path), last_with_path(after, path)) == Some(
            differences(before, after)[n],
        ),
{
    let a = catalog(before);
    let b = catalog(after);
    lemma_catalog_is_ordered(before);
    lemma_catalog_is_ordered(after);
    let path = if n < changed(a, b).len() {
        let i = lemma_changed_tells(a, b, n);
        a[i].path
    } else {
        let i = lemma_extra_tells(a, b, n - changed(a, b).len());
        b[i].path
    };
    law_catalog_holds_last_files(before, path);
    law_catalog_holds_last_files(after, path);
    lemma_get_finds(a, path);
    lemma_get_finds(b, path);
    path
}

/// A file counts over earlier ones with its path, and leaves other paths as
/// they are.
pub proof fn law_last_file_counts(files: Seq<FileView>, f: FileView, path: Seq<char>)
    ensures
        last_with_path(files.push(f), f.path) == Some(f),
        path != f.path ==> last_with_path(files.push(f), path) == last_with_path(files, path),
        last_with_path(Seq::empty(), path) is None,
{
    assert(files.push(f).drop_last() =~= files);
}

proof fn lemma_changed_in_order(a: Seq<FileView>, b: Seq<FileView>) -> (at: Seq<int>)
    ensures
        at.len() == changed(a, b).len(),
        forall|n: int|
            #![trigger at[n]]
            0 <= n < at.len() ==> 0 <= at[n] < a.len() && file_difference(
                a[at[n]],
                catalog_get(b, a[at[n]].path),
            ) == Some(changed(a, b)[n]),
        forall|n: int, m: int| 0 <= n < m < at.len() ==> #[trigger] at[n] < #[trigger] at[m],
    decreases a.len(),
{
    if a.len() == 0 {
        Seq::empty()
    } else {
        let front = a.drop_last();
        let before = lemma_changed_in_order(front, b);
        assert forall|n: int| 0 <= n < before.len() implies front[#[trigger] before[n]]
            == a[before[n]] by {}
        if file_difference(a.last(), catalog_get(b, a.last().path)) is Some {
            before.push(a.len() - 1)
        } else {
            before
        }
    }
}

proof fn lemma_extra_in_order(a: Seq<FileView>, b: Seq<FileView>) -> (at: Seq<int>)
    ensures
        at.len() == extra(a, b).len(),
        forall|n: int|
            #![trigger at[n]]
            0 <= n < at.len() ==> 0 <= at[n] < b.len() && catalog_get(a, b[at[n]].path) is None
                && extra(a, b)[n] == "unexpected extra: "@ + b[at[n]].path,
        forall|n: int, m: int| 0 <= n < m < at.len() ==> #[trigger] at[n] < #[trigger] at[m],
    decreases b.len(),
{
    if b.len() == 0 {
        Seq::empty()
    } else {
        let front = b.drop_last();
        let before = lemma_extra_in_order(a, front);
        assert forall|n: int| 0 <= n < before.len() implies front[#[trigger] before[n]]
            == b[before[n]] by {}
        if catalog_get(a, b.last().path) is None {
            before.push(b.len() - 1)
        } else {
            before
        }
    }
}

/// Differences are told in order, each once: first those of the paths in the
/// first manifest, then those of the other paths, either by ascending path.
pub proof fn law_differences_come_in_order(before: Seq<FileView>, after: Seq<FileView>) -> (r: (
    Seq<Seq<char>>,
    int,
))
    ensures
        r.0.len() == differences(before, after).len(),
        0 <= r.1 <= r.0.len(),
        forall|n: int|
            #![trigger r.0[n]]
            0 <= n < r.0.len() ==> {
                &&& told_of_path(
                    r.0[n],
                    last_with_path(before, r.0[n]),
                    last_with_path(after, r.0[n]),
                ) == Some(differences(before, after)[n])
                &&& last_with_path(before, r.0[n]) is Some <==> n < r.1
            },
        forall|n: int, m: int|
            0 <= n < m < r.0.len() && (m < r.1 || r.1 <= n) ==> text::text_lt(
                #[trigger] r.0[n],
                #[trigger] r.0[m],
            ),
{
    let a = catalog(before);
    let b = catalog(after);
    lemma_catalog_is_ordered(before);
    lemma_catalog_is_ordered(after);
    let at = lemma_changed_in_order(a, b);
    let more = lemma_extra_in_order(a, b);
    let k = at.len() as int;
    let paths = Seq::new(
        at.len() + more.len(),
        |n: int|
            if n < k {
                a[at[n]].path
            } else {
                b[more[n - k]].path
            },
    );
    assert forall|n: int|
        #![trigger paths[n]]
        0 <= n < paths.len() implies {
        &&& told_of_path(
            paths[n],
            last_with_path(before, paths[n]),
            last_with_path(after, paths[n]),
        ) == Some(differences(before, after)[n])
        &&& last_with_path(before, paths[n]) is Some <==> n < k
    } by {
        law_catalog_holds_last_files(before, paths[n]);
        law_catalog_holds_last_files(after, paths[n]);
        lemma_get_finds(a, paths[n]);
        lemma_get_finds(b, paths[n]);
        if n < k {
            assert(0 <= at[n] < a.len());
        } else {
            assert(0 <= more[n - k] < b.len());
        }
    }
    assert forall|n: int, m: int|
        0 <= n < m < paths.len() && (m < k || k <= n) implies text::text_lt(
        #[trigger] paths[n],
        #[trigger] paths[m],
    ) by {
        if m < k {
            assert(at[n] < at[m]);
        } else {
            assert(more[n - k] < more[m - k]);
        }
    }
    (paths, k)
}

} // verus!
