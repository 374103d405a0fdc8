//! Manifests of restored files: how one is put together, and how two are
//! compared.

use vstd::prelude::*;
use vstd::string::*;
use crate::pattern;
use crate::sort;
use crate::sort::SortKey;
use crate::text;

verus! {

/// A file that was restored and read back.
#[derive(Debug)]
pub struct RestoredFile {
    pub path: String,
    pub sha256: String,
    pub size: u64,
}

/// What a [`RestoredFile`] holds.
pub struct FileView {
    pub path: Seq<char>,
    pub sha256: Seq<char>,
    pub size: u64,
}

impl View for RestoredFile {
    type V = FileView;

    open spec fn view(&self) -> FileView {
        FileView { path: self.path@, sha256: self.sha256@, size: self.size }
    }
}

impl Clone for RestoredFile {
    fn clone(&self) -> (r: Self)
        ensures
            r@ == self@,
    {
        RestoredFile { path: self.path.clone(), sha256: self.sha256.clone(), size: self.size }
    }
}

impl sort::Sorted for FileView {
    open spec fn sort_text(&self) -> Seq<char> {
        self.path
    }
}

impl sort::Sorted for RestoredFile {
    open spec fn sort_text(&self) -> Seq<char> {
        self@.path
    }
}

impl sort::SortKey for RestoredFile {
    fn sort_str(&self) -> (r: &str) {
        self.path.as_str()
    }
}

/// What a list of files holds.
pub open spec fn file_views(v: Seq<RestoredFile>) -> Seq<FileView> {
    v.map_values(|f: RestoredFile| f@)
}

/// A copy of a list of files.
pub fn copy_files(v: &[RestoredFile]) -> (r: Vec<RestoredFile>)
    ensures
        file_views(r@) == file_views(v@),
{
    let mut r: Vec<RestoredFile> = Vec::new();
    let mut i: usize = 0;
    while i < v.len()
        invariant
            i <= v@.len(),
            r@.len() == i,
            forall|j: int| 0 <= j < i ==> (#[trigger] r@[j])@ == v@[j]@,
        decreases v@.len() - i,
    {
        r.push(v[i].clone());
        i += 1;
    }
    assert(file_views(r@) =~= file_views(v@));
    r
}

// ---------------------------------------------------------------------------
// Restoring

/// The include options of a restore: one per path, each matching it verbatim.
pub open spec fn include_options(paths: Seq<Seq<char>>) -> Seq<Seq<char>>
    decreases paths.len(),
{
    if paths.len() == 0 {
        seq![]
    } else {
        include_options(paths.drop_last()).push("--include"@).push(pattern::escaped(paths.last()))
    }
}

/// The include options of the restore that reads the given paths back; nothing,
/// and no restore, where there are none.
pub fn include_args(paths: &[String]) -> (r: Option<Vec<String>>)
    ensures
        match r {
            Some(args) => paths@.len() > 0 && text::texts(args@) == include_options(
                text::texts(paths@),
            ),
            None => paths@.len() == 0,
        },
{
    if paths.len() == 0 {
        return None;
    }
    let mut args: Vec<String> = Vec::new();
    let ghost all = text::texts(paths@);
    let mut i: usize = 0;
    assert(all.take(0) =~= Seq::<Seq<char>>::empty());
    assert(text::texts(args@) =~= include_options(all.take(0)));
    while i < paths.len()
        invariant
            i <= paths@.len(),
            all == text::texts(paths@),
            text::texts(args@) == include_options(all.take(i as int)),
        decreases paths@.len() - i,
    {
        broadcast use text::lemma_texts_push;

        args.push("--include".to_owned());
        args.push(pattern::escape_include_pattern(paths[i].as_str()));
        assert(all.take(i + 1).drop_last() =~= all.take(i as int));
        assert(all.take(i + 1).last() == paths@[i as int]@);
        i += 1;
    }
    assert(all.take(all.len() as int) =~= all);
    Some(args)
}

/// The arguments that restore what is included of a snapshot, and nothing
/// else, into a directory, with verification.
pub open spec fn restore_arguments(
    snapshot_id: Seq<char>,
    target: Seq<char>,
    includes: Seq<Seq<char>>,
) -> Seq<Seq<char>> {
    seq!["restore"@, snapshot_id, "--target"@, target, "--verify"@] + includes
}

/// The arguments that restore what is included of a snapshot.
pub fn restore_args(snapshot_id: &str, target: &str, includes: &[String]) -> (r: Vec<String>)
    ensures
        text::texts(r@) == restore_arguments(snapshot_id@, target@, text::texts(includes@)),
{
    let mut r: Vec<String> = text::strs(
        &["restore", snapshot_id, "--target", target, "--verify"],
    );
    let mut rest: Vec<String> = text::copy_texts(includes);
    let ghost a = r@;
    let ghost b = rest@;
    r.append(&mut rest);
    assert(text::texts(a + b) =~= text::texts(a) + text::texts(b));
    assert(text::texts(r@) =~= restore_arguments(
        snapshot_id@,
        target@,
        text::texts(includes@),
    ));
    r
}

/// Where below the target directory a path of a snapshot is restored to.
pub fn restored_location(path: &str) -> (r: String)
    ensures
        r@ == text::without_start_slashes(path@),
{
    text::trim_start_slashes(path)
}

/// What became of reading a restored file: its digest and size, or why it
/// could not be read.
pub open spec fn reading_view(r: Result<(String, u64), String>) -> Result<
    (Seq<char>, u64),
    Seq<char>,
> {
    match r {
        Ok((sha256, size)) => Ok((sha256@, size)),
        Err(e) => Err(e@),
    }
}

/// The files that could be read, in the order of their paths in the list.
pub open spec fn files_read(
    paths: Seq<Seq<char>>,
    readings: Seq<Result<(Seq<char>, u64), Seq<char>>>,
) -> Seq<FileView>
    decreases paths.len(),
{
    if paths.len() == 0 {
        seq![]
    } else {
        let before = files_read(paths.drop_last(), readings.drop_last());
        match readings.last() {
            Ok((sha256, size)) => before.push(FileView { path: paths.last(), sha256, size }),
            Err(_) => before,
        }
    }
}

/// The paths that could not be read, each with the reason.
pub open spec fn files_unread(
    paths: Seq<Seq<char>>,
    readings: Seq<Result<(Seq<char>, u64), Seq<char>>>,
) -> Seq<Seq<char>>
    decreases paths.len(),
{
    if paths.len() == 0 {
        seq![]
    } else {
        let before = files_unread(paths.drop_last(), readings.drop_last());
        match readings.last() {
            Ok(_) => before,
            Err(e) => before.push(paths.last() + ": "@ + e),
        }
    }
}

/// At most the first ten texts, joined.
pub open spec fn first_ten(items: Seq<Seq<char>>) -> Seq<char> {
    text::join(
        items.take(if items.len() < 10 {
            items.len() as int
        } else {
            10
        }),
        "; "@,
    )
}

/// At most the first ten texts, joined.
pub fn show_ten(items: &[String]) -> (s: String)
    ensures
        s@ == first_ten(text::texts(items@)),
{
    let n: usize = if items.len() < 10 {
        items.len()
    } else {
        10
    };
    let shown: &[String] = &items[0..n];
    assert(text::texts(shown@) =~= text::texts(items@).take(n as int));
    text::join_texts(shown, "; ")
}

/// What readings of restored files come to: a manifest in the order of the
/// paths, or how many files could not be read, with the first ten of them.
pub open spec fn assembled(
    paths: Seq<Seq<char>>,
    readings: Seq<Result<(Seq<char>, u64), Seq<char>>>,
    label: Seq<char>,
) -> Result<Seq<FileView>, Seq<char>> {
    let unread = files_unread(paths, readings);
    if unread.len() == 0 {
        Ok(sort::stable_sorted(files_read(paths, readings)))
    } else {
        Err(
            "["@ + label + "] "@ + text::decimal(unread.len()) + " of "@ + text::decimal(paths.len())
                + " restored files missing/unreadable: "@ + first_ten(unread),
        )
    }
}

/// The manifest of a restore: every file of the sample, sorted by path; or, if
/// any could not be read back, a message that names the first ten of those.
pub fn assemble_manifest(
    paths: &[String],
    readings: &[Result<(String, u64), String>],
    label: &str,
) -> (r: Result<Vec<RestoredFile>, String>)
    requires
        paths@.len() == readings@.len(),
    ensures
        ({
            let p = text::texts(paths@);
            let q = readings@.map_values(|x: Result<(String, u64), String>| reading_view(x));
            match r {
                Ok(manifest) => {
                    &&& files_unread(p, q).len() == 0
                    &&& file_views(manifest@) == sort::stable_sorted(files_read(p, q))
                },
                Err(e) => {
                    &&& files_unread(p, q).len() > 0
                    &&& e@ == "["@ + label@ + "] "@ + text::decimal(files_unread(p, q).len())
                        + " of "@ + text::decimal(p.len())
                        + " restored files missing/unreadable: "@ + first_ten(files_unread(p, q))
                },
            }
        }),
        assembled(
            text::texts(paths@),
            readings@.map_values(|x: Result<(String, u64), String>| reading_view(x)),
            label@,
        ) == match r {
            Ok(manifest) => Ok(file_views(manifest@)),
            Err(e) => Err(e@),
        },
{
    broadcast use text::lemma_texts_push;

    let ghost p = text::texts(paths@);
    let ghost q = readings@.map_values(|x: Result<(String, u64), String>| reading_view(x));
    let mut manifest: Vec<RestoredFile> = Vec::new();
    let mut errors: Vec<String> = Vec::new();
    let mut i: usize = 0;
    assert(file_views(manifest@) =~= files_read(p.take(0), q.take(0)));
    assert(text::texts(errors@) =~= files_unread(p.take(0), q.take(0)));
    while i < paths.len()
        invariant
            i <= paths@.len() == readings@.len(),
            p == text::texts(paths@),
            q == readings@.map_values(|x: Result<(String, u64), String>| reading_view(x)),
            file_views(manifest@) == files_read(p.take(i as int), q.take(i as int)),
            text::texts(errors@) == files_unread(p.take(i as int), q.take(i as int)),
        decreases paths@.len() - i,
    {
        broadcast use text::lemma_texts_push;

        assert(p.take(i + 1).drop_last() =~= p.take(i as int));
        assert(q.take(i + 1).drop_last() =~= q.take(i as int));
        assert(p.take(i + 1).last() == paths@[i as int]@);
        assert(q.take(i + 1).last() == reading_view(readings@[i as int]));
        match &readings[i] {
            Ok((sha256, size)) => {
                let ghost before = manifest@;
                let file = RestoredFile {
                    path: paths[i].clone(),
                    sha256: sha256.clone(),
                    size: *size,
                };
                manifest.push(file);
                assert(file_views(manifest@) =~= file_views(before).push(file@));
            },
            Err(e) => {
                let mut line: String = paths[i].clone();
                line.append(": ");
                line.append(e.as_str());
                errors.push(line);
            },
        }
        i += 1;
    }
    assert(p.take(i as int) =~= p);
    assert(q.take(i as int) =~= q);
    assert(text::texts(errors@).len() == errors@.len());
    if errors.len() > 0 {
        let mut e = "[".to_owned();
        e.append(label);
        e.append("] ");
        text::push_decimal(&mut e, errors.len() as u64);
        e.append(" of ");
        text::push_decimal(&mut e, paths.len() as u64);
        e.append(" restored files missing/unreadable: ");
        e.append(show_ten(errors.as_slice()).as_str());
        return Err(e);
    }
    proof {
        sort::lemma_sorting_maps(manifest@, |f: RestoredFile| f@);
    }
    Ok(sort::sort_stably(manifest))
}

/// Every path of the sample is either in the manifest or among those that
/// could not be read.
pub proof fn law_every_path_is_accounted_for(
    paths: Seq<Seq<char>>,
    readings: Seq<Result<(Seq<char>, u64), Seq<char>>>,
)
    requires
        paths.len() == readings.len(),
    ensures
        files_read(paths, readings).len() + files_unread(paths, readings).len() == paths.len(),
        files_unread(paths, readings).len() == 0 ==> {
            &&& forall|i: int| 0 <= i < paths.len() ==> (#[trigger] readings[i]) is Ok
            &&& files_read(paths, readings) == Seq::new(
                paths.len(),
                |i: int|
                    FileView {
                        path: paths[i],
                        sha256: readings[i]->Ok_0.0,
                        size: readings[i]->Ok_0.1,
                    },
            )
        },
    decreases paths.len(),
{
    if paths.len() > 0 {
        let p = paths.drop_last();
        let q = readings.drop_last();
        law_every_path_is_accounted_for(p, q);
        if files_unread(paths, readings).len() == 0 {
            assert forall|i: int| 0 <= i < paths.len() implies (#[trigger] readings[i]) is Ok by {
                if i < p.len() {
                    assert(q[i] == readings[i]);
                }
            }
            assert(files_read(paths, readings) =~= Seq::new(
                paths.len(),
                |i: int|
                    FileView {
                        path: paths[i],
                        sha256: readings[i]->Ok_0.0,
                        size: readings[i]->Ok_0.1,
                    },
            ));
        }
    } else {
        assert(files_read(paths, readings) =~= Seq::new(
            paths.len(),
            |i: int|
                FileView {
                    path: paths[i],
                    sha256: readings[i]->Ok_0.0,
                    size: readings[i]->Ok_0.1,
                },
        ));
    }
}

/// The include options are two per path: the option, and the path escaped.
pub proof fn law_every_path_is_included(paths: Seq<Seq<char>>, i: int)
    requires
        0 <= i < paths.len(),
    ensures
        include_options(paths).len() == 2 * paths.len(),
        include_options(paths)[2 * i] == "--include"@,
        include_options(paths)[2 * i + 1] == pattern::escaped(paths[i]),
        include_options(Seq::empty()).len() == 0,
    decreases paths.len(),
{
    let front = paths.drop_last();
    lemma_include_len(front);
    if i < front.len() {
        law_every_path_is_included(front, i);
        assert(front[i] == paths[i]);
    }
}

proof fn lemma_include_len(paths: Seq<Seq<char>>)
    ensures
        include_options(paths).len() == 2 * paths.len(),
    decreases paths.len(),
{
    if paths.len() > 0 {
        lemma_include_len(paths.drop_last());
    }
}

/// A restore names the snapshot and the target, verifies, and then lists what
/// it includes.
pub proof fn law_restore_is_verified(
    snapshot_id: Seq<char>,
    target: Seq<char>,
    includes: Seq<Seq<char>>,
)
    ensures
        restore_arguments(snapshot_id, target, includes).take(5) == seq![
            "restore"@,
            snapshot_id,
            "--target"@,
            target,
            "--verify"@,
        ],
        restore_arguments(snapshot_id, target, includes).skip(5) == includes,
{
    let r = restore_arguments(snapshot_id, target, includes);
    assert(r.take(5) =~= seq!["restore"@, snapshot_id, "--target"@, target, "--verify"@]);
    assert(r.skip(5) =~= includes);
}

/// Every path that was read is in the manifest with its digest and its size,
/// and every other one is told with the reason; nothing else is in either.
pub proof fn law_readings_go_where_they_belong(
    paths: Seq<Seq<char>>,
    readings: Seq<Result<(Seq<char>, u64), Seq<char>>>,
    i: int,
)
    requires
        paths.len() == readings.len(),
        0 <= i < paths.len(),
    ensures
        readings[i] is Ok ==> files_read(paths, readings).contains(
            FileView {
                path: paths[i],
                sha256: readings[i]->Ok_0.0,
                size: readings[i]->Ok_0.1,
            },
        ),
        readings[i] is Err ==> files_unread(paths, readings).contains(
            paths[i] + ": "@ + readings[i]->Err_0,
        ),
        files_read(paths, readings).len() + files_unread(paths, readings).len() == paths.len(),
    decreases paths.len(),
{
    law_every_path_is_accounted_for(paths, readings);
    let p = paths.drop_last();
    let q = readings.drop_last();
    let read = files_read(paths, readings);
    let unread = files_unread(paths, readings);
    if i < p.len() {
        law_readings_go_where_they_belong(p, q, i);
        assert(p[i] == paths[i] && q[i] == readings[i]);
        if readings[i] is Ok {
            let f = FileView {
                path: paths[i],
                sha256: readings[i]->Ok_0.0,
                size: readings[i]->Ok_0.1,
            };
            let n = choose|n: int| 0 <= n < files_read(p, q).len() && files_read(p, q)[n] == f;
            assert(read[n] == f);
        } else {
            let m = paths[i] + ": "@ + readings[i]->Err_0;
            let n = choose|n: int| 0 <= n < files_unread(p, q).len() && files_unread(p, q)[n] == m;
            assert(unread[n] == m);
        }
    } else if readings[i] is Ok {
        assert(read[read.len() - 1].path == paths[i]);
    } else {
        assert(unread[unread.len() - 1] == paths[i] + ": "@ + readings[i]->Err_0);
    }
}

/// A manifest is in the order of its paths.
pub proof fn law_manifest_is_ordered_by_path(files: Seq<FileView>, i: int, j: int)
    requires
        0 <= i < j < files.len(),
    ensures
        !text::text_lt(sort::stable_sorted(files)[j].path, sort::stable_sorted(files)[i].path),
        sort::stable_sorted(files).to_multiset() == files.to_multiset(),
{
    sort::law_sorting_orders_the_same_values(files);
    let r = sort::stable_sorted(files);
    assert(!text::text_lt(
        sort::Sorted::sort_text(&r[j]),
        sort::Sorted::sort_text(&r[i]),
    ));
}

/// Of a list at most ten texts are shown, from its start.
pub proof fn law_ten_are_shown(items: Seq<Seq<char>>, more: Seq<Seq<char>>)
    ensures
        items.len() <= 10 ==> first_ten(items) == text::join(items, "; "@),
        items.len() == 10 ==> first_ten(items + more) == text::join(items, "; "@),
{
    if items.len() <= 10 {
        assert(items.take(items.len() as int) =~= items);
    }
    if items.len() == 10 {
        assert((items + more).take(10) =~= items);
    }
}

/// Readings are gone through one by one: what is read, and what could not be,
/// stays in the order of the paths.
pub proof fn law_readings_keep_their_order(
    p: Seq<Seq<char>>,
    q: Seq<Result<(Seq<char>, u64), Seq<char>>>,
    p2: Seq<Seq<char>>,
    q2: Seq<Result<(Seq<char>, u64), Seq<char>>>,
    path: Seq<char>,
    sha256: Seq<char>,
    size: u64,
    e: Seq<char>,
)
    requires
        p.len() == q.len(),
        p2.len() == q2.len(),
    ensures
        files_read(p + p2, q + q2) == files_read(p, q) + files_read(p2, q2),
        files_unread(p + p2, q + q2) == files_unread(p, q) + files_unread(p2, q2),
        files_read(seq![path], seq![Ok((sha256, size))]) == seq![FileView { path, sha256, size }],
        files_unread(seq![path], seq![Ok((sha256, size))]).len() == 0,
        files_read(seq![path], seq![Err(e)]).len() == 0,
        files_unread(seq![path], seq![Err(e)]) == seq![path + ": "@ + e],
    decreases p2.len(),
{
    let one = seq![path];
    let good = seq![Ok::<(Seq<char>, u64), Seq<char>>((sha256, size))];
    let bad = seq![Err::<(Seq<char>, u64), Seq<char>>(e)];
    assert(one.drop_last() =~= Seq::<Seq<char>>::empty());
    assert(files_read(one.drop_last(), good.drop_last()) =~= Seq::<FileView>::empty());
    assert(files_unread(one.drop_last(), good.drop_last()) =~= Seq::<Seq<char>>::empty());
    assert(files_read(one.drop_last(), bad.drop_last()) =~= Seq::<FileView>::empty());
    assert(files_unread(one.drop_last(), bad.drop_last()) =~= Seq::<Seq<char>>::empty());
    if p2.len() == 0 {
        assert(p + p2 =~= p && q + q2 =~= q);
        assert(files_read(p, q) + files_read(p2, q2) =~= files_read(p, q));
        assert(files_unread(p, q) + files_unread(p2, q2) =~= files_unread(p, q));
    } else {
        law_readings_keep_their_order(
            p,
            q,
            p2.drop_last(),
            q2.drop_last(),
            path,
            sha256,
            size,
            e,
        );
        assert((p + p2).drop_last() =~= p + p2.drop_last());
        assert((q + q2).drop_last() =~= q + q2.drop_last());
        assert(files_read(p + p2, q + q2) =~= files_read(p, q) + files_read(p2, q2));
        assert(files_unread(p + p2, q + q2) =~= files_unread(p, q) + files_unread(p2, q2));
    }
}

/// A manifest comes only of files that were all read, and holds each of them;
/// one that was not read makes it an error, which tells how many were not.
pub proof fn law_manifest_needs_every_file(
    paths: Seq<Seq<char>>,
    readings: Seq<Result<(Seq<char>, u64), Seq<char>>>,
    label: Seq<char>,
    i: int,
)
    requires
        paths.len() == readings.len(),
        0 <= i < paths.len(),
    ensures
        ({
            let r = assembled(paths, readings, label);
            let unread = files_unread(paths, readings);
            &&& readings[i] is Err ==> r is Err
            &&& (forall|j: int| 0 <= j < readings.len() ==> (#[trigger] readings[j]) is Ok) ==> r
                is Ok
            &&& r matches Ok(files) ==> files.len() == paths.len() && files.contains(
                FileView {
                    path: paths[i],
                    sha256: readings[i]->Ok_0.0,
                    size: readings[i]->Ok_0.1,
                },
            )
            &&& r matches Err(e) ==> e == "["@ + label + "] "@ + text::decimal(unread.len())
                + " of "@ + text::decimal(paths.len())
                + " restored files missing/unreadable: "@ + text::join(
                if unread.len() <= 10 {
                    unread
                } else {
                    unread.take(10)
                },
                "; "@,
            )
        }),
{
    law_every_path_is_accounted_for(paths, readings);
    law_readings_go_where_they_belong(paths, readings, i);
    let read = files_read(paths, readings);
    let unread = files_unread(paths, readings);
    sort::law_sorting_orders_the_same_values(read);
    assert(unread.take(unread.len() as int) =~= unread);
    if unread.len() == 0 {
        let f = FileView {
            path: paths[i],
            sha256: readings[i]->Ok_0.0,
            size: readings[i]->Ok_0.1,
        };
        let sorted = sort::stable_sorted(read);
        sorted.to_multiset_ensures();
        read.to_multiset_ensures();
        assert(read.to_multiset().count(f) > 0);
        assert(sorted.contains(f));
    }
    if forall|j: int| 0 <= j < readings.len() ==> (#[trigger] readings[j]) is Ok {
        lemma_all_read(paths, readings);
    }
}

proof fn lemma_all_read(
    paths: Seq<Seq<char>>,
    readings: Seq<Result<(Seq<char>, u64), Seq<char>>>,
)
    requires
        paths.len() == readings.len(),
        forall|j: int| 0 <= j < readings.len() ==> (#[trigger] readings[j]) is Ok,
    ensures
        files_unread(paths, readings).len() == 0,
    decreases paths.len(),
{
    if paths.len() > 0 {
        let q = readings.drop_last();
        assert forall|j: int| 0 <= j < q.len() implies (#[trigger] q[j]) is Ok by {
            assert(q[j] == readings[j]);
        }
        assert(readings[readings.len() - 1] is Ok);
        lemma_all_read(paths.drop_last(), q);
    }
}

} // verus!
