//! Snapshots of a repository: which one is the latest of the home directory,
//! and which one of a replica is the copy of a given one.

use vstd::prelude::*;
use vstd::string::*;
use vstd::utf8;
use crate::text;

verus! {

/// A snapshot as `restic snapshots --json` lists it.
#[derive(Debug)]
pub struct Snapshot {
    pub id: String,
    pub time: String,
    pub paths: Vec<String>,
    /// On a snapshot that `restic copy` made: the identifier of its source. The
    /// copy itself has a new identifier.
    pub original: Option<String>,
}

/// What a [`Snapshot`] holds.
pub struct SnapshotView {
    pub id: Seq<char>,
    pub time: Seq<char>,
    pub paths: Seq<Seq<char>>,
    pub original: Option<Seq<char>>,
}

impl View for Snapshot {
    type V = SnapshotView;

    open spec fn view(&self) -> SnapshotView {
        SnapshotView {
            id: self.id@,
            time: self.time@,
            paths: text::texts(self.paths@),
            original: text::opt_text(self.original),
        }
    }
}

impl Clone for Snapshot {
    fn clone(&self) -> (r: Self)
        ensures
            r@ == self@,
    {
        Snapshot {
            id: self.id.clone(),
            time: self.time.clone(),
            paths: text::copy_texts(&self.paths),
            original: text::copy_opt_text(&self.original),
        }
    }
}

/// What a list of snapshots holds.
pub open spec fn snapshot_views(v: Seq<Snapshot>) -> Seq<SnapshotView> {
    v.map_values(|s: Snapshot| s@)
}

/// The list that a parsed snapshot listing stands for: an empty repository is
/// listed as nothing at all.
pub fn listed(parsed: Option<Vec<Snapshot>>) -> (r: Vec<Snapshot>)
    ensures
        r@ == match parsed {
            Some(v) => v@,
            None => Seq::<Snapshot>::empty(),
        },
{
    match parsed {
        Some(v) => v,
        None => Vec::new(),
    }
}

/// What `chrono` reads from an RFC 3339 date and time: the nanoseconds since
/// the epoch, where an `i64` can hold them, and the whole seconds.
pub uninterp spec fn rfc3339_instant(text: Seq<char>) -> Option<(Option<i64>, i64)>;

/// `chrono::DateTime::parse_from_rfc3339`, and of the instant that it gives
/// `timestamp_nanos_opt` and `timestamp`; nothing where the text is no such
/// date and time. The contract claims that all three depend on the text alone.
#[verifier::external_body]
fn parse_rfc3339(text: &str) -> (r: Option<(Option<i64>, i64)>)
    ensures
        r == rfc3339_instant(text@),
{
    chrono::DateTime::parse_from_rfc3339(text)
        .ok()
        .map(|d| (d.timestamp_nanos_opt(), d.timestamp()))
}

/// `n`, or the end of the range of `i64` that it lies beyond.
pub open spec fn clamped(n: int) -> i64 {
    if n < i64::MIN {
        i64::MIN
    } else if n > i64::MAX {
        i64::MAX
    } else {
        n as i64
    }
}

/// The nanoseconds by which an instant is ordered: its own, or those of its
/// whole seconds where they do not fit; an unreadable time comes first.
pub open spec fn order_nanos(instant: Option<(Option<i64>, i64)>) -> i64 {
    match instant {
        Some((Some(nanos), _)) => nanos,
        Some((None, secs)) => clamped(secs * 1_000_000_000),
        None => i64::MIN,
    }
}

/// The nanoseconds by which an instant is ordered.
pub fn ordering_nanos(instant: Option<(Option<i64>, i64)>) -> (r: i64)
    ensures
        r == order_nanos(instant),
{
    match instant {
        Some((Some(nanos), _)) => nanos,
        Some((None, secs)) => {
            let product: i128 = (secs as i128) * 1_000_000_000i128;
            if product < i64::MIN as i128 {
                i64::MIN
            } else if product > i64::MAX as i128 {
                i64::MAX
            } else {
                product as i64
            }
        },
        None => i64::MIN,
    }
}

/// The order of snapshots in time: by nanoseconds, then by the text of the time.
pub open spec fn key_lt(a: (i64, Seq<char>), b: (i64, Seq<char>)) -> bool {
    a.0 < b.0 || (a.0 == b.0 && text::text_lt(a.1, b.1))
}

/// What snapshots are ordered by.
pub fn snapshot_time_key(s: &Snapshot) -> (r: (i64, String))
    ensures
        r.0 == order_nanos(rfc3339_instant(s@.time)),
        r.1@ == s@.time,
{
    (ordering_nanos(parse_rfc3339(s.time.as_str())), s.time.clone())
}

/// Whether a snapshot is one of the home directory: slashes at the end of
/// either path do not matter.
pub open spec fn is_of_home(s: SnapshotView, home: Seq<char>) -> bool {
    exists|i: int|
        0 <= i < s.paths.len() && #[trigger] text::without_end_slashes(s.paths[i])
            == text::without_end_slashes(home)
}

/// Whether `s` is a snapshot of `home`.
pub fn covers_home(s: &Snapshot, home: &str) -> (r: bool)
    ensures
        r == is_of_home(s@, home@),
{
    let wanted: String = text::trim_end_slashes(home);
    let mut i: usize = 0;
    while i < s.paths.len()
        invariant
            i <= s.paths@.len(),
            wanted@ == text::without_end_slashes(home@),
            forall|j: int|
                0 <= j < i ==> #[trigger] text::without_end_slashes(s@.paths[j])
                    != text::without_end_slashes(home@),
        decreases s.paths@.len() - i,
    {
        let path: String = text::trim_end_slashes(s.paths[i].as_str());
        assert(s@.paths[i as int] == s.paths@[i as int]@);
        if path == wanted {
            assert(text::without_end_slashes(s@.paths[i as int]) == text::without_end_slashes(
                home@,
            ));
            return true;
        }
        i += 1;
    }
    false
}

/// Whether any of the snapshots is one of `home`.
pub open spec fn some_of_home(snaps: Seq<SnapshotView>, home: Seq<char>) -> bool {
    exists|i: int| 0 <= i < snaps.len() && is_of_home(#[trigger] snaps[i], home)
}

/// Whether any of the snapshots is one of `home`.
pub fn any_of_home(snaps: &[Snapshot], home: &str) -> (r: bool)
    ensures
        r == some_of_home(snapshot_views(snaps@), home@),
{
    let ghost all = snapshot_views(snaps@);
    let mut i: usize = 0;
    while i < snaps.len()
        invariant
            i <= snaps@.len(),
            all == snapshot_views(snaps@),
            forall|j: int| 0 <= j < i ==> !is_of_home(#[trigger] all[j], home@),
        decreases snaps@.len() - i,
    {
        assert(all[i as int] == snaps@[i as int]@);
        if covers_home(&snaps[i], home) {
            return true;
        }
        i += 1;
    }
    false
}

/// Whether the snapshot at `i` is the latest one of `home`, where `nanos` gives
/// the instant of each: none of `home` is later, and of those that are equally
/// late it is listed last.
pub open spec fn is_latest(
    snaps: Seq<SnapshotView>,
    nanos: Seq<i64>,
    home: Seq<char>,
    i: int,
) -> bool {
    &&& 0 <= i < snaps.len()
    &&& is_of_home(snaps[i], home)
    &&& forall|j: int|
        0 <= j < snaps.len() && is_of_home(#[trigger] snaps[j], home) ==> {
            &&& !key_lt((nanos[i], snaps[i].time), (nanos[j], snaps[j].time))
            &&& j > i ==> key_lt((nanos[j], snaps[j].time), (nanos[i], snaps[i].time))
        }
}

/// The index of the latest snapshot of `home`, where `nanos` gives the instant
/// of each.
pub fn latest_by_nanos(snaps: &[Snapshot], nanos: &[i64], home: &str) -> (r: Option<usize>)
    requires
        snaps@.len() == nanos@.len(),
    ensures
        match r {
            Some(i) => is_latest(snapshot_views(snaps@), nanos@, home@, i as int),
            None => forall|j: int|
                0 <= j < snaps@.len() ==> !is_of_home(#[trigger] snaps@[j]@, home@),
        },
{
    let ghost views = snapshot_views(snaps@);
    let mut best: Option<usize> = None;
    let mut i: usize = 0;
    while i < snaps.len()
        invariant
            i <= snaps@.len() == nanos@.len(),
            views == snapshot_views(snaps@),
            match best {
                Some(b) => {
                    &&& b < i
                    &&& is_of_home(views[b as int], home@)
                    &&& forall|j: int|
                        0 <= j < i && is_of_home(#[trigger] views[j], home@) ==> {
                            &&& !key_lt(
                                (nanos@[b as int], views[b as int].time),
                                (nanos@[j], views[j].time),
                            )
                            &&& j > b ==> key_lt(
                                (nanos@[j], views[j].time),
                                (nanos@[b as int], views[b as int].time),
                            )
                        }
                },
                None => forall|j: int|
                    0 <= j < i ==> !is_of_home(#[trigger] views[j], home@),
            },
        decreases snaps@.len() - i,
    {
        assert(views[i as int] == snaps@[i as int]@);
        if covers_home(&snaps[i], home) {
            match best {
                None => {
                    proof {
                        text::lemma_text_lt_irreflexive(views[i as int].time);
                    }
                    best = Some(i);
                },
                Some(b) => {
                    assert(views[b as int] == snaps@[b as int]@);
                    let earlier = nanos[i] < nanos[b] || (nanos[i] == nanos[b] && text::text_before(
                        snaps[i].time.as_str(),
                        snaps[b].time.as_str(),
                    ));
                    let ghost kb = (nanos@[b as int], views[b as int].time);
                    let ghost ki = (nanos@[i as int], views[i as int].time);
                    proof {
                        lemma_key_order(ki, kb, ki);
                    }
                    if !earlier {
                        proof {
                            assert forall|j: int|
                                0 <= j < i + 1 && is_of_home(#[trigger] views[j], home@) implies {
                                &&& !key_lt(ki, (nanos@[j], views[j].time))
                                &&& j > i ==> key_lt((nanos@[j], views[j].time), ki)
                            } by {
                                let kj = (nanos@[j], views[j].time);
                                if j < i {
                                    assert(!key_lt(kb, kj));
                                    if key_lt(ki, kj) {
                                        lemma_key_order(ki, kj, kb);
                                        lemma_key_order(kb, ki, kj);
                                    }
                                }
                            }
                        }
                        best = Some(i);
                    }
                },
            }
        }
        i += 1;
    }
    proof {
        assert(views.len() == snaps@.len());
        assert(forall|j: int| 0 <= j < snaps@.len() ==> views[j] == #[trigger] snaps@[j]@);
    }
    best
}

/// The order in time is strict, total and transitive.
proof fn lemma_key_order(a: (i64, Seq<char>), b: (i64, Seq<char>), c: (i64, Seq<char>))
    ensures
        !key_lt(a, a),
        a == b || key_lt(a, b) || key_lt(b, a),
        key_lt(a, b) && key_lt(b, c) ==> key_lt(a, c),
        !(key_lt(a, b) && key_lt(b, a)),
{
    text::lemma_text_lt_irreflexive(a.1);
    text::lemma_text_lt_total(a.1, b.1);
    if text::text_lt(a.1, b.1) && text::text_lt(b.1, c.1) {
        text::lemma_text_lt_transitive(a.1, b.1, c.1);
    }
    if text::text_lt(a.1, b.1) && text::text_lt(b.1, a.1) {
        text::lemma_text_lt_transitive(a.1, b.1, a.1);
    }
}

/// The instants of a list of snapshots, in nanoseconds.
pub open spec fn order_nanos_of(snaps: Seq<SnapshotView>) -> Seq<i64> {
    snaps.map_values(|s: SnapshotView| order_nanos(rfc3339_instant(s.time)))
}

/// The latest snapshot of `home`, if there is one of it, where `nanos` gives
/// the instant of each.
pub open spec fn latest_of(
    snaps: Seq<SnapshotView>,
    nanos: Seq<i64>,
    home: Seq<char>,
) -> Option<SnapshotView> {
    if exists|i: int| is_latest(snaps, nanos, home, i) {
        Some(snaps[choose|i: int| is_latest(snaps, nanos, home, i)])
    } else {
        None
    }
}

/// What an optional snapshot holds.
pub open spec fn opt_snapshot(o: Option<Snapshot>) -> Option<SnapshotView> {
    match o {
        Some(s) => Some(s@),
        None => None,
    }
}

/// The latest snapshot of `home`, if there is one of it.
pub fn latest_home_snapshot(snaps: &[Snapshot], home: &str) -> (r: Option<Snapshot>)
    ensures
        opt_snapshot(r) == latest_of(
            snapshot_views(snaps@),
            order_nanos_of(snapshot_views(snaps@)),
            home@,
        ),
        match r {
            Some(s) => exists|i: int|
                {
                    &&& #[trigger] is_latest(
                        snapshot_views(snaps@),
                        order_nanos_of(snapshot_views(snaps@)),
                        home@,
                        i,
                    )
                    &&& s@ == snaps@[i]@
                },
            None => forall|j: int|
                0 <= j < snaps@.len() ==> !is_of_home(#[trigger] snaps@[j]@, home@),
        },
{
    let mut nanos: Vec<i64> = Vec::new();
    let mut i: usize = 0;
    while i < snaps.len()
        invariant
            i <= snaps@.len(),
            nanos@.len() == i,
            forall|j: int|
                0 <= j < i ==> #[trigger] nanos@[j] == order_nanos(
                    rfc3339_instant(snaps@[j]@.time),
                ),
        decreases snaps@.len() - i,
    {
        let key: (i64, String) = snapshot_time_key(&snaps[i]);
        nanos.push(key.0);
        i += 1;
    }
    let ghost all = snapshot_views(snaps@);
    assert(nanos@ =~= order_nanos_of(all));
    match latest_by_nanos(snaps, nanos.as_slice(), home) {
        Some(b) => {
            proof {
                let c = choose|i: int| is_latest(all, nanos@, home@, i);
                assert(is_latest(all, nanos@, home@, b as int));
                law_latest_is_unique(all, nanos@, home@, b as int, c);
            }
            Some(snaps[b].clone())
        },
        None => {
            assert forall|i: int| !is_latest(all, nanos@, home@, i) by {
                if is_latest(all, nanos@, home@, i) {
                    assert(all[i] == snaps@[i]@);
                }
            }
            None
        },
    }
}

/// Whether a snapshot is the one with the given identifier, or a copy of it.
pub open spec fn is_copy_of(s: SnapshotView, source_id: Seq<char>) -> bool {
    s.id == source_id || s.original == Some(source_id)
}

/// The first snapshot that has the given identifier or is a copy of the one
/// that has it.
pub open spec fn first_copy(snaps: Seq<SnapshotView>, source_id: Seq<char>) -> Option<SnapshotView>
    decreases snaps.len(),
{
    if snaps.len() == 0 {
        None
    } else {
        match first_copy(snaps.drop_last(), source_id) {
            Some(s) => Some(s),
            None => if is_copy_of(snaps.last(), source_id) {
                Some(snaps.last())
            } else {
                None
            },
        }
    }
}

/// The first of the snapshots that meets the condition is what its definition
/// finds.
proof fn lemma_first_copy(snaps: Seq<SnapshotView>, source_id: Seq<char>, n: int)
    requires
        0 <= n <= snaps.len(),
        forall|j: int| 0 <= j < n ==> !is_copy_of(#[trigger] snaps[j], source_id),
        n < snaps.len() ==> is_copy_of(snaps[n], source_id),
    ensures
        first_copy(snaps, source_id) == if n < snaps.len() {
            Some(snaps[n])
        } else {
            None
        },
    decreases snaps.len(),
{
    if snaps.len() > 0 {
        let rest = snaps.drop_last();
        if n < snaps.len() {
            assert(n < rest.len() ==> rest[n] == snaps[n]);
            lemma_first_copy(rest, source_id, n);
        } else {
            lemma_first_copy(rest, source_id, n - 1);
            assert(!is_copy_of(snaps[n - 1], source_id));
        }
    }
}

/// The first snapshot that has the given identifier or is a copy of the one
/// that has it. `restic copy` gives a copy a new identifier and records that
/// of its source.
pub fn resolve_copied_snapshot<'a>(snaps: &'a [Snapshot], source_id: &str) -> (r: Option<
    &'a Snapshot,
>)
    ensures
        match r {
            Some(s) => exists|i: int|
                {
                    &&& 0 <= i < snaps@.len()
                    &&& *s == #[trigger] snaps@[i]
                    &&& is_copy_of(snaps@[i]@, source_id@)
                    &&& forall|j: int| 0 <= j < i ==> !is_copy_of(#[trigger] snaps@[j]@, source_id@)
                    &&& first_copy(snapshot_views(snaps@), source_id@) == Some(s@)
                },
            None => {
                &&& forall|j: int|
                    0 <= j < snaps@.len() ==> !is_copy_of(#[trigger] snaps@[j]@, source_id@)
                &&& first_copy(snapshot_views(snaps@), source_id@) is None
            },
        },
{
    let ghost all = snapshot_views(snaps@);
    let mut i: usize = 0;
    while i < snaps.len()
        invariant
            i <= snaps@.len(),
            all == snapshot_views(snaps@),
            forall|j: int| 0 <= j < i ==> !is_copy_of(#[trigger] all[j], source_id@),
        decreases snaps@.len() - i,
    {
        assert(all[i as int] == snaps@[i as int]@);
        let s: &Snapshot = &snaps[i];
        let from_source = match &s.original {
            Some(o) => text::same_text(o.as_str(), source_id),
            None => false,
        };
        if text::same_text(s.id.as_str(), source_id) || from_source {
            proof {
                assert forall|j: int| 0 <= j < i implies !is_copy_of(
                    #[trigger] snaps@[j]@,
                    source_id@,
                ) by {
                    assert(all[j] == snaps@[j]@);
                }
                lemma_first_copy(all, source_id@, i as int);
            }
            return Some(s);
        }
        i += 1;
    }
    proof {
        assert forall|j: int| 0 <= j < snaps@.len() implies !is_copy_of(
            #[trigger] snaps@[j]@,
            source_id@,
        ) by {
            assert(all[j] == snaps@[j]@);
        }
        lemma_first_copy(all, source_id@, i as int);
    }
    None
}

/// Whether the list holds a snapshot with the given identifier.
pub open spec fn id_listed(snaps: Seq<SnapshotView>, id: Seq<char>) -> bool {
    exists|i: int| 0 <= i < snaps.len() && (#[trigger] snaps[i]).id == id
}

/// Whether the list holds a snapshot with the given identifier.
pub fn holds_id(snaps: &[Snapshot], id: &str) -> (r: bool)
    ensures
        r == id_listed(snapshot_views(snaps@), id@),
{
    let ghost all = snapshot_views(snaps@);
    let mut i: usize = 0;
    while i < snaps.len()
        invariant
            i <= snaps@.len(),
            all == snapshot_views(snaps@),
            forall|j: int| 0 <= j < i ==> (#[trigger] all[j]).id != id@,
        decreases snaps@.len() - i,
    {
        assert(all[i as int] == snaps@[i as int]@);
        if text::same_text(snaps[i].id.as_str(), id) {
            return true;
        }
        i += 1;
    }
    false
}

/// How many bytes of an identifier its short form keeps.
pub open spec fn short_len(id: Seq<char>) -> int {
    if utf8::encode_utf8(id).len() < 8 {
        utf8::encode_utf8(id).len() as int
    } else {
        8
    }
}

/// Whether an identifier has a short form: eight bytes of it must not end
/// inside a character.
#[verifier::opaque]
pub open spec fn can_shorten(id: Seq<char>) -> bool {
    utf8::is_char_boundary(utf8::encode_utf8(id), short_len(id))
}

/// The short form of an identifier: its first eight bytes.
#[verifier::opaque]
pub open spec fn shortened(id: Seq<char>) -> Seq<char> {
    utf8::decode_utf8(utf8::encode_utf8(id).take(short_len(id)))
}

/// The short form of an identifier.
pub fn short_id(id: &str) -> (r: &str)
    requires
        can_shorten(id@),
    ensures
        r@ == shortened(id@),
        r.spec_bytes() == id.spec_bytes().take(short_len(id@)),
{
    proof {
        reveal(can_shorten);
        reveal(shortened);
    }
    let n: usize = if id.as_bytes().len() < 8 {
        id.as_bytes().len()
    } else {
        8
    };
    let r: &str = id.split_at(n).0;
    proof {
        utf8::encode_utf8_decode_utf8(r@);
        assert(id.spec_bytes().subrange(0, n as int) =~= id.spec_bytes().take(n as int));
    }
    r
}

/// Whether an identifier has a short form.
pub fn has_short_form(id: &str) -> (r: bool)
    ensures
        r == can_shorten(id@),
{
    proof {
        reveal(can_shorten);
    }
    let n: usize = if id.as_bytes().len() < 8 {
        id.as_bytes().len()
    } else {
        8
    };
    id.is_char_boundary(n)
}

/// Every identifier in ASCII has a short form: its first eight characters.
pub proof fn law_short_form_of_ascii(id: Seq<char>)
    requires
        utf8::is_ascii_chars(id),
    ensures
        can_shorten(id),
        shortened(id) == id.take(if id.len() < 8 {
            id.len() as int
        } else {
            8
        }),
{
    reveal(can_shorten);
    reveal(shortened);
    let n = if id.len() < 8 {
        id.len() as int
    } else {
        8
    };
    utf8::is_ascii_chars_encode_utf8(id);
    let head = id.take(n);
    assert(id =~= head + id.skip(n));
    utf8::is_ascii_chars_concat(id, head, id.skip(n));
    utf8::is_ascii_chars_encode_utf8(head);
    utf8::encode_utf8_valid_utf8(id);
    assert(utf8::encode_utf8(id).take(n) =~= utf8::encode_utf8(head));
    utf8::encode_utf8_decode_utf8(head);
    if n < utf8::encode_utf8(id).len() {
        utf8::is_char_boundary_iff_is_leading_byte(utf8::encode_utf8(id), n);
    } else {
        utf8::is_char_boundary_start_end_of_seq(utf8::encode_utf8(id));
    }
}

/// Of the snapshots of a home directory whose times can be read, none is later
/// than the latest one.
pub proof fn law_latest_is_not_earlier(
    snaps: Seq<SnapshotView>,
    home: Seq<char>,
    i: int,
    j: int,
)
    requires
        is_latest(snaps, order_nanos_of(snaps), home, i),
        0 <= j < snaps.len(),
        is_of_home(snaps[j], home),
    ensures
        rfc3339_instant(snaps[j].time) matches Some((Some(nj), _)) ==> order_nanos(
            rfc3339_instant(snaps[i].time),
        ) >= nj,
        rfc3339_instant(snaps[i].time) is None ==> order_nanos(rfc3339_instant(snaps[j].time))
            == i64::MIN,
{
}

/// Whether two lists of snapshots differ only in slashes at the ends of paths.
pub open spec fn same_but_for_end_slashes(a: Seq<SnapshotView>, b: Seq<SnapshotView>) -> bool {
    &&& a.len() == b.len()
    &&& forall|i: int|
        0 <= i < a.len() ==> {
            &&& (#[trigger] a[i]).id == b[i].id
            &&& a[i].time == b[i].time
            &&& a[i].original == b[i].original
            &&& a[i].paths.map_values(|p: Seq<char>| text::without_end_slashes(p))
                == b[i].paths.map_values(|p: Seq<char>| text::without_end_slashes(p))
        }
}

proof fn lemma_same_home(s: SnapshotView, t: SnapshotView, home: Seq<char>, other: Seq<char>)
    requires
        text::without_end_slashes(home) == text::without_end_slashes(other),
        s.paths.map_values(|p: Seq<char>| text::without_end_slashes(p)) == t.paths.map_values(
            |p: Seq<char>| text::without_end_slashes(p),
        ),
        is_of_home(s, home),
    ensures
        is_of_home(t, other),
{
    let u = s.paths.map_values(|p: Seq<char>| text::without_end_slashes(p));
    let v = t.paths.map_values(|p: Seq<char>| text::without_end_slashes(p));
    let i = choose|i: int|
        0 <= i < s.paths.len() && #[trigger] text::without_end_slashes(s.paths[i])
            == text::without_end_slashes(home);
    assert(u.len() == s.paths.len() && v.len() == t.paths.len());
    assert(u[i] == v[i]);
    assert(text::without_end_slashes(t.paths[i]) == text::without_end_slashes(other));
}

/// Slashes at the end of the home directory, or of the paths of snapshots, do
/// not matter: the same snapshot is the latest.
pub proof fn law_end_slashes_do_not_matter(
    a: Seq<SnapshotView>,
    b: Seq<SnapshotView>,
    nanos: Seq<i64>,
    home: Seq<char>,
    other: Seq<char>,
    i: int,
)
    requires
        same_but_for_end_slashes(a, b),
        text::without_end_slashes(home) == text::without_end_slashes(other),
    ensures
        is_latest(a, nanos, home, i) == is_latest(b, nanos, other, i),
{
    assert forall|j: int| 0 <= j < a.len() implies is_of_home(#[trigger] a[j], home) == is_of_home(
        b[j],
        other,
    ) by {
        if is_of_home(a[j], home) {
            lemma_same_home(a[j], b[j], home, other);
        }
        if is_of_home(b[j], other) {
            lemma_same_home(b[j], a[j], other, home);
        }
    }
    if is_latest(a, nanos, home, i) {
        assert forall|j: int| 0 <= j < b.len() && is_of_home(#[trigger] b[j], other) implies {
            &&& !key_lt((nanos[i], b[i].time), (nanos[j], b[j].time))
            &&& j > i ==> key_lt((nanos[j], b[j].time), (nanos[i], b[i].time))
        } by {
            assert(is_of_home(a[j], home));
            assert(a[i].time == b[i].time && a[j].time == b[j].time);
        }
    }
    if is_latest(b, nanos, other, i) {
        assert forall|j: int| 0 <= j < a.len() && is_of_home(#[trigger] a[j], home) implies {
            &&& !key_lt((nanos[i], a[i].time), (nanos[j], a[j].time))
            &&& j > i ==> key_lt((nanos[j], a[j].time), (nanos[i], a[i].time))
        } by {
            assert(is_of_home(b[j], other));
            assert(a[i].time == b[i].time && a[j].time == b[j].time);
        }
        assert(is_of_home(a[i], home));
    }
}

/// Adding a slash to a path adds one that does not matter.
pub proof fn law_end_slash_is_passed_over(path: Seq<char>)
    ensures
        text::without_end_slashes(path.push('/')) == text::without_end_slashes(path),
{
    assert(path.push('/').drop_last() =~= path);
}

/// There is at most one latest snapshot.
pub proof fn law_latest_is_unique(
    snaps: Seq<SnapshotView>,
    nanos: Seq<i64>,
    home: Seq<char>,
    i: int,
    j: int,
)
    requires
        is_latest(snaps, nanos, home, i),
        is_latest(snaps, nanos, home, j),
    ensures
        i == j,
{
}

/// A snapshot is one of the home directory exactly if one of its paths, at any
/// place, is the home directory up to slashes at the end; and there is one in a
/// list exactly if any of its snapshots is.
pub proof fn law_any_path_and_any_snapshot_counts(
    snaps: Seq<SnapshotView>,
    home: Seq<char>,
    i: int,
    k: int,
)
    requires
        0 <= i < snaps.len(),
        0 <= k < snaps[i].paths.len(),
    ensures
        text::without_end_slashes(snaps[i].paths[k]) == text::without_end_slashes(home)
            ==> is_of_home(snaps[i], home) && some_of_home(snaps, home),
        is_of_home(snaps[i], home) ==> exists|j: int|
            0 <= j < snaps[i].paths.len() && text::without_end_slashes(
                #[trigger] snaps[i].paths[j],
            ) == text::without_end_slashes(home),
        some_of_home(snaps, home) ==> exists|j: int|
            0 <= j < snaps.len() && is_of_home(#[trigger] snaps[j], home),
{
    if is_of_home(snaps[i], home) {
        let j = choose|j: int|
            0 <= j < snaps[i].paths.len() && #[trigger] text::without_end_slashes(
                snaps[i].paths[j],
            ) == text::without_end_slashes(home);
        assert(text::without_end_slashes(snaps[i].paths[j]) == text::without_end_slashes(home));
    }
}

/// A snapshot without paths is of no home directory, and none is in an empty
/// list.
pub proof fn law_nothing_covers_nothing(s: SnapshotView, home: Seq<char>)
    ensures
        s.paths.len() == 0 ==> !is_of_home(s, home),
        !some_of_home(Seq::empty(), home),
{
}

/// The copy of a snapshot is the first one listed that has its identifier or
/// names it as its source.
pub proof fn law_first_copy_is_found(snaps: Seq<SnapshotView>, source_id: Seq<char>, n: int)
    requires
        0 <= n <= snaps.len(),
        forall|j: int|
            0 <= j < n ==> (#[trigger] snaps[j]).id != source_id && snaps[j].original != Some(
                source_id,
            ),
        n < snaps.len() ==> snaps[n].id == source_id || snaps[n].original == Some(source_id),
    ensures
        first_copy(snaps, source_id) == if n < snaps.len() {
            Some(snaps[n])
        } else {
            None
        },
{
    lemma_first_copy(snaps, source_id, n);
}

/// An identifier is listed exactly if some snapshot has it.
pub proof fn law_listed_ids(snaps: Seq<SnapshotView>, id: Seq<char>, i: int)
    requires
        0 <= i < snaps.len(),
    ensures
        id_listed(snaps, snaps[i].id),
        (forall|j: int| 0 <= j < snaps.len() ==> (#[trigger] snaps[j]).id != id) ==> !id_listed(
            snaps,
            id,
        ),
        !id_listed(Seq::empty(), id),
{
}

/// Snapshots are ordered by the instant that their time is read as; where its
/// nanoseconds do not fit they are those of its seconds, as near as they come,
/// and a time that cannot be read comes before all others.
pub proof fn law_instants_give_the_order(nanos: i64, secs: i64)
    ensures
        order_nanos(Some((Some(nanos), secs))) == nanos,
        -9_223_372_036 <= secs <= 9_223_372_036 ==> order_nanos(Some((None, secs))) == secs
            * 1_000_000_000,
        secs > 9_223_372_036 ==> order_nanos(Some((None, secs))) == i64::MAX,
        secs < -9_223_372_036 ==> order_nanos(Some((None, secs))) == i64::MIN,
        order_nanos(None) == i64::MIN,
{
}

/// Of the snapshots of the home directory the latest one comes behind every
/// other: in time, or else in the text of its time, or else in the list.
pub proof fn law_latest_comes_behind_all_others(
    snaps: Seq<SnapshotView>,
    home: Seq<char>,
    i: int,
    j: int,
)
    requires
        is_latest(snaps, order_nanos_of(snaps), home, i),
        0 <= j < snaps.len(),
        j != i,
        is_of_home(snaps[j], home),
    ensures
        is_of_home(snaps[i], home),
        ({
            let a = order_nanos(rfc3339_instant(snaps[j].time));
            let b = order_nanos(rfc3339_instant(snaps[i].time));
            ||| a < b
            ||| a == b && text::text_lt(snaps[j].time, snaps[i].time)
            ||| a == b && snaps[j].time == snaps[i].time && j < i
        }),
{
    let a = snaps[j].time;
    let b = snaps[i].time;
    text::lemma_text_lt_total(a, b);
}

proof fn lemma_latest_of_prefix(
    snaps: Seq<SnapshotView>,
    nanos: Seq<i64>,
    home: Seq<char>,
    n: int,
) -> (i: int)
    requires
        0 <= n <= snaps.len(),
        snaps.len() == nanos.len(),
    ensures
        i >= 0 ==> i < n && is_of_home(snaps[i], home) && forall|j: int|
            0 <= j < n && is_of_home(#[trigger] snaps[j], home) ==> {
                &&& !key_lt((nanos[i], snaps[i].time), (nanos[j], snaps[j].time))
                &&& j > i ==> key_lt((nanos[j], snaps[j].time), (nanos[i], snaps[i].time))
            },
        i < 0 ==> forall|j: int| 0 <= j < n ==> !is_of_home(#[trigger] snaps[j], home),
    decreases n,
{
    if n == 0 {
        -1
    } else {
        let i = lemma_latest_of_prefix(snaps, nanos, home, n - 1);
        let m = n - 1;
        if !is_of_home(snaps[m], home) {
            i
        } else if i < 0 {
            text::lemma_text_lt_irreflexive(snaps[m].time);
            m
        } else if key_lt((nanos[m], snaps[m].time), (nanos[i], snaps[i].time)) {
            if key_lt((nanos[i], snaps[i].time), (nanos[m], snaps[m].time)) {
                text::lemma_text_lt_transitive(snaps[i].time, snaps[m].time, snaps[i].time);
                text::lemma_text_lt_irreflexive(snaps[i].time);
            }
            i
        } else {
            text::lemma_text_lt_irreflexive(snaps[m].time);
            assert forall|j: int| 0 <= j < n && is_of_home(#[trigger] snaps[j], home) implies {
                &&& !key_lt((nanos[m], snaps[m].time), (nanos[j], snaps[j].time))
                &&& j > m ==> key_lt((nanos[j], snaps[j].time), (nanos[m], snaps[m].time))
            } by {
                if j < m && key_lt((nanos[m], snaps[m].time), (nanos[j], snaps[j].time)) {
                    text::lemma_text_lt_total(snaps[i].time, snaps[m].time);
                    text::lemma_text_lt_transitive(
                        snaps[i].time,
                        snaps[m].time,
                        snaps[j].time,
                    );
                    assert(key_lt((nanos[i], snaps[i].time), (nanos[j], snaps[j].time)));
                }
            }
            m
        }
    }
}

/// There is a latest snapshot as soon as there is one of the home directory,
/// and it is what the selection gives; without one it gives nothing.
pub proof fn law_latest_is_selected(snaps: Seq<SnapshotView>, nanos: Seq<i64>, home: Seq<char>) -> (i:
    int)
    requires
        snaps.len() == nanos.len(),
    ensures
        some_of_home(snaps, home) ==> is_latest(snaps, nanos, home, i) && latest_of(
            snaps,
            nanos,
            home,
        ) == Some(snaps[i]),
        !some_of_home(snaps, home) ==> latest_of(snaps, nanos, home) is None,
{
    let i = lemma_latest_of_prefix(snaps, nanos, home, snaps.len() as int);
    if some_of_home(snaps, home) {
        assert(is_latest(snaps, nanos, home, i));
        let c = choose|c: int| is_latest(snaps, nanos, home, c);
        law_latest_is_unique(snaps, nanos, home, i, c);
    } else {
        assert forall|c: int| !is_latest(snaps, nanos, home, c) by {
            if is_latest(snaps, nanos, home, c) {
                assert(is_of_home(snaps[c], home));
            }
        }
    }
    i
}

/// The short form of an identifier is its first eight bytes, or all of it
/// where it has no more.
pub proof fn law_short_form_is_eight_bytes(id: Seq<char>)
    ensures
        utf8::encode_utf8(id).len() <= 8 ==> can_shorten(id) && shortened(id) == id,
        can_shorten(id) && utf8::encode_utf8(id).len() > 8 ==> utf8::encode_utf8(shortened(id))
            == utf8::encode_utf8(id).take(8),
        utf8::encode_utf8(id).len() > 8 ==> (can_shorten(id) <==> utf8::is_char_boundary(
            utf8::encode_utf8(id),
            8,
        )),
{
    reveal(can_shorten);
    reveal(shortened);
    let bytes = utf8::encode_utf8(id);
    utf8::encode_utf8_valid_utf8(id);
    utf8::encode_utf8_decode_utf8(id);
    if bytes.len() <= 8 {
        utf8::is_char_boundary_start_end_of_seq(bytes);
        assert(bytes.take(short_len(id)) =~= bytes);
    } else if can_shorten(id) {
        utf8::valid_utf8_split(bytes, 8);
        assert(bytes.subrange(0, 8) =~= bytes.take(8));
        utf8::decode_utf8_encode_utf8(bytes.take(8));
    }
}

} // verus!
