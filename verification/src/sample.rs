//! Sampling the regular files of a snapshot from the listing that
//! `restic ls --json` prints, one JSON record per line.

use vstd::prelude::*;
use vstd::string::*;
use vstd::hash_set::StringHashSet;
use crate::dice::Dice;
use crate::reservoir;
use crate::snapshot;
use crate::sort;
use crate::text;

verus! {

/// A JSON value, as `serde_json` holds it.
#[verifier::external_type_specification]
#[verifier::external_body]
pub struct ExJsonValue(serde_json::Value);

/// The members of a JSON object whose values are strings; none where the value
/// is no object.
pub uninterp spec fn string_members(v: serde_json::Value) -> Map<Seq<char>, Seq<char>>;

/// What `serde_json` reads from a text: the members with string values of the
/// JSON value that it spells, or nothing where it spells none.
pub uninterp spec fn json_string_members(text: Seq<char>) -> Option<Map<Seq<char>, Seq<char>>>;

/// `serde_json::from_str`, into a JSON value: the contract claims that whether
/// the text is JSON, and which string members it then has, depends on the text
/// alone.
#[verifier::external_body]
fn parse_json(text: &str) -> (r: Option<serde_json::Value>)
    ensures
        json_string_members(text@) == match r {
            Some(v) => Some(string_members(v)),
            None => None,
        },
{
    serde_json::from_str(text).ok()
}

/// `serde_json::Value::get` and `as_str`: the string that the object holds
/// under `key`, if it is an object and holds one there.
#[verifier::external_body]
fn string_member<'a>(v: &'a serde_json::Value, key: &str) -> (r: Option<&'a str>)
    ensures
        match r {
            Some(s) => string_members(*v).contains_key(key@) && string_members(*v)[key@] == s@,
            None => !string_members(*v).contains_key(key@),
        },
{
    v.get(key)?.as_str()
}

/// What `m` holds under `key`.
pub open spec fn member(m: Map<Seq<char>, Seq<char>>, key: Seq<char>) -> Option<Seq<char>> {
    if m.contains_key(key) {
        Some(m[key])
    } else {
        None
    }
}

/// The path of a record with the given members, if it is the record of a
/// regular file. The first tag that is there counts: some versions of restic
/// write the one, some the other.
pub open spec fn node_path(
    struct_type: Option<Seq<char>>,
    message_type: Option<Seq<char>>,
    node_type: Option<Seq<char>>,
    path: Option<Seq<char>>,
) -> Option<Seq<char>> {
    let tag = if struct_type is Some {
        struct_type
    } else {
        message_type
    };
    if tag == Some("node"@) && node_type == Some("file"@) {
        path
    } else {
        None
    }
}

/// The path of the regular file that a line of the listing is the record of.
pub open spec fn line_path(line: Seq<char>) -> Option<Seq<char>> {
    match json_string_members(text::trimmed(line)) {
        Some(m) => node_path(
            member(m, "struct_type"@),
            member(m, "message_type"@),
            member(m, "type"@),
            member(m, "path"@),
        ),
        None => None,
    }
}

/// The text that an optional borrowed string holds.
pub open spec fn opt_str(o: Option<&str>) -> Option<Seq<char>> {
    match o {
        Some(s) => Some(s@),
        None => None,
    }
}

/// Whether an optional string is there and equals `wanted`.
fn is_text(o: Option<&str>, wanted: &str) -> (r: bool)
    ensures
        r == (opt_str(o) == Some(wanted@)),
{
    match o {
        Some(s) => text::same_text(s, wanted),
        None => false,
    }
}

/// The path of a record with the given members, if it is the record of a
/// regular file.
pub fn file_node_path(
    struct_type: Option<&str>,
    message_type: Option<&str>,
    node_type: Option<&str>,
    path: Option<&str>,
) -> (r: Option<String>)
    ensures
        text::opt_text(r) == node_path(
            opt_str(struct_type),
            opt_str(message_type),
            opt_str(node_type),
            opt_str(path),
        ),
{
    let tag: Option<&str> = if struct_type.is_some() {
        struct_type
    } else {
        message_type
    };
    if !is_text(tag, "node") || !is_text(node_type, "file") {
        return None;
    }
    match path {
        Some(p) => Some(p.to_owned()),
        None => None,
    }
}

/// The path of the regular file that a line of the listing is the record of.
pub fn parse_file_node(line: &str) -> (r: Option<String>)
    ensures
        text::opt_text(r) == line_path(line@),
{
    let trimmed: String = text::trim_text(line);
    match parse_json(trimmed.as_str()) {
        Some(v) => file_node_path(
            string_member(&v, "struct_type"),
            string_member(&v, "message_type"),
            string_member(&v, "type"),
            string_member(&v, "path"),
        ),
        None => None,
    }
}

/// What a [`Sampler`] holds.
pub struct SamplerView {
    /// How many files to keep.
    pub k: nat,
    /// The paths that are passed over.
    pub exclude: Set<Seq<char>>,
    /// How many files have been offered.
    pub eligible: nat,
    /// The paths that are kept.
    pub reservoir: Seq<Seq<char>>,
}

impl SamplerView {
    /// As many paths are kept as were offered, up to the size of the sample.
    pub open spec fn wf(self) -> bool {
        self.reservoir.len() == if self.eligible < self.k {
            self.eligible
        } else {
            self.k
        }
    }

    /// None of the paths that are passed over is kept.
    pub open spec fn clean(self) -> bool {
        forall|i: int|
            0 <= i < self.reservoir.len() ==> !self.exclude.contains(#[trigger] self.reservoir[i])
    }

    /// The bound that the draw for a further path is made below: that path and
    /// all before it count alike. No draw is made until the sample is full.
    pub open spec fn bound(self) -> Option<nat> {
        if self.eligible < self.k {
            None
        } else {
            Some(self.eligible + 1)
        }
    }

    /// The sampler once `path` has been offered with the given draw.
    pub open spec fn offered(self, path: Seq<char>, draw: int) -> SamplerView {
        SamplerView {
            eligible: self.eligible + 1,
            reservoir: if self.reservoir.len() < self.k {
                self.reservoir.push(path)
            } else if 0 <= draw < self.k {
                self.reservoir.update(draw, path)
            } else {
                self.reservoir
            },
            ..self
        }
    }

    /// The sampler once all paths have been offered, each with its draw.
    pub open spec fn offered_all(self, paths: Seq<Seq<char>>, draws: Seq<int>) -> SamplerView
        recommends
            paths.len() == draws.len(),
        decreases paths.len(),
    {
        if paths.len() == 0 {
            self
        } else {
            self.offered_all(paths.drop_last(), draws.drop_last()).offered(
                paths.last(),
                draws.last(),
            )
        }
    }
}

/// What becomes of a sampler and of the draws made for it when a line with the
/// given path, or without one, is offered.
pub open spec fn after_line(
    path: Option<Seq<char>>,
    before: SamplerView,
    draws_before: Seq<(nat, nat)>,
    after: SamplerView,
    draws_after: Seq<(nat, nat)>,
) -> bool {
    match path {
        Some(p) if !before.exclude.contains(p) => match before.bound() {
            Some(n) => {
                &&& draws_after.len() == draws_before.len() + 1
                &&& draws_after.drop_last() == draws_before
                &&& draws_after.last().0 == n
                &&& draws_after.last().1 < n
                &&& after == before.offered(p, draws_after.last().1 as int)
            },
            None => {
                &&& draws_after == draws_before
                &&& after == before.offered(p, 0)
            },
        },
        _ => after == before && draws_after == draws_before,
    }
}

/// Keeps a uniform sample, without replacement, of the files in a listing
/// whose length is not known before its end.
pub struct Sampler {
    k: usize,
    exclude: StringHashSet,
    eligible: usize,
    reservoir: Vec<String>,
}

impl View for Sampler {
    type V = SamplerView;

    closed spec fn view(&self) -> SamplerView {
        SamplerView {
            k: self.k as nat,
            exclude: self.exclude@,
            eligible: self.eligible as nat,
            reservoir: text::texts(self.reservoir@),
        }
    }
}

impl Sampler {
    /// A sampler of `k` files that passes over the paths in `exclude`.
    pub fn new(k: usize, exclude: StringHashSet) -> (s: Sampler)
        ensures
            s@ == (SamplerView {
                k: k as nat,
                exclude: exclude@,
                eligible: 0,
                reservoir: Seq::<Seq<char>>::empty(),
            }),
            s@.wf(),
            s@.clean(),
    {
        let s = Sampler { k, exclude, eligible: 0, reservoir: Vec::new() };
        assert(s@.reservoir =~= Seq::<Seq<char>>::empty());
        s
    }

    /// Offers a path. A draw is used up only once the sample is full; it keeps
    /// the path in the slot that it names, if it names one.
    pub fn offer_path(&mut self, path: String, draw: usize)
        requires
            old(self)@.wf(),
            old(self)@.eligible < usize::MAX,
        ensures
            final(self)@ == old(self)@.offered(path@, draw as int),
            final(self)@.wf(),
            old(self)@.clean() && !old(self)@.exclude.contains(path@) ==> final(self)@.clean(),
    {
        self.eligible = self.eligible + 1;
        if self.reservoir.len() < self.k {
            self.reservoir.push(path);
        } else if draw < self.k {
            let ghost before = self.reservoir@;
            self.reservoir.set(draw, path);
            assert(text::texts(self.reservoir@) =~= text::texts(before).update(draw as int, path@));
        }
        assert(self@.reservoir =~= old(self)@.offered(path@, draw as int).reservoir);
    }

    /// The bound that the draw for a further path is made below; nothing where
    /// no draw is needed, as the sample is not full.
    pub fn draw_bound(&self) -> (n: Option<usize>)
        requires
            self@.wf(),
            self@.eligible < usize::MAX,
        ensures
            match n {
                Some(b) => self@.bound() == Some(b as nat) && b > 0,
                None => self@.bound() is None,
            },
    {
        if self.eligible < self.k {
            None
        } else {
            Some(self.eligible + 1)
        }
    }

    /// Offers a line of the listing. A line that is not the record of a
    /// regular file, or of one that is passed over, changes nothing. Any other
    /// is kept as long as the sample is not full; once it is, one number is
    /// drawn among all files so far and this one, and names the slot. No other
    /// number is drawn.
    pub fn offer_line(&mut self, line: &str, dice: &mut Dice)
        requires
            old(self)@.wf(),
            old(self)@.eligible < usize::MAX,
        ensures
            final(self)@.wf(),
            old(self)@.clean() ==> final(self)@.clean(),
            after_line(
                line_path(line@),
                old(self)@,
                old(dice).log(),
                final(self)@,
                final(dice).log(),
            ),
    {
        let path: String = match parse_file_node(line) {
            Some(p) => p,
            None => return ,
        };
        if self.exclude.contains(path.as_str()) {
            return ;
        }
        match self.draw_bound() {
            Some(n) => {
                let draw: usize = dice.below(n);
                self.offer_path(path, draw);
                assert(dice.log().drop_last() =~= old(dice).log());
            },
            None => {
                self.offer_path(path, 0);
            },
        }
    }

    /// The paths that were kept, and how many were offered.
    pub fn finish(self) -> (r: (Vec<String>, usize))
        ensures
            text::texts(r.0@) == self@.reservoir,
            r.1 == self@.eligible,
    {
        (self.reservoir, self.eligible)
    }
}

/// What a finished sample is reported with.
pub struct Sample {
    /// The sampled paths, in order.
    pub paths: Vec<String>,
    /// How many files there were to choose from.
    pub eligible: usize,
    /// The lines for the log.
    pub report: Vec<String>,
}

/// The lines that report a sample of `kept` paths.
pub open spec fn sample_report(
    kept: nat,
    eligible: nat,
    k: nat,
    snapshot_id: Seq<char>,
) -> Seq<Seq<char>> {
    let sampled = "sampled "@ + text::decimal(kept) + " of "@ + text::decimal(eligible)
        + " eligible regular files from snapshot "@ + snapshot::shortened(snapshot_id);
    if eligible < k {
        seq![
            "only "@ + text::decimal(eligible) + " eligible regular files in snapshot "@
                + snapshot::shortened(snapshot_id) + " (< sample size "@ + text::decimal(k)
                + ") — testing all of them"@,
            sampled,
        ]
    } else {
        seq![sampled]
    }
}

/// Finishes a sample of the given snapshot: the paths in order, and the lines
/// that report it.
pub fn conclude_sample(sampler: Sampler, snapshot_id: &str) -> (r: Sample)
    requires
        snapshot::can_shorten(snapshot_id@),
    ensures
        text::texts(r.paths@) == sort::stable_sorted(sampler@.reservoir),
        r.eligible == sampler@.eligible,
        sampler@.clean() ==> forall|i: int|
            0 <= i < r.paths@.len() ==> !sampler@.exclude.contains(
                #[trigger] text::texts(r.paths@)[i],
            ),
        text::texts(r.report@) == sample_report(
            sampler@.reservoir.len(),
            sampler@.eligible,
            sampler@.k,
            snapshot_id@,
        ),
{
    broadcast use text::lemma_texts_push;

    let k: usize = sampler.k;
    let (kept, eligible) = sampler.finish();
    let paths: Vec<String> = sort::sort_texts(kept);
    proof {
        sort::law_sorting_orders_the_same_values(sampler@.reservoir);
        assert(text::texts(paths@).len() == paths@.len());
        assert forall|i: int| 0 <= i < paths@.len() && sampler@.clean() implies !sampler@.exclude.contains(
            #[trigger] text::texts(paths@)[i],
        ) by {
            let x = text::texts(paths@)[i];
            assert(text::texts(paths@).contains(x));
            text::texts(paths@).to_multiset_ensures();
            sampler@.reservoir.to_multiset_ensures();
            assert(text::texts(paths@).to_multiset().count(x) > 0);
            assert(sampler@.reservoir.contains(x));
        }
    }
    let short: &str = snapshot::short_id(snapshot_id);
    let mut report: Vec<String> = Vec::new();
    assert(text::texts(report@) =~= Seq::<Seq<char>>::empty());
    if eligible < k {
        let mut line = "only ".to_owned();
        text::push_decimal(&mut line, eligible as u64);
        line.append(" eligible regular files in snapshot ");
        line.append(short);
        line.append(" (< sample size ");
        text::push_decimal(&mut line, k as u64);
        line.append(") — testing all of them");
        report.push(line);
    }
    let mut line = "sampled ".to_owned();
    text::push_decimal(&mut line, paths.len() as u64);
    line.append(" of ");
    text::push_decimal(&mut line, eligible as u64);
    line.append(" eligible regular files from snapshot ");
    line.append(short);
    report.push(line);
    assert(text::texts(report@) =~= sample_report(
        sampler@.reservoir.len(),
        sampler@.eligible,
        sampler@.k,
        snapshot_id@,
    ));
    Sample { paths, eligible, report }
}

/// What a sampler keeps is what stands at the positions that reservoir
/// sampling keeps of the stream: the sample is drawn from what was offered,
/// without replacement, and uniformly where the draws are.
pub proof fn law_sample_is_a_reservoir_of_the_stream(
    start: SamplerView,
    paths: Seq<Seq<char>>,
    draws: Seq<int>,
)
    requires
        start.eligible == 0,
        start.reservoir == Seq::<Seq<char>>::empty(),
        paths.len() == draws.len(),
    ensures
        start.offered_all(paths, draws).wf(),
        start.offered_all(paths, draws).eligible == paths.len(),
        start.offered_all(paths, draws).k == start.k,
        start.offered_all(paths, draws).exclude == start.exclude,
        start.offered_all(paths, draws).reservoir == reservoir::kept(start.k, draws).map_values(
            |t: int| paths[t],
        ),
    decreases paths.len(),
{
    let after = start.offered_all(paths, draws);
    let positions = reservoir::kept(start.k, draws);
    if paths.len() == 0 {
        assert(after.reservoir =~= positions.map_values(|t: int| paths[t]));
    } else {
        let head = paths.drop_last();
        law_sample_is_a_reservoir_of_the_stream(start, head, draws.drop_last());
        reservoir::law_kept_positions_are_distinct(start.k, draws.drop_last());
        let before = reservoir::kept(start.k, draws.drop_last());
        assert forall|i: int| 0 <= i < before.len() implies head[before[i]]
            == #[trigger] paths[before[i]] by {}
        assert(after.reservoir =~= positions.map_values(|t: int| paths[t]));
    }
}

/// The paths that the lines of a listing offer: those of regular files that
/// are not passed over.
pub open spec fn offered_paths(lines: Seq<Option<Seq<char>>>, exclude: Set<Seq<char>>) -> Seq<
    Seq<char>,
>
    decreases lines.len(),
{
    if lines.len() == 0 {
        seq![]
    } else {
        let before = offered_paths(lines.drop_last(), exclude);
        match lines.last() {
            Some(p) if !exclude.contains(p) => before.push(p),
            _ => before,
        }
    }
}

/// Whether the sampler and the draws made for it went through these states as
/// the lines were offered one after the other.
pub open spec fn went_through(
    lines: Seq<Option<Seq<char>>>,
    states: Seq<SamplerView>,
    logs: Seq<Seq<(nat, nat)>>,
) -> bool {
    &&& states.len() == lines.len() + 1
    &&& logs.len() == lines.len() + 1
    &&& forall|i: int|
        0 <= i < lines.len() ==> after_line(
            #[trigger] lines[i],
            states[i],
            logs[i],
            states[i + 1],
            logs[i + 1],
        )
}

/// The draws for `n` paths: none counts for the first `k`, and those that were
/// made come in order for the others.
pub open spec fn draws_of(k: nat, n: nat, log: Seq<(nat, nat)>) -> Seq<int> {
    Seq::new(
        n,
        |t: int|
            if t < k {
                0
            } else {
                log[t - k].1 as int
            },
    )
}

/// A listing that is offered line by line is sampled as uniformity asks: for
/// each path behind the first `k` one number is drawn, below the number of
/// paths so far and itself, and for nothing else; and what is kept is what
/// stands at the positions that reservoir sampling keeps under these draws.
/// Each set of positions is reached by equally many series of such draws.
pub proof fn law_listing_is_sampled_uniformly(
    lines: Seq<Option<Seq<char>>>,
    states: Seq<SamplerView>,
    logs: Seq<Seq<(nat, nat)>>,
)
    requires
        went_through(lines, states, logs),
        states[0].eligible == 0,
        states[0].reservoir == Seq::<Seq<char>>::empty(),
        logs[0] == Seq::<(nat, nat)>::empty(),
    ensures
        ({
            let k = states[0].k;
            let paths = offered_paths(lines, states[0].exclude);
            let log = logs.last();
            let draws = draws_of(k, paths.len(), log);
            &&& log.len() == if paths.len() < k {
                0
            } else {
                paths.len() - k
            }
            &&& forall|i: int|
                0 <= i < log.len() ==> (#[trigger] log[i]).0 == k + i + 1 && log[i].1 < log[i].0
            &&& states.last() == states[0].offered_all(paths, draws)
            &&& states.last().reservoir == reservoir::kept(k, draws).map_values(
                |t: int| paths[t],
            )
        }),
    decreases lines.len(),
{
    let start = states[0];
    let k = start.k;
    let paths = offered_paths(lines, start.exclude);
    let log = logs.last();
    let draws = draws_of(k, paths.len(), log);
    if lines.len() == 0 {
        assert(states.last() == start);
    } else {
        let lines1 = lines.drop_last();
        let states1 = states.drop_last();
        let logs1 = logs.drop_last();
        assert forall|i: int| 0 <= i < lines1.len() implies after_line(
            #[trigger] lines1[i],
            states1[i],
            logs1[i],
            states1[i + 1],
            logs1[i + 1],
        ) by {
            assert(lines1[i] == lines[i]);
        }
        law_listing_is_sampled_uniformly(lines1, states1, logs1);
        let paths1 = offered_paths(lines1, start.exclude);
        let log1 = logs1.last();
        let draws1 = draws_of(k, paths1.len(), log1);
        law_sample_is_a_reservoir_of_the_stream(start, paths1, draws1);
        let n = lines.len() - 1;
        assert(after_line(lines[n], states[n], logs[n], states[n + 1], logs[n + 1]));
        match lines.last() {
            Some(p) if !start.exclude.contains(p) => {
                let draw = if paths1.len() < k {
                    0
                } else {
                    log.last().1 as int
                };
                if paths1.len() >= k {
                    assert forall|i: int| 0 <= i < log.len() implies (#[trigger] log[i]).0 == k + i
                        + 1 && log[i].1 < log[i].0 by {
                        if i < log1.len() {
                            assert(log[i] == log.drop_last()[i]);
                            assert(log1[i] == log[i]);
                        }
                    }
                    assert forall|i: int| 0 <= i < log1.len() implies log1[i] == log[i] by {
                        assert(log.drop_last()[i] == log[i]);
                    }
                }
                assert(draws =~= draws1.push(draw));
                assert(draws.drop_last() =~= draws1);
                assert(paths.drop_last() =~= paths1);
            },
            _ => {},
        }
    }
    law_sample_is_a_reservoir_of_the_stream(start, paths, draws);
}

/// A stream without repetitions gives a sample without repetitions.
pub proof fn law_sample_has_no_repetitions(
    start: SamplerView,
    paths: Seq<Seq<char>>,
    draws: Seq<int>,
)
    requires
        start.eligible == 0,
        start.reservoir == Seq::<Seq<char>>::empty(),
        paths.len() == draws.len(),
        paths.no_duplicates(),
    ensures
        start.offered_all(paths, draws).reservoir.no_duplicates(),
{
    law_sample_is_a_reservoir_of_the_stream(start, paths, draws);
    reservoir::law_kept_positions_are_distinct(start.k, draws);
    let positions = reservoir::kept(start.k, draws);
    let r = positions.map_values(|t: int| paths[t]);
    assert forall|i: int, j: int| 0 <= i < r.len() && 0 <= j < r.len() && i != j implies r[i]
        != r[j] by {
        assert(positions[i] != positions[j]);
        assert(paths[positions[i]] != paths[positions[j]]);
    }
}

/// A listing with no more files than the sample size is tested in full.
pub proof fn law_few_files_are_all_sampled(
    start: SamplerView,
    paths: Seq<Seq<char>>,
    draws: Seq<int>,
)
    requires
        start.eligible == 0,
        start.reservoir == Seq::<Seq<char>>::empty(),
        paths.len() == draws.len(),
        paths.len() <= start.k,
    ensures
        start.offered_all(paths, draws).reservoir == paths,
{
    law_sample_is_a_reservoir_of_the_stream(start, paths, draws);
    reservoir::law_short_stream_is_kept_whole(start.k, draws);
    assert(start.offered_all(paths, draws).reservoir =~= paths);
}

/// The set that holds the given paths.
pub fn path_set(paths: &[String]) -> (r: StringHashSet)
    ensures
        r@ == text::texts(paths@).to_set(),
{
    let mut r = StringHashSet::new();
    let mut i: usize = 0;
    assert(text::texts(paths@).take(0).to_set() =~= Set::<Seq<char>>::empty());
    while i < paths.len()
        invariant
            i <= paths@.len(),
            r@ == text::texts(paths@).take(i as int).to_set(),
        decreases paths@.len() - i,
    {
        r.insert(paths[i].clone());
        proof {
            let all = text::texts(paths@);
            let before = all.take(i as int);
            let after = all.take(i + 1);
            assert(after =~= before.push(all[i as int]));
            assert forall|x: Seq<char>| after.contains(x) == (before.contains(x) || x
                == all[i as int]) by {
                if before.contains(x) {
                    let j = choose|j: int| 0 <= j < before.len() && before[j] == x;
                    assert(after[j] == x);
                }
                assert(after[i as int] == all[i as int]);
            }
            assert(after.to_set() =~= before.to_set().insert(all[i as int]));
        }
        i += 1;
    }
    assert(text::texts(paths@).take(i as int) =~= text::texts(paths@));
    r
}

/// A record of a file yields its path if it is tagged as a node: by
/// `struct_type`, whatever `message_type` says, or by `message_type` where
/// there is no `struct_type`. No other record yields a path, and none yields
/// another path than its own.
pub proof fn law_either_tag_makes_a_node(
    struct_type: Option<Seq<char>>,
    message_type: Option<Seq<char>>,
    node_type: Option<Seq<char>>,
    path: Option<Seq<char>>,
)
    ensures
        node_path(Some("node"@), message_type, Some("file"@), path) == path,
        node_path(None, Some("node"@), Some("file"@), path) == path,
        ({
            let r = node_path(struct_type, message_type, node_type, path);
            r is Some ==> {
                &&& r == path
                &&& node_type == Some("file"@)
                &&& struct_type == Some("node"@) || (struct_type is None && message_type == Some(
                    "node"@,
                ))
            }
        }),
{
}

/// A line yields a path exactly if, without the white space around it, it is a
/// JSON object whose members `struct_type`, or else `message_type`, and `type`
/// say that it is the node of a file; the path is its member `path`.
pub proof fn law_line_yields_the_path_of_a_file(line: Seq<char>, path: Seq<char>)
    ensures
        line_path(line) == Some(path) <==> ({
            &&& json_string_members(text::trimmed(line)) matches Some(m)
            &&& m.contains_key("path"@) && m["path"@] == path
            &&& m.contains_key("type"@) && m["type"@] == "file"@
            &&& if m.contains_key("struct_type"@) {
                m["struct_type"@] == "node"@
            } else {
                m.contains_key("message_type"@) && m["message_type"@] == "node"@
            }
        }),
{
}

/// A further path is always kept while the sample is not full, behind those
/// kept before; in a full sample it takes the slot that the draw names, if
/// that is one, and all other slots stay as they are. It is counted either
/// way.
pub proof fn law_path_takes_the_drawn_slot(
    s: SamplerView,
    path: Seq<char>,
    draw: int,
    slot: int,
)
    requires
        s.wf(),
        0 <= draw,
        0 <= slot < s.reservoir.len(),
    ensures
        ({
            let t = s.offered(path, draw);
            &&& t.wf()
            &&& t.eligible == s.eligible + 1
            &&& t.k == s.k && t.exclude == s.exclude
            &&& s.eligible < s.k ==> t.reservoir == s.reservoir.push(path)
            &&& s.eligible >= s.k ==> t.reservoir.len() == s.reservoir.len()
            &&& s.eligible >= s.k && slot == draw ==> t.reservoir[slot] == path
            &&& slot != draw || s.eligible < s.k ==> t.reservoir[slot] == s.reservoir[slot]
        }),
{
}

/// The first path is kept if the sample is to hold any.
pub proof fn law_first_path_is_kept(s: SamplerView, path: Seq<char>)
    requires
        s.wf(),
        s.eligible == 0,
    ensures
        s.bound() is None <==> s.k > 0,
        s.k > 0 ==> s.offered(path, 0).reservoir == seq![path],
{
    assert(s.reservoir =~= Seq::<Seq<char>>::empty());
    if s.k > 0 {
        assert(s.offered(path, 0).reservoir =~= seq![path]);
    }
}

/// A draw is made among the paths so far and the new one.
pub proof fn law_draw_is_among_all_paths(s: SamplerView)
    ensures
        s.eligible >= s.k ==> s.bound() == Some(s.eligible + 1),
        s.eligible < s.k ==> s.bound() is None,
{
}

/// What a listing offers is the paths of its lines, in order, without those
/// that are passed over and without the lines that have none.
pub proof fn law_listing_offers_all_its_files(
    lines: Seq<Option<Seq<char>>>,
    exclude: Set<Seq<char>>,
    more: Seq<Option<Seq<char>>>,
    path: Seq<char>,
)
    ensures
        offered_paths(lines + more, exclude) == offered_paths(lines, exclude) + offered_paths(
            more,
            exclude,
        ),
        offered_paths(seq![Some(path)], exclude) == if exclude.contains(path) {
            Seq::<Seq<char>>::empty()
        } else {
            seq![path]
        },
        offered_paths(seq![None], exclude) == Seq::<Seq<char>>::empty(),
        offered_paths(Seq::empty(), exclude) == Seq::<Seq<char>>::empty(),
    decreases more.len(),
{
    let one = seq![Some(path)];
    let none = seq![None::<Seq<char>>];
    assert(one.drop_last() =~= Seq::<Option<Seq<char>>>::empty());
    assert(none.drop_last() =~= Seq::<Option<Seq<char>>>::empty());
    assert(offered_paths(Seq::empty(), exclude) =~= Seq::<Seq<char>>::empty());
    assert(offered_paths(one, exclude) =~= if exclude.contains(path) {
        Seq::<Seq<char>>::empty()
    } else {
        seq![path]
    });
    if more.len() == 0 {
        assert(lines + more =~= lines);
        assert(offered_paths(lines, exclude) + offered_paths(more, exclude) =~= offered_paths(
            lines,
            exclude,
        ));
    } else {
        law_listing_offers_all_its_files(lines, exclude, more.drop_last(), path);
        assert((lines + more).drop_last() =~= lines + more.drop_last());
        assert((lines + more).last() == more.last());
        assert(offered_paths(lines + more, exclude) =~= offered_paths(lines, exclude)
            + offered_paths(more, exclude));
    }
}

/// A sample is reported with its size and with how many files there were; that
/// there were too few is said first.
pub proof fn law_sample_is_reported(kept: nat, eligible: nat, k: nat, id: Seq<char>)
    ensures
        ({
            let lines = sample_report(kept, eligible, k, id);
            &&& lines.len() == if eligible < k {
                2nat
            } else {
                1nat
            }
            &&& lines.last() == "sampled "@ + text::decimal(kept) + " of "@ + text::decimal(
                eligible,
            ) + " eligible regular files from snapshot "@ + snapshot::shortened(id)
            &&& eligible < k ==> lines[0] == "only "@ + text::decimal(eligible)
                + " eligible regular files in snapshot "@ + snapshot::shortened(id)
                + " (< sample size "@ + text::decimal(k) + ") — testing all of them"@
        }),
{
}

/// A sampler never holds more paths than it is to, nor fewer than it was
/// offered up to that, and none that it is to leave out.
pub proof fn law_sampler_holds_no_excluded_path(s: SamplerView, i: int)
    ensures
        s.wf() && s.eligible <= s.k ==> s.reservoir.len() == s.eligible,
        s.wf() && s.eligible >= s.k ==> s.reservoir.len() == s.k,
        s.clean() && 0 <= i < s.reservoir.len() ==> !s.exclude.contains(s.reservoir[i]),
{
}

/// Whatever a listing offers is a file of it that is not to be left out.
pub proof fn law_offered_paths_are_listed(
    lines: Seq<Option<Seq<char>>>,
    exclude: Set<Seq<char>>,
    i: int,
)
    requires
        0 <= i < offered_paths(lines, exclude).len(),
    ensures
        lines.contains(Some(offered_paths(lines, exclude)[i])),
        !exclude.contains(offered_paths(lines, exclude)[i]),
    decreases lines.len(),
{
    let front = lines.drop_last();
    if i < offered_paths(front, exclude).len() {
        law_offered_paths_are_listed(front, exclude, i);
        let p = Some(offered_paths(front, exclude)[i]);
        let n = choose|n: int| 0 <= n < front.len() && front[n] == p;
        assert(lines[n] == p);
    } else {
        assert(lines[lines.len() - 1] == Some(offered_paths(lines, exclude)[i]));
    }
}

} // verus!
