//! Stage failures, and which half of a run each belongs to: storing the data,
//! or getting it back.

use vstd::prelude::*;
use vstd::string::*;
use crate::text;

verus! {

/// Whether a stage reads data back out of a repository and checks it. All
/// others, which write the snapshot, prune or replicate, belong to the backup
/// half.
pub open spec fn recovery_stage(stage: Seq<char>) -> bool {
    ||| "pre-backup"@.is_prefix_of(stage)
    ||| "post-backup"@.is_prefix_of(stage)
    ||| "new-snapshot"@.is_prefix_of(stage)
    ||| "replica retrieval"@.is_prefix_of(stage)
}

/// Whether a stage belongs to the recovery half.
pub fn is_recovery_stage(stage: &str) -> (r: bool)
    ensures
        r == recovery_stage(stage@),
{
    text::begins_with(stage, "pre-backup") || text::begins_with(stage, "post-backup")
        || text::begins_with(stage, "new-snapshot") || text::begins_with(
        stage,
        "replica retrieval",
    )
}

/// The stages of a run that can fail. A replica is given by its place in the
/// configuration.
#[derive(Clone, Copy, PartialEq, Eq, Structural, Debug)]
pub enum Stage {
    PreSample,
    PreRestore,
    PreManifest,
    Backup,
    Listing,
    Prune,
    ReplicaSync(usize),
    PostOriginal,
    PostManifest,
    NewSample,
    NewRestore,
    NewManifest,
    ReplicaRetrieval(usize),
}

/// The name of a stage.
pub open spec fn stage_text(stage: Stage, replicas: Seq<Seq<char>>) -> Seq<char> {
    match stage {
        Stage::PreSample => "pre-backup sample"@,
        Stage::PreRestore => "pre-backup restore"@,
        Stage::PreManifest => "pre-backup manifest"@,
        Stage::Backup => "backup"@,
        Stage::Listing => "snapshot listing"@,
        Stage::Prune => "prune"@,
        Stage::ReplicaSync(i) => "replica sync "@ + replicas[i as int],
        Stage::PostOriginal => "post-backup original sample"@,
        Stage::PostManifest => "post-backup manifest"@,
        Stage::NewSample => "new-snapshot sample"@,
        Stage::NewRestore => "new-snapshot restore"@,
        Stage::NewManifest => "new-snapshot manifest"@,
        Stage::ReplicaRetrieval(i) => "replica retrieval "@ + replicas[i as int],
    }
}

/// Whether a stage names a replica that there is.
pub open spec fn stage_fits(stage: Stage, replicas: nat) -> bool {
    match stage {
        Stage::ReplicaSync(i) => i < replicas,
        Stage::ReplicaRetrieval(i) => i < replicas,
        _ => true,
    }
}

/// The name of a stage.
pub fn stage_name(stage: Stage, replicas: &[String]) -> (r: String)
    requires
        stage_fits(stage, replicas@.len()),
    ensures
        r@ == stage_text(stage, text::texts(replicas@)),
{
    match stage {
        Stage::PreSample => "pre-backup sample".to_owned(),
        Stage::PreRestore => "pre-backup restore".to_owned(),
        Stage::PreManifest => "pre-backup manifest".to_owned(),
        Stage::Backup => "backup".to_owned(),
        Stage::Listing => "snapshot listing".to_owned(),
        Stage::Prune => "prune".to_owned(),
        Stage::ReplicaSync(i) => {
            let mut s = "replica sync ".to_owned();
            s.append(replicas[i].as_str());
            s
        },
        Stage::PostOriginal => "post-backup original sample".to_owned(),
        Stage::PostManifest => "post-backup manifest".to_owned(),
        Stage::NewSample => "new-snapshot sample".to_owned(),
        Stage::NewRestore => "new-snapshot restore".to_owned(),
        Stage::NewManifest => "new-snapshot manifest".to_owned(),
        Stage::ReplicaRetrieval(i) => {
            let mut s = "replica retrieval ".to_owned();
            s.append(replicas[i].as_str());
            s
        },
    }
}

/// Whether a stage is meant to tell of recovery.
pub open spec fn tells_of_recovery(stage: Stage) -> bool {
    match stage {
        Stage::PreSample | Stage::PreRestore | Stage::PreManifest => true,
        Stage::PostOriginal | Stage::PostManifest => true,
        Stage::NewSample | Stage::NewRestore | Stage::NewManifest => true,
        Stage::ReplicaRetrieval(_) => true,
        Stage::Backup | Stage::Listing | Stage::Prune | Stage::ReplicaSync(_) => false,
    }
}

/// Every stage that a run can fail in is classified by its name as it is
/// meant, whatever the replicas are called.
pub proof fn law_every_stage_is_classified(stage: Stage, replicas: Seq<Seq<char>>)
    ensures
        recovery_stage(stage_text(stage, replicas)) == tells_of_recovery(stage),
{
    reveal_strlit("pre-backup");
    reveal_strlit("post-backup");
    reveal_strlit("new-snapshot");
    reveal_strlit("replica retrieval");
    let name = stage_text(stage, replicas);
    match stage {
        Stage::PreSample => {
            reveal_strlit("pre-backup sample");
            assert(name.subrange(0, 10) =~= "pre-backup"@);
        },
        Stage::PreRestore => {
            reveal_strlit("pre-backup restore");
            assert(name.subrange(0, 10) =~= "pre-backup"@);
        },
        Stage::PreManifest => {
            reveal_strlit("pre-backup manifest");
            assert(name.subrange(0, 10) =~= "pre-backup"@);
        },
        Stage::PostOriginal => {
            reveal_strlit("post-backup original sample");
            assert(name.subrange(0, 11) =~= "post-backup"@);
        },
        Stage::PostManifest => {
            reveal_strlit("post-backup manifest");
            assert(name.subrange(0, 11) =~= "post-backup"@);
        },
        Stage::NewSample => {
            reveal_strlit("new-snapshot sample");
            assert(name.subrange(0, 12) =~= "new-snapshot"@);
        },
        Stage::NewRestore => {
            reveal_strlit("new-snapshot restore");
            assert(name.subrange(0, 12) =~= "new-snapshot"@);
        },
        Stage::NewManifest => {
            reveal_strlit("new-snapshot manifest");
            assert(name.subrange(0, 12) =~= "new-snapshot"@);
        },
        Stage::ReplicaRetrieval(i) => {
            reveal_strlit("replica retrieval ");
            assert(name.subrange(0, 17) =~= "replica retrieval"@);
        },
        Stage::Backup => {
            reveal_strlit("backup");
        },
        Stage::Listing => {
            reveal_strlit("snapshot listing");
            assert(name[0] == 's');
            assert("pre-backup"@[0] == 'p' && "post-backup"@[0] == 'p' && "new-snapshot"@[0] == 'n'
                && "replica retrieval"@[0] == 'r');
        },
        Stage::Prune => {
            reveal_strlit("prune");
        },
        Stage::ReplicaSync(i) => {
            reveal_strlit("replica sync ");
            assert(name[0] == 'r' && name[8] == 's');
            assert("pre-backup"@[0] == 'p' && "post-backup"@[0] == 'p' && "new-snapshot"@[0] == 'n'
                && "replica retrieval"@[8] == 'r');
        },
    }
}

/// The failures of a run, in the two halves that are reported separately.
#[derive(Debug)]
pub struct Outcome {
    pub backup: Vec<String>,
    pub recovery: Vec<String>,
}

/// What an [`Outcome`] holds.
pub struct OutcomeView {
    pub backup: Seq<Seq<char>>,
    pub recovery: Seq<Seq<char>>,
}

impl View for Outcome {
    type V = OutcomeView;

    open spec fn view(&self) -> OutcomeView {
        OutcomeView { backup: text::texts(self.backup@), recovery: text::texts(self.recovery@) }
    }
}

impl OutcomeView {
    /// The outcome of a run that no stage has failed in.
    pub open spec fn none() -> OutcomeView {
        OutcomeView { backup: seq![], recovery: seq![] }
    }

    /// The outcome once a stage has failed.
    pub open spec fn recorded(self, stage: Seq<char>, detail: Seq<char>) -> OutcomeView {
        let msg = failure_text(stage, detail);
        if recovery_stage(stage) {
            OutcomeView { recovery: self.recovery.push(msg), ..self }
        } else {
            OutcomeView { backup: self.backup.push(msg), ..self }
        }
    }
}

impl Default for Outcome {
    fn default() -> (r: Self)
        ensures
            r@ == OutcomeView::none(),
    {
        let r = Outcome { backup: Vec::new(), recovery: Vec::new() };
        assert(r@.backup =~= Seq::<Seq<char>>::empty());
        assert(r@.recovery =~= Seq::<Seq<char>>::empty());
        r
    }
}

impl Outcome {
    /// All failures, those of the backup half first.
    pub fn all(&self) -> (r: Vec<String>)
        ensures
            text::texts(r@) == self@.backup + self@.recovery,
    {
        let mut r: Vec<String> = text::copy_texts(&self.backup);
        let mut rest: Vec<String> = text::copy_texts(&self.recovery);
        let ghost a = r@;
        let ghost b = rest@;
        r.append(&mut rest);
        assert(text::texts(a + b) =~= text::texts(a) + text::texts(b));
        r
    }

    /// How many stages failed.
    pub fn len(&self) -> (n: usize)
        requires
            self@.backup.len() + self@.recovery.len() <= usize::MAX,
        ensures
            n == self@.backup.len() + self@.recovery.len(),
    {
        self.backup.len() + self.recovery.len()
    }

    /// Whether no stage failed.
    pub fn is_empty(&self) -> (r: bool)
        ensures
            r == (self@.backup.len() == 0 && self@.recovery.len() == 0),
            r == (self@ == OutcomeView::none()),
    {
        assert(self@.backup.len() == 0 ==> self@.backup =~= Seq::<Seq<char>>::empty());
        assert(self@.recovery.len() == 0 ==> self@.recovery =~= Seq::<Seq<char>>::empty());
        self.backup.len() == 0 && self.recovery.len() == 0
    }
}

/// The message for a stage that failed.
pub open spec fn failure_text(stage: Seq<char>, detail: Seq<char>) -> Seq<char> {
    "FAILURE ["@ + stage + "]: "@ + detail
}

/// Records that a stage failed, in the half that it belongs to, and gives the
/// message for the log.
pub fn record(out: &mut Outcome, stage: &str, detail: &str) -> (msg: String)
    ensures
        msg@ == failure_text(stage@, detail@),
        final(out)@ == old(out)@.recorded(stage@, detail@),
{
    broadcast use text::lemma_texts_push;

    let mut msg = "FAILURE [".to_owned();
    msg.append(stage);
    msg.append("]: ");
    msg.append(detail);
    if is_recovery_stage(stage) {
        out.recovery.push(msg.clone());
    } else {
        out.backup.push(msg.clone());
    }
    msg
}

/// The exit code that failures lead to.
pub open spec fn code_of(out: OutcomeView) -> i32 {
    if out == OutcomeView::none() {
        0i32
    } else {
        1i32
    }
}

/// The exit code of a run that came to its end: zero only if no stage failed.
pub fn exit_code(out: &Outcome) -> (code: i32)
    ensures
        code == if out@ == OutcomeView::none() {
            0i32
        } else {
            1i32
        },
        code == code_of(out@),
{
    if out.is_empty() {
        0
    } else {
        1
    }
}

/// A failure, once recorded, stays: later ones are added behind it, one at a
/// time, and the run can no longer count as a success.
pub proof fn law_failures_accumulate(out: OutcomeView, stage: Seq<char>, detail: Seq<char>)
    ensures
        out.backup.is_prefix_of(out.recorded(stage, detail).backup),
        out.recovery.is_prefix_of(out.recorded(stage, detail).recovery),
        out.recorded(stage, detail).backup.len() + out.recorded(stage, detail).recovery.len()
            == out.backup.len() + out.recovery.len() + 1,
        out.recorded(stage, detail) != OutcomeView::none(),
{
    let after = out.recorded(stage, detail);
    assert(after.backup.subrange(0, out.backup.len() as int) =~= out.backup);
    assert(after.recovery.subrange(0, out.recovery.len() as int) =~= out.recovery);
    assert(after.backup.len() + after.recovery.len() > 0);
}

/// A stage belongs to recovery exactly if its name begins with one of four
/// words, whatever follows.
pub proof fn law_four_words_mean_recovery(rest: Seq<char>, stage: Seq<char>)
    ensures
        recovery_stage("pre-backup"@ + rest),
        recovery_stage("post-backup"@ + rest),
        recovery_stage("new-snapshot"@ + rest),
        recovery_stage("replica retrieval"@ + rest),
        recovery_stage(stage) ==> {
            ||| "pre-backup"@.is_prefix_of(stage)
            ||| "post-backup"@.is_prefix_of(stage)
            ||| "new-snapshot"@.is_prefix_of(stage)
            ||| "replica retrieval"@.is_prefix_of(stage)
        },
{
    lemma_begins("pre-backup"@, rest);
    lemma_begins("post-backup"@, rest);
    lemma_begins("new-snapshot"@, rest);
    lemma_begins("replica retrieval"@, rest);
}

proof fn lemma_begins(a: Seq<char>, b: Seq<char>)
    ensures
        a.is_prefix_of(a + b),
{
    assert((a + b).subrange(0, a.len() as int) =~= a);
}

/// The names of the stages, and the half that each belongs to. A stage of a
/// replica ends with the name of that replica.
pub proof fn law_stages_have_these_names(replicas: Seq<Seq<char>>, i: usize)
    ensures
        stage_text(Stage::PreSample, replicas) == "pre-backup sample"@,
        stage_text(Stage::PreRestore, replicas) == "pre-backup restore"@,
        stage_text(Stage::PreManifest, replicas) == "pre-backup manifest"@,
        stage_text(Stage::Backup, replicas) == "backup"@,
        stage_text(Stage::Listing, replicas) == "snapshot listing"@,
        stage_text(Stage::Prune, replicas) == "prune"@,
        stage_text(Stage::ReplicaSync(i), replicas) == "replica sync "@ + replicas[i as int],
        stage_text(Stage::PostOriginal, replicas) == "post-backup original sample"@,
        stage_text(Stage::PostManifest, replicas) == "post-backup manifest"@,
        stage_text(Stage::NewSample, replicas) == "new-snapshot sample"@,
        stage_text(Stage::NewRestore, replicas) == "new-snapshot restore"@,
        stage_text(Stage::NewManifest, replicas) == "new-snapshot manifest"@,
        stage_text(Stage::ReplicaRetrieval(i), replicas) == "replica retrieval "@
            + replicas[i as int],
        !recovery_stage(stage_text(Stage::Backup, replicas)),
        !recovery_stage(stage_text(Stage::Listing, replicas)),
        !recovery_stage(stage_text(Stage::Prune, replicas)),
        !recovery_stage(stage_text(Stage::ReplicaSync(i), replicas)),
        recovery_stage(stage_text(Stage::PreSample, replicas)),
        recovery_stage(stage_text(Stage::PreRestore, replicas)),
        recovery_stage(stage_text(Stage::PreManifest, replicas)),
        recovery_stage(stage_text(Stage::PostOriginal, replicas)),
        recovery_stage(stage_text(Stage::PostManifest, replicas)),
        recovery_stage(stage_text(Stage::NewSample, replicas)),
        recovery_stage(stage_text(Stage::NewRestore, replicas)),
        recovery_stage(stage_text(Stage::NewManifest, replicas)),
        recovery_stage(stage_text(Stage::ReplicaRetrieval(i), replicas)),
{
    law_every_stage_is_classified(Stage::PreSample, replicas);
    law_every_stage_is_classified(Stage::PreRestore, replicas);
    law_every_stage_is_classified(Stage::PreManifest, replicas);
    law_every_stage_is_classified(Stage::Backup, replicas);
    law_every_stage_is_classified(Stage::Listing, replicas);
    law_every_stage_is_classified(Stage::Prune, replicas);
    law_every_stage_is_classified(Stage::ReplicaSync(i), replicas);
    law_every_stage_is_classified(Stage::PostOriginal, replicas);
    law_every_stage_is_classified(Stage::PostManifest, replicas);
    law_every_stage_is_classified(Stage::NewSample, replicas);
    law_every_stage_is_classified(Stage::NewRestore, replicas);
    law_every_stage_is_classified(Stage::NewManifest, replicas);
    law_every_stage_is_classified(Stage::ReplicaRetrieval(i), replicas);
}

/// A failure is recorded with its stage and its reason, behind those of its
/// half; the other half stays as it is.
pub proof fn law_failure_goes_to_its_half(
    out: OutcomeView,
    stage: Seq<char>,
    detail: Seq<char>,
)
    ensures
        ({
            let msg = "FAILURE ["@ + stage + "]: "@ + detail;
            let after = out.recorded(stage, detail);
            &&& recovery_stage(stage) ==> after.recovery == out.recovery.push(msg) && after.backup
                == out.backup
            &&& !recovery_stage(stage) ==> after.backup == out.backup.push(msg) && after.recovery
                == out.recovery
        }),
        OutcomeView::none().backup.len() == 0,
        OutcomeView::none().recovery.len() == 0,
{
}

/// A run without failures exits with zero; one failure in either half, and any
/// number more, make it one.
pub proof fn law_any_failure_shows_in_the_exit_code(
    out: OutcomeView,
    stage: Seq<char>,
    detail: Seq<char>,
)
    ensures
        out.backup.len() == 0 && out.recovery.len() == 0 ==> code_of(out) == 0,
        out.backup.len() > 0 || out.recovery.len() > 0 ==> code_of(out) == 1,
        code_of(out.recorded(stage, detail)) == 1,
{
    if out.backup.len() == 0 && out.recovery.len() == 0 {
        assert(out.backup =~= OutcomeView::none().backup);
        assert(out.recovery =~= OutcomeView::none().recovery);
    }
    law_failures_accumulate(out, stage, detail);
}

} // verus!
