//! Deleting directories: moving them out of the way at once and reclaiming the space later, or
//! removing them where they are.
//!
//! The file operations are performed elsewhere. Each state of a [`Disposal`] says which one comes
//! next, and the functions here say which state follows from what came back.

use vstd::prelude::*;
use vstd::utf8::encode_utf8;

use crate::path::{paths_view, DirPath, PathView};
use crate::text::{decimal, decimal_is_injective, decimal_text, encoding_is_injective};

verus! {

/// How directories are deleted.
#[derive(Debug, Clone, Copy, PartialEq, Eq, Structural)]
pub enum Mode {
    /// Each directory is renamed into a staging directory outside the repository, which takes no
    /// time however large it is; a background process removes the staging directory.
    Remove,
    /// Each directory is removed where it is, and the call waits until the space is free.
    RemoveSync,
}

/// What became of one directory.
#[derive(Debug)]
pub struct DeleteResult {
    pub path: DirPath,
    pub error: Option<String>,
}

/// The outcome for one directory as a mathematical value.
pub struct ResultView {
    pub path: PathView,
    pub error: Option<Seq<char>>,
}

/// The value of an optional text.
pub open spec fn message_view(message: Option<String>) -> Option<Seq<char>> {
    match message {
        Some(text) => Some(text@),
        None => None,
    }
}

impl View for DeleteResult {
    type V = ResultView;

    open spec fn view(&self) -> ResultView {
        ResultView { path: self.path@, error: message_view(self.error) }
    }
}

/// The values of a list of outcomes.
pub open spec fn results_view(results: Seq<DeleteResult>) -> Seq<ResultView> {
    results.map_values(|r: DeleteResult| r@)
}

/// What removing a directory with all its contents came to.
#[derive(Debug)]
pub enum Removal {
    Removed,
    /// There was no such directory any more.
    NotFound,
    Failed(String),
}

/// What renaming a directory came to.
#[derive(Debug, Clone, Copy, PartialEq, Eq, Structural)]
pub enum Renaming {
    Renamed,
    /// Something was missing: the directory itself or, where it is still there, the place that it
    /// was to be moved to.
    NotFound { still_there: bool },
    Failed,
}

/// What renaming the first directory that still exists into the staging directory came to. Where
/// it was moved it stays there, and goes with the staging directory. A failure may carry an error
/// code of the operating system.
#[derive(Debug, Clone, Copy, PartialEq, Eq, Structural)]
pub enum Probe {
    NothingToMove,
    Moved,
    Failed(Option<i32>),
}

/// One directory and the place that it is moved to.
#[derive(Debug)]
pub struct Move {
    pub from: DirPath,
    pub to: DirPath,
}

/// The share of one thread: a directory of its own in the staging directory, and what is moved
/// there.
#[derive(Debug)]
pub struct Shard {
    pub dir: DirPath,
    pub moves: Vec<Move>,
}

/// How far a deletion has come: what is to be done next.
#[derive(Debug)]
pub enum Disposal {
    /// Create the directory `staging`.
    CreateStaging { staging: DirPath, dirs: Vec<DirPath> },
    /// Rename the first of `dirs` that exists to `probe`.
    ProbeVolume { staging: DirPath, probe: DirPath, dirs: Vec<DirPath> },
    /// Remove `staging`, which is of no use.
    DropStaging { staging: DirPath, dirs: Vec<DirPath> },
    /// Remove each of `dirs` where it is.
    RemoveInPlace { dirs: Vec<DirPath> },
    /// Create the directory of each shard and move its directories there.
    Stage { staging: DirPath, shards: Vec<Shard> },
    /// Start the background process that removes `staging`.
    SpawnReaper { staging: DirPath, results: Vec<DeleteResult> },
    /// Remove `staging` after all.
    DropLeftovers { staging: DirPath, results: Vec<DeleteResult> },
    /// Nothing is left to be done.
    Finished { results: Vec<DeleteResult> },
}

/// The lists one after the other.
pub open spec fn in_a_row<T>(lists: Seq<Seq<T>>) -> Seq<T>
    decreases lists.len(),
{
    if lists.len() == 0 {
        Seq::empty()
    } else {
        in_a_row(lists.drop_last()) + lists.last()
    }
}

/// The directories that the moves of a shard take away.
pub open spec fn moved_from(shard: Shard) -> Seq<PathView> {
    shard.moves@.map_values(|m: Move| m.from@)
}

/// The directories of all shards, shard by shard.
pub open spec fn dealt_out(shards: Seq<Shard>) -> Seq<PathView> {
    in_a_row(shards.map_values(|shard: Shard| moved_from(shard)))
}

/// The directories that outcomes are for.
pub open spec fn answered_for(results: Seq<ResultView>) -> Seq<PathView> {
    results.map_values(|r: ResultView| r.path)
}

impl Disposal {
    /// The directories that a deletion is about. However it goes on, these stay the same, in the
    /// same order, from the first state to the outcomes.
    pub open spec fn concerns(self) -> Seq<PathView> {
        match self {
            Disposal::CreateStaging { staging, dirs } => paths_view(dirs@),
            Disposal::ProbeVolume { staging, probe, dirs } => paths_view(dirs@),
            Disposal::DropStaging { staging, dirs } => paths_view(dirs@),
            Disposal::RemoveInPlace { dirs } => paths_view(dirs@),
            Disposal::Stage { staging, shards } => dealt_out(shards@),
            Disposal::SpawnReaper { staging, results } => answered_for(results_view(results@)),
            Disposal::DropLeftovers { staging, results } => answered_for(results_view(results@)),
            Disposal::Finished { results } => answered_for(results_view(results@)),
        }
    }
}

/// The error code of a rename from one filesystem to another, on Linux and on macOS.
pub fn libc_exdev() -> (code: i32)
    ensures
        code == 18,
{
    18
}

/// The staging directory of the process number `pid`.
pub open spec fn staging_path(temp_dir: PathView, pid: u32) -> PathView {
    temp_dir.child(encode_utf8("remnem-"@ + decimal(pid as nat)))
}

/// The name of the entry number `i`.
pub open spec fn numbered(i: nat) -> Seq<u8> {
    encode_utf8(decimal(i))
}

/// The place in the staging directory where renaming is tried out.
pub open spec fn probe_path(staging: PathView) -> PathView {
    staging.child(encode_utf8("probe"@))
}

/// Begins a deletion. In mode `Remove` the first thing is to create the staging directory of this
/// run; in mode `RemoveSync` no staging directory is used.
pub fn delete_all(dirs: Vec<DirPath>, mode: Mode, temp_dir: &DirPath, pid: u32) -> (next: Disposal)
    ensures
        match mode {
            Mode::Remove => next matches Disposal::CreateStaging { staging, dirs: left }
                && staging@ == staging_path(temp_dir@, pid) && left == dirs,
            Mode::RemoveSync => next == (Disposal::RemoveInPlace { dirs }),
        },
        next.concerns() == paths_view(dirs@),
{
    match mode {
        Mode::Remove => rename_and_reap(dirs, temp_dir, pid),
        Mode::RemoveSync => Disposal::RemoveInPlace { dirs },
    }
}

/// Begins a deletion by way of the staging directory.
pub fn rename_and_reap(dirs: Vec<DirPath>, temp_dir: &DirPath, pid: u32) -> (next: Disposal)
    ensures
        next matches Disposal::CreateStaging { staging, dirs: left } && staging@ == staging_path(
            temp_dir@,
            pid,
        ) && left == dirs,
        next.concerns() == paths_view(dirs@),
{
    let mut name = "remnem-".to_owned();
    name.append(decimal_text(pid as u64).as_str());
    let staging = temp_dir.join_text(name.as_str());
    Disposal::CreateStaging { staging, dirs }
}

/// Goes on after the attempt to create the staging directory: without one, everything is removed
/// where it is.
pub fn staging_created(staging: DirPath, dirs: Vec<DirPath>, created: bool) -> (next: Disposal)
    ensures
        created ==> (next matches Disposal::ProbeVolume { staging: at, probe, dirs: left } && at
            == staging && probe@ == probe_path(staging@) && left == dirs),
        !created ==> next == (Disposal::RemoveInPlace { dirs }),
        next.concerns() == paths_view(dirs@),
{
    if created {
        let probe = staging.join_text("probe");
        Disposal::ProbeVolume { staging, probe, dirs }
    } else {
        Disposal::RemoveInPlace { dirs }
    }
}

/// Whether the staging directory is on the filesystem of the directories: only the error code for
/// a rename between filesystems says that it is not.
pub fn probe_same_volume(probe: Probe) -> (same: bool)
    ensures
        same == (probe != Probe::Failed(Some(18))),
{
    match probe {
        Probe::Failed(Some(code)) => code != libc_exdev(),
        _ => true,
    }
}

/// Goes on after the probe. On one filesystem every directory is moved; otherwise the staging
/// directory is given up and everything is removed where it is.
pub fn volume_probed(staging: DirPath, dirs: Vec<DirPath>, probe: Probe, cores: usize) -> (next:
    Disposal)
    ensures
        probe == Probe::Failed(Some(18)) ==> next == (Disposal::DropStaging { staging, dirs }),
        probe != Probe::Failed(Some(18)) ==> (next matches Disposal::Stage { staging: at, shards }
            && at == staging && sharded(shards@, paths_view(dirs@), staging@, cores as nat)),
        next.concerns() == paths_view(dirs@),
{
    if probe_same_volume(probe) {
        let shards = parallel_rename(dirs, &staging, cores);
        proof {
            every_directory_is_dealt_out_in_order(
                shards@,
                paths_view(dirs@),
                staging@,
                cores as nat,
            );
        }
        Disposal::Stage { staging, shards }
    } else {
        Disposal::DropStaging { staging, dirs }
    }
}

/// Goes on when the staging directory is given up: everything is removed where it is.
pub fn staging_dropped(dirs: Vec<DirPath>) -> (next: Disposal)
    ensures
        next == (Disposal::RemoveInPlace { dirs }),
        next.concerns() == paths_view(dirs@),
{
    Disposal::RemoveInPlace { dirs }
}

/// The number of cores that the work is spread over: four where the system does not say.
pub fn core_count(available: Option<usize>) -> (cores: usize)
    ensures
        available matches Some(n) ==> cores == n,
        available is None ==> cores == 4,
{
    match available {
        Some(n) => n,
        None => 4,
    }
}

/// The number of threads for `n` directories: five for each core, at least one, at most 64, and
/// no more than there are directories.
pub open spec fn thread_count(n: nat, cores: nat) -> nat {
    let wanted = if 5 * cores < 1 {
        1
    } else if 5 * cores > 64 {
        64
    } else {
        5 * cores
    };
    if wanted < n {
        wanted
    } else {
        n
    }
}

/// The number of directories for each thread, rounded up.
pub open spec fn chunk_size(n: nat, cores: nat) -> nat {
    ((n + thread_count(n, cores) - 1) / (thread_count(n, cores) as int)) as nat
}

/// What the shard number `k` is: the `k`-th run of `chunk` directories, each moved to a number of
/// its own in the shard's directory.
pub open spec fn is_shard(
    shard: Shard,
    dirs: Seq<PathView>,
    staging: PathView,
    chunk: nat,
    k: nat,
) -> bool {
    let start = (k * chunk) as int;
    &&& shard.dir@ == staging.child(numbered(k))
    &&& start < dirs.len()
    &&& shard.moves@.len() == if dirs.len() - start < chunk {
        dirs.len() - start
    } else {
        chunk as int
    }
    &&& forall|i: int|
        0 <= i < shard.moves@.len() ==> {
            &&& (#[trigger] shard.moves@[i]).from@ == dirs[start + i]
            &&& shard.moves@[i].to@ == shard.dir@.child(numbered(i as nat))
        }
}

/// Whether the shards are all the directories, dealt out run by run to the threads.
pub open spec fn sharded(
    shards: Seq<Shard>,
    dirs: Seq<PathView>,
    staging: PathView,
    cores: nat,
) -> bool {
    let chunk = chunk_size(dirs.len(), cores);
    if dirs.len() == 0 {
        shards.len() == 0
    } else {
        &&& chunk > 0
        &&& shards.len() * chunk >= dirs.len()
        &&& forall|k: int|
            0 <= k < shards.len() ==> is_shard(
                #[trigger] shards[k],
                dirs,
                staging,
                chunk,
                k as nat,
            )
    }
}

/// The moves that take `dirs`, in their order, into the directory `dir`.
fn moves_into(dirs: Vec<DirPath>, dir: &DirPath) -> (moves: Vec<Move>)
    ensures
        moves@.len() == dirs@.len(),
        forall|i: int|
            0 <= i < moves@.len() ==> (#[trigger] moves@[i]).from@ == dirs@[i]@ && moves@[i].to@
                == dir@.child(numbered(i as nat)),
{
    let mut moves: Vec<Move> = Vec::new();
    for from in taken: dirs.into_iter()
        invariant
            taken.seq() == dirs@,
            moves@.len() == taken.index(),
            forall|i: int|
                0 <= i < moves@.len() ==> (#[trigger] moves@[i]).from@ == dirs@[i]@
                    && moves@[i].to@ == dir@.child(numbered(i as nat)),
    {
        let to = dir.join_text(decimal_text(moves.len() as u64).as_str());
        moves.push(Move { from, to });
    }
    moves
}

/// Deals the directories out to threads: about five threads for each core, and to each thread a
/// directory of its own in the staging directory, so that no two threads rename into one place.
pub fn parallel_rename(dirs: Vec<DirPath>, staging: &DirPath, cores: usize) -> (shards: Vec<Shard>)
    ensures
        sharded(shards@, paths_view(dirs@), staging@, cores as nat),
{
    let mut shards: Vec<Shard> = Vec::new();
    let n: usize = dirs.len();
    if n == 0 {
        return shards;
    }
    let wanted: usize = if cores == 0 {
        1
    } else if cores >= 13 {
        64
    } else {
        cores * 5
    };
    let threads: usize = if wanted < n {
        wanted
    } else {
        n
    };
    let chunk: usize = (n - 1) / threads + 1;
    let ghost all = paths_view(dirs@);
    proof {
        let t = threads as int;
        assert((n + t - 1) / t == (n - 1) / t + 1) by (nonlinear_arith)
            requires
                t > 0,
        ;
    }
    let mut remaining = dirs;
    assert(paths_view(remaining@) =~= all.skip(0));
    assert(shards@.len() * chunk == 0) by (nonlinear_arith)
        requires
            shards@.len() == 0,
    ;
    while remaining.len() > 0
        invariant
            n == all.len(),
            chunk > 0,
            chunk == chunk_size(n as nat, cores as nat),
            remaining@.len() == n - shards@.len() * chunk || (remaining@.len() == 0
                && shards@.len() * chunk >= n),
            remaining@.len() > 0 ==> paths_view(remaining@) == all.skip(
                (shards@.len() * chunk) as int,
            ),
            forall|k: int|
                0 <= k < shards@.len() ==> is_shard(
                    #[trigger] shards@[k],
                    all,
                    staging@,
                    chunk as nat,
                    k as nat,
                ),
        decreases remaining@.len(),
    {
        let take: usize = if chunk < remaining.len() {
            chunk
        } else {
            remaining.len()
        };
        let ghost before = remaining@;
        let ghost k = shards@.len();
        let rest = remaining.split_off(take);
        let dir = staging.join_text(decimal_text(shards.len() as u64).as_str());
        let moves = moves_into(remaining, &dir);
        let shard = Shard { dir, moves };
        proof {
            assert(paths_view(before) =~= all.skip((k * chunk) as int));
            assert forall|i: int| 0 <= i < shard.moves@.len() implies (
            #[trigger] shard.moves@[i]).from@ == all[k * chunk + i] by {
                assert(paths_view(before)[i] == all[k * chunk + i]);
            }
            assert(is_shard(shard, all, staging@, chunk as nat, k));
            assert((k + 1) * chunk == k * chunk + chunk) by (nonlinear_arith);
            if rest@.len() > 0 {
                let next = all.skip(((k + 1) * chunk) as int);
                assert forall|j: int| 0 <= j < rest@.len() implies paths_view(rest@)[j]
                    == next[j] by {
                    assert(rest@[j] == before[chunk + j]);
                    assert(paths_view(before)[chunk + j] == all[k * chunk + (chunk + j)]);
                }
                assert(paths_view(rest@) =~= next);
            }
        }
        shards.push(shard);
        remaining = rest;
    }
    shards
}

/// What is reported of a removal: nothing, unless it failed for another reason than that the
/// directory was gone.
pub open spec fn removal_message(removal: Removal) -> Option<Seq<char>> {
    match removal {
        Removal::Failed(message) => Some(message@),
        _ => None,
    }
}

/// The outcome for a directory that was to be removed where it is.
pub fn removed_one(path: DirPath, removal: &Removal) -> (result: DeleteResult)
    ensures
        result.path == path,
        message_view(result.error) == removal_message(*removal),
{
    let error = match removal {
        Removal::Removed => None,
        Removal::NotFound => None,
        Removal::Failed(message) => Some(message.as_str().to_owned()),
    };
    DeleteResult { path, error }
}

/// The outcomes for directories that were removed where they are, one for each and in the same
/// order.
pub open spec fn removed_view(dirs: Seq<PathView>, removals: Seq<Removal>) -> Seq<ResultView> {
    Seq::new(
        dirs.len(),
        |i: int| ResultView { path: dirs[i], error: removal_message(removals[i]) },
    )
}

/// Ends a deletion with what removing each of the directories where it is came to. A failure of
/// one has no influence on the others.
pub fn remove_all_parallel(dirs: Vec<DirPath>, removals: &Vec<Removal>) -> (next: Disposal)
    requires
        dirs@.len() == removals@.len(),
    ensures
        next matches Disposal::Finished { results } && results_view(results@) == removed_view(
            paths_view(dirs@),
            removals@,
        ),
        next.concerns() == paths_view(dirs@),
        next matches Disposal::Finished { results } && results@.len() == dirs@.len() && forall|i: int|
            0 <= i < dirs@.len() ==> {
                &&& (#[trigger] results@[i]).path@ == dirs@[i]@
                &&& results@[i].error is Some <==> removals@[i] is Failed
                &&& removals@[i] is Failed ==> results@[i].error->0@ == removals@[i]->0@
            },
{
    let ghost all = removed_view(paths_view(dirs@), removals@);
    let mut results: Vec<DeleteResult> = Vec::new();
    for path in taken: dirs.into_iter()
        invariant
            taken.seq() == dirs@,
            dirs@.len() == removals@.len(),
            all == removed_view(paths_view(dirs@), removals@),
            results@.len() == taken.index(),
            results_view(results@) == all.take(taken.index() as int),
    {
        let ghost i = taken.index() as int;
        let ghost before = results@;
        let removal = &removals[results.len()];
        results.push(removed_one(path, removal));
        proof {
            assert(all.take(i + 1) =~= all.take(i).push(all[i]));
            assert(results_view(results@) =~= results_view(before).push(all[i]));
        }
    }
    assert(all.take(dirs@.len() as int) =~= all);
    assert(answered_for(all) =~= paths_view(dirs@));
    assert forall|i: int| 0 <= i < dirs@.len() implies {
        &&& (#[trigger] results@[i]).path@ == dirs@[i]@
        &&& results@[i].error is Some <==> removals@[i] is Failed
        &&& removals@[i] is Failed ==> results@[i].error->0@ == removals@[i]->0@
    } by {
        assert(results_view(results@)[i] == all[i]);
    }
    Disposal::Finished { results }
}

/// Whether a directory is still in its place after the attempt to move it, so that it has to be
/// removed there: unless it was renamed or was not there any more.
pub fn still_there(renaming: Renaming) -> (there: bool)
    ensures
        there == (renaming == Renaming::Failed || renaming == (Renaming::NotFound {
            still_there: true,
        })),
{
    match renaming {
        Renaming::Renamed => false,
        Renaming::NotFound { still_there } => still_there,
        Renaming::Failed => true,
    }
}

/// What was done about one directory of a shard.
#[derive(Debug)]
pub enum Attempt {
    /// After the renaming it is gone from its place.
    Gone,
    /// After the renaming it was still there, and was removed where it is.
    RemovedInPlace(Removal),
}

/// What is reported of the attempt to get rid of a directory.
pub open spec fn attempt_message(attempt: Attempt) -> Option<Seq<char>> {
    match attempt {
        Attempt::Gone => None,
        Attempt::RemovedInPlace(removal) => removal_message(removal),
    }
}

/// The outcome for a directory of a shard.
pub fn dispose_one(path: DirPath, attempt: &Attempt) -> (result: DeleteResult)
    ensures
        result.path == path,
        message_view(result.error) == attempt_message(*attempt),
{
    match attempt {
        Attempt::Gone => DeleteResult { path, error: None },
        Attempt::RemovedInPlace(removal) => removed_one(path, removal),
    }
}

/// The outcomes for the directories of a shard, one for each and in the same order.
pub open spec fn shard_view(shard: Shard, attempts: Seq<Attempt>) -> Seq<ResultView> {
    Seq::new(
        shard.moves@.len(),
        |i: int|
            ResultView { path: shard.moves@[i].from@, error: attempt_message(attempts[i]) },
    )
}

/// Whether a thread reported on each of its directories in turn.
pub open spec fn answers(results: Seq<ResultView>, shard: Shard) -> bool {
    answered_for(results) == moved_from(shard)
}

/// Makes the outcomes for the directories of a shard of what was done about each.
pub fn shard_done(shard: Shard, attempts: &Vec<Attempt>) -> (results: Vec<DeleteResult>)
    requires
        shard.moves@.len() == attempts@.len(),
    ensures
        results_view(results@) == shard_view(shard, attempts@),
        answers(results_view(results@), shard),
{
    let ghost all = shard_view(shard, attempts@);
    let ghost moves = shard.moves@;
    let mut results: Vec<DeleteResult> = Vec::new();
    for one in taken: shard.moves.into_iter()
        invariant
            taken.seq() == moves,
            moves == shard.moves@,
            moves.len() == attempts@.len(),
            all == shard_view(shard, attempts@),
            results@.len() == taken.index(),
            results_view(results@) == all.take(taken.index() as int),
    {
        let ghost i = taken.index() as int;
        let ghost before = results@;
        let attempt = &attempts[results.len()];
        results.push(dispose_one(one.from, attempt));
        proof {
            assert(all.take(i + 1) =~= all.take(i).push(all[i]));
            assert(results_view(results@) =~= results_view(before).push(all[i]));
        }
    }
    assert(all.take(moves.len() as int) =~= all);
    assert(answered_for(all) =~= moved_from(shard));
    results
}

/// Whether there is one attempt for each directory of each shard.
pub open spec fn all_attempted(shards: Seq<Shard>, attempts: Seq<Vec<Attempt>>) -> bool {
    &&& shards.len() == attempts.len()
    &&& forall|k: int|
        0 <= k < shards.len() ==> (#[trigger] shards[k]).moves@.len() == attempts[k]@.len()
}

/// The outcomes of all shards, one list for each.
pub open spec fn thread_results(shards: Seq<Shard>, attempts: Seq<Vec<Attempt>>) -> Seq<
    Seq<ResultView>,
> {
    Seq::new(shards.len(), |k: int| shard_view(shards[k], attempts[k]@))
}

/// Goes on when the threads are done: their outcomes are put in a row, and the background process
/// is to be started. There is one outcome for each directory, in the order in which they were
/// dealt out, whatever became of them.
pub fn staged(staging: DirPath, shards: Vec<Shard>, attempts: &Vec<Vec<Attempt>>) -> (next:
    Disposal)
    requires
        all_attempted(shards@, attempts@),
    ensures
        next matches Disposal::SpawnReaper { staging: at, results } && at == staging
            && results_view(results@) == in_a_row(thread_results(shards@, attempts@)),
        next.concerns() == dealt_out(shards@),
{
    let ghost all = thread_results(shards@, attempts@);
    let mut results: Vec<DeleteResult> = Vec::new();
    let mut k: usize = 0;
    assert(results_view(results@) =~= in_a_row(all.take(0)));
    for shard in taken: shards.into_iter()
        invariant
            taken.seq() == shards@,
            all_attempted(shards@, attempts@),
            all == thread_results(shards@, attempts@),
            k == taken.index(),
            results_view(results@) == in_a_row(all.take(k as int)),
    {
        let ghost before = results@;
        assert(shard.moves@.len() == attempts@[k as int]@.len());
        assert(k < attempts.len());
        let mut list = shard_done(shard, &attempts[k]);
        let ghost added = list@;
        results.append(&mut list);
        proof {
            assert(all.take(k + 1).drop_last() =~= all.take(k as int));
            assert(all.take(k + 1).last() == results_view(added));
            assert(results_view(results@) =~= results_view(before) + results_view(added));
        }
        k += 1;
    }
    proof {
        assert(all.take(shards@.len() as int) =~= all);
        assert forall|j: int| 0 <= j < all.len() implies answers(
            #[trigger] all[j],
            shards@[j],
        ) by {
            assert(answered_for(all[j]) =~= moved_from(shards@[j]));
        }
        every_directory_is_answered_for_in_order(shards@, all);
    }
    Disposal::SpawnReaper { staging, results }
}

/// Goes on after the attempt to start the background process: without one, the staging directory
/// is removed at once, so that its space is never lost.
pub fn reaper_spawned(staging: DirPath, results: Vec<DeleteResult>, spawned: bool) -> (next:
    Disposal)
    ensures
        spawned ==> next == (Disposal::Finished { results }),
        !spawned ==> next == (Disposal::DropLeftovers { staging, results }),
        next.concerns() == answered_for(results_view(results@)),
{
    if spawned {
        Disposal::Finished { results }
    } else {
        Disposal::DropLeftovers { staging, results }
    }
}

/// Ends a deletion when the staging directory is removed after all.
pub fn leftovers_dropped(results: Vec<DeleteResult>) -> (next: Disposal)
    ensures
        next == (Disposal::Finished { results }),
        next.concerns() == answered_for(results_view(results@)),
{
    Disposal::Finished { results }
}

/// What the background process removes: first all entries of the staging directory, then the
/// directory itself.
#[derive(Debug)]
pub struct Reaping {
    pub children: Vec<DirPath>,
    pub root: DirPath,
}

/// Plans the work of the background process from the names in the staging directory. Nothing is
/// done where the directory cannot be read.
pub fn reap(staging: DirPath, listing: Option<Vec<Vec<u8>>>) -> (plan: Option<Reaping>)
    ensures
        plan is Some <==> listing is Some,
        plan matches Some(reaping) ==> reaping.root == staging && paths_view(reaping.children@)
            == listing->0@.map_values(|name: Vec<u8>| staging@.child(name@)),
{
    match listing {
        None => None,
        Some(names) => {
            let mut children: Vec<DirPath> = Vec::new();
            let ghost all = names@.map_values(|name: Vec<u8>| staging@.child(name@));
            let mut i: usize = 0;
            while i < names.len()
                invariant
                    i <= names@.len(),
                    all == names@.map_values(|name: Vec<u8>| staging@.child(name@)),
                    paths_view(children@) == all.take(i as int),
                decreases names@.len() - i,
            {
                let ghost before = children@;
                children.push(staging.join(&names[i]));
                proof {
                    assert(all.take(i + 1) =~= all.take(i as int).push(all[i as int]));
                    assert(paths_view(children@) =~= paths_view(before).push(all[i as int]));
                }
                i += 1;
            }
            assert(all.take(names@.len() as int) =~= all);
            Some(Reaping { children, root: staging })
        },
    }
}

/// Different numbers make different names.
proof fn numbered_is_injective(i: nat, j: nat)
    requires
        numbered(i) == numbered(j),
    ensures
        i == j,
{
    encoding_is_injective(decimal(i), decimal(j));
    decimal_is_injective(i, j);
}

/// No two directories are moved to one place.
pub proof fn no_two_moves_collide(
    shards: Seq<Shard>,
    dirs: Seq<PathView>,
    staging: PathView,
    cores: nat,
    k: int,
    i: int,
    l: int,
    j: int,
)
    requires
        sharded(shards, dirs, staging, cores),
        0 <= k < shards.len(),
        0 <= i < shards[k].moves@.len(),
        0 <= l < shards.len(),
        0 <= j < shards[l].moves@.len(),
        shards[k].moves@[i].to@ == shards[l].moves@[j].to@,
    ensures
        k == l,
        i == j,
{
    let a = shards[k].moves@[i].to@;
    let b = shards[l].moves@[j].to@;
    let depth = staging.names.len() as int;
    assert(a.names[depth] == numbered(k as nat));
    assert(b.names[depth] == numbered(l as nat));
    assert(a.names[depth + 1] == numbered(i as nat));
    assert(b.names[depth + 1] == numbered(j as nat));
    numbered_is_injective(k as nat, l as nat);
    numbered_is_injective(i as nat, j as nat);
}

proof fn decimal_starts_with_a_digit(n: nat)
    ensures
        decimal(n).len() > 0,
        48 <= decimal(n)[0] as nat <= 57,
    decreases n,
{
    if n >= 10 {
        decimal_starts_with_a_digit(n / 10);
    }
}

/// The place where renaming is tried out is neither a shard's directory nor a place that a
/// directory is moved to.
pub proof fn probe_is_in_nobodys_way(
    shards: Seq<Shard>,
    dirs: Seq<PathView>,
    staging: PathView,
    cores: nat,
    k: int,
    i: int,
)
    requires
        sharded(shards, dirs, staging, cores),
        0 <= k < shards.len(),
        0 <= i < shards[k].moves@.len(),
    ensures
        shards[k].dir@ != probe_path(staging),
        shards[k].moves@[i].to@ != probe_path(staging),
{
    assert(is_shard(shards[k], dirs, staging, chunk_size(dirs.len(), cores), k as nat));
    assert(shards[k].moves@[i].to@.names.len() == staging.names.len() + 2);
    if shards[k].dir@ == probe_path(staging) {
        let depth = staging.names.len() as int;
        assert(shards[k].dir@.names[depth] == numbered(k as nat));
        assert(probe_path(staging).names[depth] == encode_utf8("probe"@));
        encoding_is_injective(decimal(k as nat), "probe"@);
        decimal_starts_with_a_digit(k as nat);
        reveal_strlit("probe");
        assert("probe"@[0] == 'p');
    }
}

/// Where the staging directory and the repository are apart, nothing is moved to a place in the
/// repository.
pub proof fn nothing_is_moved_into_the_repository(
    shards: Seq<Shard>,
    dirs: Seq<PathView>,
    staging: PathView,
    cores: nat,
    root: PathView,
    k: int,
    i: int,
)
    requires
        sharded(shards, dirs, staging, cores),
        0 <= k < shards.len(),
        0 <= i < shards[k].moves@.len(),
        !staging.is_within(root),
        !root.is_within(staging),
    ensures
        !shards[k].moves@[i].to@.is_within(root),
{
    let to = shards[k].moves@[i].to@;
    assert(is_shard(shards[k], dirs, staging, chunk_size(dirs.len(), cores), k as nat));
    assert(to.names.subrange(0, staging.names.len() as int) =~= staging.names);
    if to.is_within(root) {
        if root.names.len() <= staging.names.len() {
            assert(staging.names.subrange(0, root.names.len() as int) =~= to.names.subrange(
                0,
                root.names.len() as int,
            ));
        } else {
            assert(root.names.subrange(0, staging.names.len() as int) =~= to.names.subrange(
                0,
                staging.names.len() as int,
            ));
        }
    }
}

/// There is at least one thread and no more than 64, no thread is without work, and there are no
/// more shards than threads.
pub proof fn threads_are_few(
    shards: Seq<Shard>,
    dirs: Seq<PathView>,
    staging: PathView,
    cores: nat,
)
    requires
        sharded(shards, dirs, staging, cores),
        dirs.len() > 0,
    ensures
        1 <= shards.len() <= thread_count(dirs.len(), cores) <= 64,
        forall|k: int| 0 <= k < shards.len() ==> (#[trigger] shards[k]).moves@.len() > 0,
{
    let n = dirs.len();
    let t = thread_count(n, cores);
    let chunk = chunk_size(n, cores);
    assert(shards.len() > 0) by {
        if shards.len() == 0 {
            assert(shards.len() * chunk == 0) by (nonlinear_arith)
                requires
                    shards.len() == 0,
            ;
        }
    }
    assert(chunk * t >= n) by (nonlinear_arith)
        requires
            t > 0,
            chunk == (n + t - 1) / (t as int),
    ;
    let last = (shards.len() - 1) as nat;
    assert(is_shard(shards[last as int], dirs, staging, chunk, last));
    if last >= t {
        assert(last * chunk >= chunk * t) by (nonlinear_arith)
            requires
                last >= t,
        ;
    }
    assert forall|k: int| 0 <= k < shards.len() implies (#[trigger] shards[k]).moves@.len()
        > 0 by {
        assert(is_shard(shards[k], dirs, staging, chunk, k as nat));
    }
}

proof fn first_shards_hold_the_first_directories(
    shards: Seq<Shard>,
    dirs: Seq<PathView>,
    staging: PathView,
    chunk: nat,
)
    requires
        forall|k: int|
            0 <= k < shards.len() ==> is_shard(
                #[trigger] shards[k],
                dirs,
                staging,
                chunk,
                k as nat,
            ),
    ensures
        dealt_out(shards) == dirs.take(
            if shards.len() * chunk < dirs.len() {
                (shards.len() * chunk) as int
            } else {
                dirs.len() as int
            },
        ),
    decreases shards.len(),
{
    let lists = shards.map_values(|shard: Shard| moved_from(shard));
    if shards.len() == 0 {
        assert(shards.len() * chunk == 0) by (nonlinear_arith)
            requires
                shards.len() == 0,
        ;
        assert(dealt_out(shards) =~= dirs.take(0));
    } else {
        let before = shards.drop_last();
        assert forall|k: int| 0 <= k < before.len() implies is_shard(
            #[trigger] before[k],
            dirs,
            staging,
            chunk,
            k as nat,
        ) by {
            assert(before[k] == shards[k]);
        }
        first_shards_hold_the_first_directories(before, dirs, staging, chunk);
        assert(lists.drop_last() =~= before.map_values(|shard: Shard| moved_from(shard)));
        let m = before.len();
        let shard = shards[m as int];
        assert(is_shard(shard, dirs, staging, chunk, m));
        assert((m + 1) * chunk == m * chunk + chunk) by (nonlinear_arith);
        let start = (m * chunk) as int;
        let last = moved_from(shard);
        assert forall|i: int| 0 <= i < last.len() implies last[i] == dirs[start + i] by {
            assert(shard.moves@[i].from@ == dirs[start + i]);
        }
        assert(dealt_out(shards) =~= dirs.take(start) + last);
    }
}

/// Every directory is dealt out to exactly one shard, in the order in which the directories were
/// given.
pub proof fn every_directory_is_dealt_out_in_order(
    shards: Seq<Shard>,
    dirs: Seq<PathView>,
    staging: PathView,
    cores: nat,
)
    requires
        sharded(shards, dirs, staging, cores),
    ensures
        dealt_out(shards) == dirs,
{
    if dirs.len() > 0 {
        first_shards_hold_the_first_directories(
            shards,
            dirs,
            staging,
            chunk_size(dirs.len(), cores),
        );
        assert(dirs.take(dirs.len() as int) =~= dirs);
    } else {
        assert(dealt_out(shards) =~= dirs);
    }
}

/// Where each thread reported on each of its directories in turn, there is in the end one outcome
/// for each directory, in the order in which the directories were dealt out, whatever became of
/// them.
pub proof fn every_directory_is_answered_for_in_order(
    shards: Seq<Shard>,
    per_thread: Seq<Seq<ResultView>>,
)
    requires
        per_thread.len() == shards.len(),
        forall|k: int|
            0 <= k < per_thread.len() ==> answers(#[trigger] per_thread[k], shards[k]),
    ensures
        answered_for(in_a_row(per_thread)) == dealt_out(shards),
    decreases shards.len(),
{
    let lists = shards.map_values(|shard: Shard| moved_from(shard));
    if shards.len() > 0 {
        let before = per_thread.drop_last();
        let shards_before = shards.drop_last();
        assert forall|k: int| 0 <= k < before.len() implies answers(
            #[trigger] before[k],
            shards_before[k],
        ) by {
            assert(before[k] == per_thread[k]);
        }
        every_directory_is_answered_for_in_order(shards_before, before);
        assert(lists.drop_last() =~= shards_before.map_values(|shard: Shard| moved_from(shard)));
        assert(answers(per_thread[per_thread.len() - 1], shards[shards.len() - 1]));
        assert(answered_for(in_a_row(per_thread)) =~= answered_for(in_a_row(before))
            + answered_for(per_thread.last()));
    } else {
        assert(answered_for(in_a_row(per_thread)) =~= dealt_out(shards));
    }
}

} // verus!
