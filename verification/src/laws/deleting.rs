//! Deletions: what is dealt out to whom, and what is reported of each directory.

use vstd::prelude::*;
use vstd::utf8::encode_utf8;

use crate::api::Disposed;
use crate::disposal::{
    all_attempted, answered_for, attempt_message, chunk_size, dealt_out, in_a_row, is_shard,
    moved_from, numbered, probe_path, removal_message, removed_view, results_view, shard_view,
    sharded, staging_path, thread_count, thread_results, Attempt, DeleteResult, Disposal, Move,
    Removal, ResultView, Shard,
};
use crate::path::{paths_view, DirPath, PathView};
use crate::text::decimal;
use crate::trash::{moved_to_trash, trash_name, trashed_view};

verus! {

/// A list of outcomes has every path with its own error, in its place.
pub proof fn lists_keep_every_outcome(results: Seq<DeleteResult>)
    ensures
        results_view(results).len() == results.len(),
        answered_for(results_view(results)).len() == results.len(),
        forall|i: int|
            0 <= i < results.len() ==> {
                let r = #[trigger] results_view(results)[i];
                &&& r.path == results[i].path@
                &&& answered_for(results_view(results))[i] == results[i].path@
                &&& r.error is Some <==> results[i].error is Some
                &&& r.error is Some ==> r.error->0 == results[i].error->0@
            },
{
}

/// A removal has an error exactly if it failed, and then its own message.
pub proof fn only_failed_removals_have_errors(removal: Removal)
    ensures
        removal_message(removal) is Some <==> removal is Failed,
        removal is Failed ==> removal_message(removal) == Some(removal->0@),
{
}

/// The outcome number `i` is for the directory number `i`, and carries an error exactly if the
/// removal of that same directory failed, with the message of that removal.
pub proof fn each_directory_has_its_own_outcome(
    dirs: Seq<PathView>,
    removals: Seq<Removal>,
    i: int,
)
    requires
        dirs.len() == removals.len(),
        0 <= i < dirs.len(),
    ensures
        removed_view(dirs, removals).len() == dirs.len(),
        removed_view(dirs, removals)[i].path == dirs[i],
        removals[i] is Failed ==> removed_view(dirs, removals)[i].error == Some(removals[i]->0@),
        !(removals[i] is Failed) ==> removed_view(dirs, removals)[i].error is None,
{
}

/// Where only the removal number `k` failed, exactly the outcome for the directory number `k` has
/// an error.
pub proof fn one_failure_is_one_error(dirs: Seq<PathView>, removals: Seq<Removal>, k: int, i: int)
    requires
        dirs.len() == removals.len(),
        0 <= k < dirs.len(),
        0 <= i < dirs.len(),
        removals[k] is Failed,
        forall|j: int| 0 <= j < removals.len() && j != k ==> !(#[trigger] removals[j] is Failed),
    ensures
        removed_view(dirs, removals)[i].error is Some <==> i == k,
{
    if i != k {
        assert(!(removals[i] is Failed));
    }
}

/// Removing the directories of two lists in a row gives the outcomes of the one and of the other.
pub proof fn outcomes_of_removals_add_up(
    dirs: Seq<PathView>,
    removals: Seq<Removal>,
    more_dirs: Seq<PathView>,
    more_removals: Seq<Removal>,
)
    requires
        dirs.len() == removals.len(),
        more_dirs.len() == more_removals.len(),
    ensures
        removed_view(dirs + more_dirs, removals + more_removals) == removed_view(dirs, removals)
            + removed_view(more_dirs, more_removals),
{
    assert(removed_view(dirs + more_dirs, removals + more_removals) =~= removed_view(
        dirs,
        removals,
    ) + removed_view(more_dirs, more_removals));
}

/// An attempt has an error exactly if the directory was removed where it is and that failed.
pub proof fn only_failed_attempts_have_errors(attempt: Attempt)
    ensures
        attempt is Gone ==> attempt_message(attempt) is None,
        attempt matches Attempt::RemovedInPlace(removal) ==> {
            &&& removal is Failed ==> attempt_message(attempt) == Some(removal->0@)
            &&& !(removal is Failed) ==> attempt_message(attempt) is None
        },
{
}

/// The outcome number `i` of a shard is for the directory that its move number `i` takes away, and
/// carries an error exactly if that same directory was removed where it is and that failed.
pub proof fn each_move_has_its_own_outcome(shard: Shard, attempts: Seq<Attempt>, i: int)
    requires
        shard.moves@.len() == attempts.len(),
        0 <= i < attempts.len(),
    ensures
        shard_view(shard, attempts).len() == attempts.len(),
        shard_view(shard, attempts)[i].path == shard.moves@[i].from@,
        moved_from(shard)[i] == shard.moves@[i].from@,
        attempts[i] is Gone ==> shard_view(shard, attempts)[i].error is None,
        attempts[i] matches Attempt::RemovedInPlace(removal) ==> {
            &&& removal is Failed ==> shard_view(shard, attempts)[i].error == Some(removal->0@)
            &&& !(removal is Failed) ==> shard_view(shard, attempts)[i].error is None
        },
{
}

/// Lists in a row are the first ones in a row and then the last.
pub proof fn one_more_list_in_a_row<T>(lists: Seq<Seq<T>>, last: Seq<T>)
    ensures
        in_a_row(Seq::<Seq<T>>::empty()) == Seq::<T>::empty(),
        in_a_row(lists.push(last)) == in_a_row(lists) + last,
{
    assert(lists.push(last).drop_last() =~= lists);
}

/// How many directories the first `k` shards hold.
pub open spec fn moves_before(shards: Seq<Shard>, k: int) -> int
    decreases k,
{
    if k <= 0 {
        0
    } else {
        moves_before(shards, k - 1) + shards[k - 1].moves@.len()
    }
}

proof fn row_up_to(shards: Seq<Shard>, attempts: Seq<Vec<Attempt>>, k: int)
    requires
        all_attempted(shards, attempts),
        0 <= k <= shards.len(),
    ensures
        in_a_row(thread_results(shards, attempts).take(k)).len() == moves_before(shards, k),
    decreases k,
{
    let all = thread_results(shards, attempts);
    if k > 0 {
        row_up_to(shards, attempts, k - 1);
        assert(all.take(k).drop_last() =~= all.take(k - 1));
        assert(all.take(k).last() == shard_view(shards[k - 1], attempts[k - 1]@));
    }
}

proof fn row_goes_on<T>(lists: Seq<Seq<T>>, k: int, i: int)
    requires
        0 <= k < lists.len(),
        0 <= i < lists[k].len(),
    ensures
        in_a_row(lists.take(k)).len() + i < in_a_row(lists).len(),
        in_a_row(lists)[in_a_row(lists.take(k)).len() + i] == lists[k][i],
    decreases lists.len(),
{
    let before = lists.drop_last();
    if k < before.len() {
        row_goes_on(before, k, i);
        assert(before.take(k) =~= lists.take(k));
        assert(before[k] == lists[k]);
    } else {
        assert(before =~= lists.take(k));
    }
}

/// When the threads are done, the outcome of the move number `i` of the shard number `k` stands
/// behind those of all moves before it, names the directory that the move takes away, and carries an
/// error exactly if that directory was removed where it is and that failed.
pub proof fn outcomes_of_threads_stay_in_place(
    shards: Seq<Shard>,
    attempts: Seq<Vec<Attempt>>,
    k: int,
    i: int,
)
    requires
        all_attempted(shards, attempts),
        0 <= k < shards.len(),
        0 <= i < shards[k].moves@.len(),
    ensures
        ({
            let row = in_a_row(thread_results(shards, attempts));
            let at = moves_before(shards, k) + i;
            &&& 0 <= at < row.len()
            &&& row[at].path == shards[k].moves@[i].from@
            &&& attempts[k]@[i] is Gone ==> row[at].error is None
            &&& attempts[k]@[i] matches Attempt::RemovedInPlace(removal) ==> {
                &&& removal is Failed ==> row[at].error == Some(removal->0@)
                &&& !(removal is Failed) ==> row[at].error is None
            }
        }),
{
    let all = thread_results(shards, attempts);
    row_up_to(shards, attempts, k);
    assert(all[k] == shard_view(shards[k], attempts[k]@));
    assert(shards[k].moves@.len() == attempts[k]@.len());
    row_goes_on(all, k, i);
    each_move_has_its_own_outcome(shards[k], attempts[k]@, i);
}

/// There are five threads for each core: 64 from 13 cores on, one without any core, and never more
/// than there are directories.
pub proof fn five_threads_for_each_core(n: nat, cores: nat)
    ensures
        n > 0 && cores == 0 ==> thread_count(n, cores) == 1,
        1 <= cores <= 12 && 5 * cores <= n ==> thread_count(n, cores) == 5 * cores,
        1 <= cores <= 12 && n <= 5 * cores ==> thread_count(n, cores) == n,
        cores >= 13 && n >= 64 ==> thread_count(n, cores) == 64,
        cores >= 13 && n <= 64 ==> thread_count(n, cores) == n,
{
}

/// Each thread gets as many directories as are needed for all to be dealt out, and no more.
pub proof fn shares_are_just_large_enough(n: nat, cores: nat)
    requires
        n > 0,
    ensures
        chunk_size(n, cores) * thread_count(n, cores) >= n,
        (chunk_size(n, cores) - 1) * thread_count(n, cores) < n,
{
    let t = thread_count(n, cores);
    let chunk = chunk_size(n, cores);
    assert(t > 0);
    assert(chunk * t >= n && (chunk - 1) * t < n) by (nonlinear_arith)
        requires
            t > 0,
            n > 0,
            chunk == (n + t - 1) / (t as int),
    ;
}

/// A number as a name is its decimal digits.
pub proof fn numbers_are_names(i: nat)
    ensures
        numbered(i) == encode_utf8(decimal(i)),
{
}

/// The shard number `k` has a directory named by that number in the staging directory; its move
/// number `i` takes the directory that comes after the full shares of the shards before and the
/// moves before it to a place named by `i` there.
pub proof fn every_share_is_the_next_run(
    shards: Seq<Shard>,
    dirs: Seq<PathView>,
    staging: PathView,
    cores: nat,
    k: int,
    i: int,
)
    requires
        sharded(shards, dirs, staging, cores),
        0 <= k < shards.len(),
        0 <= i < shards[k].moves@.len(),
    ensures
        ({
            let chunk = chunk_size(dirs.len(), cores);
            let shard = shards[k];
            &&& 0 <= k * chunk + i < dirs.len()
            &&& i < chunk
            &&& shard.moves@[i].from@ == dirs[k * chunk + i]
            &&& shard.dir@.anchor == staging.anchor
            &&& shard.dir@.names == staging.names.push(encode_utf8(decimal(k as nat)))
            &&& shard.moves@[i].to@.anchor == staging.anchor
            &&& shard.moves@[i].to@.names == staging.names.push(encode_utf8(decimal(k as nat))).push(
                encode_utf8(decimal(i as nat)),
            )
            &&& shard.moves@.len() == chunk || k * chunk + shard.moves@.len() == dirs.len()
        }),
{
    assert(is_shard(shards[k], dirs, staging, chunk_size(dirs.len(), cores), k as nat));
}

/// The staging directory is an entry of the temporary directory named after the program and the
/// process, and renaming is tried out on its entry `probe`.
pub proof fn staging_is_named_after_the_process(temp_dir: PathView, pid: u32)
    ensures
        staging_path(temp_dir, pid).anchor == temp_dir.anchor,
        staging_path(temp_dir, pid).names == temp_dir.names.push(
            encode_utf8("remnem-"@ + decimal(pid as nat)),
        ),
        probe_path(temp_dir).anchor == temp_dir.anchor,
        probe_path(temp_dir).names == temp_dir.names.push(encode_utf8("probe"@)),
{
}

/// What a deletion is about are its directories, those that its shards take away, or those that it
/// has outcomes for.
pub proof fn a_deletion_is_about_its_directories(
    staging: DirPath,
    dirs: Vec<DirPath>,
    shards: Vec<Shard>,
    results: Vec<DeleteResult>,
)
    ensures
        (Disposal::CreateStaging { staging, dirs }).concerns() == paths_view(dirs@),
        (Disposal::ProbeVolume { staging, probe: staging, dirs }).concerns() == paths_view(dirs@),
        (Disposal::DropStaging { staging, dirs }).concerns() == paths_view(dirs@),
        (Disposal::RemoveInPlace { dirs }).concerns() == paths_view(dirs@),
        (Disposal::Stage { staging, shards }).concerns() == dealt_out(shards@),
        forall|i: int|
            0 <= i < results@.len() ==> {
                &&& #[trigger] (Disposal::SpawnReaper { staging, results }).concerns()[i]
                    == results@[i].path@
                &&& (Disposal::DropLeftovers { staging, results }).concerns()[i]
                    == results@[i].path@
                &&& (Disposal::Finished { results }).concerns()[i] == results@[i].path@
            },
        (Disposal::SpawnReaper { staging, results }).concerns().len() == results@.len(),
        (Disposal::DropLeftovers { staging, results }).concerns().len() == results@.len(),
        (Disposal::Finished { results }).concerns().len() == results@.len(),
{
}

/// Each directory that is moved to the trash gets a name of its own there, made of the time and its
/// number.
pub proof fn names_in_the_trash_tell_time_and_number(
    moves: Seq<Move>,
    dirs: Seq<PathView>,
    trash: PathView,
    stamp: nat,
    i: int,
)
    requires
        moved_to_trash(moves, dirs, trash, stamp),
        0 <= i < dirs.len(),
    ensures
        moves.len() == dirs.len(),
        moves[i].from@ == dirs[i],
        moves[i].to@.anchor == trash.anchor,
        moves[i].to@.names == trash.names.push(
            encode_utf8("node_modules-"@ + decimal(stamp) + "-"@ + decimal(i as nat)),
        ),
{
    assert(trash_name(stamp, i as nat) == "node_modules-"@ + decimal(stamp) + "-"@ + decimal(
        i as nat,
    ));
}

/// A directory is in the trash exactly if it was moved there, and has an error exactly if that
/// failed, with the message of its own failure.
pub proof fn only_what_was_moved_is_in_the_trash(
    disposed: Seq<Disposed>,
    moves: Seq<Move>,
    outcomes: Seq<Removal>,
    i: int,
)
    requires
        trashed_view(disposed, moves, outcomes),
        moves.len() == outcomes.len(),
        0 <= i < moves.len(),
    ensures
        disposed.len() == moves.len(),
        disposed[i].result.path@ == moves[i].from@,
        disposed[i].trashed <==> outcomes[i] is Removed,
        disposed[i].result.error is Some <==> outcomes[i] is Failed,
        outcomes[i] is Failed ==> disposed[i].result.error->0@ == outcomes[i]->0@,
{
    assert(disposed[i].result@.path == disposed[i].result.path@);
}

} // verus!
