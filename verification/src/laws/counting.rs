//! Counts and sums: failures and bytes.

use vstd::prelude::*;

use crate::api::{bytes_at, failed_count, in_32_bits, CleanedView};
use crate::disposal::ResultView;
use crate::finder::FoundView;
use crate::path::PathView;
use crate::report::{bytes_sum, failures};

verus! {

/// The number of failures is the number of outcomes that carry an error.
pub proof fn failures_are_the_outcomes_with_errors(results: Seq<ResultView>)
    ensures
        failures(results) == results.filter(|r: ResultView| r.error is Some).len(),
    decreases results.len(),
{
    reveal(Seq::filter);
    if results.len() > 0 {
        failures_are_the_outcomes_with_errors(results.drop_last());
    }
}

/// One more outcome is one more failure exactly if it carries an error.
pub proof fn one_more_error_is_one_more_failure(results: Seq<ResultView>, last: ResultView)
    ensures
        failures(Seq::empty()) == 0,
        last.error is Some ==> failures(results.push(last)) == failures(results) + 1,
        last.error is None ==> failures(results.push(last)) == failures(results),
{
    assert(results.push(last).drop_last() =~= results);
}

/// The failures of two lists in a row are those of the one and of the other.
pub proof fn failures_add_up(a: Seq<ResultView>, b: Seq<ResultView>)
    ensures
        failures(a + b) == failures(a) + failures(b),
    decreases b.len(),
{
    if b.len() == 0 {
        assert(a + b =~= a);
    } else {
        assert((a + b).drop_last() =~= a + b.drop_last());
        failures_add_up(a, b.drop_last());
    }
}

/// Outcomes that all carry an error are all failures.
pub proof fn nothing_but_errors_is_nothing_but_failures(results: Seq<ResultView>)
    requires
        forall|i: int| 0 <= i < results.len() ==> (#[trigger] results[i]).error is Some,
    ensures
        failures(results) == results.len(),
    decreases results.len(),
{
    if results.len() > 0 {
        let before = results.drop_last();
        assert forall|i: int| 0 <= i < before.len() implies (#[trigger] before[i]).error is Some by {
            assert(results[i].error is Some);
        }
        nothing_but_errors_is_nothing_but_failures(before);
        assert(results[results.len() - 1].error is Some);
    }
}

/// The failures of a summary are its directories that carry an error.
pub proof fn failed_directories_are_those_with_errors(cleaned: Seq<CleanedView>)
    ensures
        failed_count(cleaned) == cleaned.filter(|c: CleanedView| c.error is Some).len(),
    decreases cleaned.len(),
{
    reveal(Seq::filter);
    if cleaned.len() > 0 {
        failed_directories_are_those_with_errors(cleaned.drop_last());
    }
}

/// One more directory in a summary is one more failure exactly if it carries an error.
pub proof fn one_more_failed_directory(cleaned: Seq<CleanedView>, last: CleanedView)
    ensures
        failed_count(Seq::empty()) == 0,
        last.error is Some ==> failed_count(cleaned.push(last)) == failed_count(cleaned) + 1,
        last.error is None ==> failed_count(cleaned.push(last)) == failed_count(cleaned),
{
    assert(cleaned.push(last).drop_last() =~= cleaned);
}

/// One more directory raises the sum by its bytes; no directories have none.
pub proof fn one_more_directory_adds_its_bytes(found: Seq<FoundView>, last: FoundView)
    ensures
        bytes_sum(Seq::empty()) == 0,
        bytes_sum(found.push(last)) == bytes_sum(found) + last.bytes,
{
    assert(found.push(last).drop_last() =~= found);
}

/// The bytes of two lists in a row are those of the one and of the other.
pub proof fn bytes_add_up(a: Seq<FoundView>, b: Seq<FoundView>)
    ensures
        bytes_sum(a + b) == bytes_sum(a) + bytes_sum(b),
    decreases b.len(),
{
    if b.len() == 0 {
        assert(a + b =~= a);
    } else {
        assert((a + b).drop_last() =~= a + b.drop_last());
        bytes_add_up(a, b.drop_last());
    }
}

/// The sum is at least the bytes of each directory, and changes with them by as much.
pub proof fn every_directory_counts(found: Seq<FoundView>, i: int, bytes: u64)
    requires
        0 <= i < found.len(),
    ensures
        bytes_sum(found) >= found[i].bytes,
        bytes_sum(found.update(i, FoundView { path: found[i].path, bytes })) - bytes
            == bytes_sum(found) - found[i].bytes,
{
    let other = found.update(i, FoundView { path: found[i].path, bytes });
    let before = found.take(i);
    let after = found.skip(i + 1);
    assert(found =~= before.push(found[i]) + after);
    assert(other =~= before.push(other[i]) + after);
    bytes_add_up(before.push(found[i]), after);
    bytes_add_up(before.push(other[i]), after);
    one_more_directory_adds_its_bytes(before, found[i]);
    one_more_directory_adds_its_bytes(before, other[i]);
}

/// A directory that was found has the bytes of its last finding; one that was not found has none.
pub proof fn the_last_finding_has_the_bytes(found: Seq<FoundView>, path: PathView, k: int)
    ensures
        0 <= k < found.len() && found[k].path == path && (forall|j: int|
            k < j < found.len() ==> (#[trigger] found[j]).path != path) ==> bytes_at(found, path)
            == found[k].bytes,
        (forall|j: int| 0 <= j < found.len() ==> (#[trigger] found[j]).path != path) ==> bytes_at(
            found,
            path,
        ) == 0,
    decreases found.len(),
{
    if found.len() > 0 {
        let before = found.drop_last();
        the_last_finding_has_the_bytes(before, path, k);
        assert(found.last() == found[found.len() - 1]);
        assert(forall|j: int| 0 <= j < before.len() ==> #[trigger] before[j] == found[j]);
    }
}

/// A count that 32 bits can hold is kept; one round of 32 bits more changes nothing.
pub proof fn counts_wrap_at_32_bits(n: nat)
    ensures
        n <= u32::MAX ==> in_32_bits(n) == n,
        in_32_bits(n) <= u32::MAX,
        in_32_bits(n + 0x1_0000_0000) == in_32_bits(n),
{
}

} // verus!
