//! Moving directories to the trash.

use vstd::prelude::*;
use vstd::utf8::encode_utf8;

use crate::api::Disposed;
use crate::disposal::{removal_message, removed_one, Move, Removal, ResultView};
use crate::path::{paths_view, DirPath, PathView};
use crate::text::{decimal, decimal_is_injective, encoding_is_injective, push_decimal};

verus! {

/// The name in the trash of the directory number `i` of those that are moved there at the time
/// `stamp`.
pub open spec fn trash_name(stamp: nat, i: nat) -> Seq<char> {
    "node_modules-"@ + decimal(stamp) + "-"@ + decimal(i)
}

/// Whether the moves take the directories, in their order, to the trash.
pub open spec fn moved_to_trash(
    moves: Seq<Move>,
    dirs: Seq<PathView>,
    trash: PathView,
    stamp: nat,
) -> bool {
    &&& moves.len() == dirs.len()
    &&& forall|i: int|
        0 <= i < moves.len() ==> (#[trigger] moves[i]).from@ == dirs[i] && moves[i].to@
            == trash.child(encode_utf8(trash_name(stamp, i as nat)))
}

/// Plans the moves of directories to the trash, each under a name of its own.
pub fn plan_trash(dirs: Vec<DirPath>, trash: &DirPath, stamp: u64) -> (moves: Vec<Move>)
    ensures
        moved_to_trash(moves@, paths_view(dirs@), trash@, stamp as nat),
{
    let mut moves: Vec<Move> = Vec::new();
    for from in taken: dirs.into_iter()
        invariant
            taken.seq() == dirs@,
            moves@.len() == taken.index(),
            forall|i: int|
                0 <= i < moves@.len() ==> (#[trigger] moves@[i]).from@ == dirs@[i]@
                    && moves@[i].to@ == trash@.child(
                    encode_utf8(trash_name(stamp as nat, i as nat)),
                ),
    {
        let mut name = "node_modules-".to_owned();
        push_decimal(&mut name, stamp);
        name.append("-");
        push_decimal(&mut name, moves.len() as u64);
        let to = trash.join_text(name.as_str());
        moves.push(Move { from, to });
    }
    moves
}

/// What became of a directory that was to be moved to the trash: it is there only if it was
/// moved, and it is not removed where it is.
pub open spec fn trashed_view(
    disposed: Seq<Disposed>,
    moves: Seq<Move>,
    outcomes: Seq<Removal>,
) -> bool {
    &&& disposed.len() == moves.len()
    &&& forall|i: int|
        0 <= i < disposed.len() ==> {
            &&& (#[trigger] disposed[i]).result@ == (ResultView {
                path: moves[i].from@,
                error: removal_message(outcomes[i]),
            })
            &&& disposed[i].trashed == (outcomes[i] is Removed)
        }
}

/// Sums up what moving directories to the trash came to.
pub fn trashed(moves: Vec<Move>, outcomes: &Vec<Removal>) -> (disposed: Vec<Disposed>)
    requires
        moves@.len() == outcomes@.len(),
    ensures
        trashed_view(disposed@, moves@, outcomes@),
{
    let mut disposed: Vec<Disposed> = Vec::new();
    for one in taken: moves.into_iter()
        invariant
            taken.seq() == moves@,
            moves@.len() == outcomes@.len(),
            disposed@.len() == taken.index(),
            forall|i: int|
                0 <= i < disposed@.len() ==> {
                    &&& (#[trigger] disposed@[i]).result@ == (ResultView {
                        path: moves@[i].from@,
                        error: removal_message(outcomes@[i]),
                    })
                    &&& disposed@[i].trashed == (outcomes@[i] is Removed)
                },
    {
        let outcome = &outcomes[disposed.len()];
        let in_trash = match outcome {
            Removal::Removed => true,
            _ => false,
        };
        disposed.push(Disposed { result: removed_one(one.from, outcome), trashed: in_trash });
    }
    disposed
}

/// No two directories are moved to one place in the trash.
pub proof fn places_in_the_trash_are_different(
    moves: Seq<Move>,
    dirs: Seq<PathView>,
    trash: PathView,
    stamp: nat,
    i: int,
    j: int,
)
    requires
        moved_to_trash(moves, dirs, trash, stamp),
        0 <= i < moves.len(),
        0 <= j < moves.len(),
        moves[i].to@ == moves[j].to@,
    ensures
        i == j,
{
    let a = trash_name(stamp, i as nat);
    let b = trash_name(stamp, j as nat);
    let depth = trash.names.len() as int;
    assert(moves[i].to@.names[depth] == encode_utf8(a));
    assert(moves[j].to@.names[depth] == encode_utf8(b));
    encoding_is_injective(a, b);
    let start = ("node_modules-"@ + decimal(stamp) + "-"@).len() as int;
    assert(a.skip(start) =~= decimal(i as nat));
    assert(b.skip(start) =~= decimal(j as nat));
    decimal_is_injective(i as nat, j as nat);
}

} // verus!
