//! Reports: what a scan found and what a deletion came to, for people and in JSON.

use vstd::prelude::*;

use crate::disposal::{results_view, DeleteResult, ResultView};
use crate::finder::{found_view, FoundNodeModules, FoundView};
use crate::json::{
    blank, braced, denotes, denotes_member, denotes_members, denotes_padded, field_is_member,
    field_json, is_plain, items_json, list_json, list_json_denotes_list, one_more_member,
    padding_changes_nothing, plain_text_denotes_itself, push_item_lead, push_key, push_quoted,
    push_text_json, quoted, text_json, text_json_denotes_text, Json, Member,
};
use crate::path::{path_text, paths_view, DirPath, PathView};
use crate::text::{decimal, push_decimal};
use crate::workspace::{kind_text, workspace_kind_str, WorkspaceKind};

verus! {

/// The bytes in all directories of a list.
pub open spec fn bytes_sum(found: Seq<FoundView>) -> nat
    decreases found.len(),
{
    if found.len() == 0 {
        0
    } else {
        bytes_sum(found.drop_last()) + found.last().bytes as nat
    }
}

/// The bytes in all directories of a list, where 64 bits can hold the sum.
pub fn total_bytes(found: &Vec<FoundNodeModules>) -> (total: Option<u64>)
    ensures
        bytes_sum(found_view(found@)) <= u64::MAX ==> total == Some(
            bytes_sum(found_view(found@)) as u64,
        ),
        bytes_sum(found_view(found@)) > u64::MAX ==> total is None,
{
    let ghost all = found_view(found@);
    let mut total: u64 = 0;
    let mut i: usize = 0;
    while i < found.len()
        invariant
            all == found_view(found@),
            i <= found@.len(),
            total == bytes_sum(all.take(i as int)),
        decreases found@.len() - i,
    {
        proof {
            assert(all.take(i + 1).drop_last() =~= all.take(i as int));
            assert(all.take(i + 1).last() == all[i as int]);
            sum_of_a_part(all, i + 1);
        }
        match total.checked_add(found[i].bytes) {
            Some(sum) => total = sum,
            None => return None,
        }
        i += 1;
    }
    assert(all.take(found@.len() as int) =~= all);
    Some(total)
}

proof fn sum_of_a_part(found: Seq<FoundView>, i: int)
    requires
        0 <= i <= found.len(),
    ensures
        bytes_sum(found.take(i)) <= bytes_sum(found),
    decreases found.len(),
{
    if i < found.len() {
        sum_of_a_part(found.drop_last(), i);
        assert(found.drop_last().take(i) =~= found.take(i));
    } else {
        assert(found.take(i) =~= found);
    }
}

/// A key and a value on a line of their own.
pub open spec fn member_json(key: Seq<char>, value: Seq<char>) -> Seq<char> {
    "\n  "@ + field_json(key, value)
}

/// The package directories as the items of a JSON list.
pub open spec fn packages_json(packages: Seq<PathView>, separator: u8) -> Seq<Seq<char>> {
    packages.map_values(|p: PathView| text_json(path_text(p, separator)))
}

/// A found directory as an item of a JSON list.
pub open spec fn found_item_json(found: FoundView, separator: u8) -> Seq<char> {
    "{ "@ + field_json("path"@, text_json(path_text(found.path, separator))) + ", "@ + field_json(
        "bytes"@,
        decimal(found.bytes as nat),
    ) + ", "@ + field_json("deleted"@, "false"@) + " }"@
}

/// The found directories as the items of a JSON list.
pub open spec fn found_json(found: Seq<FoundView>, separator: u8) -> Seq<Seq<char>> {
    found.map_values(|f: FoundView| found_item_json(f, separator))
}

/// What a scan found, in JSON.
pub open spec fn scan_json_text(
    root: PathView,
    kind: WorkspaceKind,
    packages: Seq<PathView>,
    found: Seq<FoundView>,
    separator: u8,
) -> Seq<char> {
    "{"@ + member_json("root"@, text_json(path_text(root, separator))) + ","@ + member_json(
        "workspaceKind"@,
        quoted(kind_text(kind)),
    ) + ","@ + member_json("workspacePackages"@, list_json(packages_json(packages, separator)))
        + ","@ + member_json("count"@, decimal(found.len())) + ","@ + member_json(
        "totalBytes"@,
        decimal(bytes_sum(found)),
    ) + ","@ + member_json("cleaned"@, list_json(found_json(found, separator))) + "\n}\n"@
}

fn push_path_json(out: &mut String, path: &DirPath, separator: u8)
    ensures
        final(out)@ == old(out)@ + text_json(path_text(path@, separator)),
{
    let text = path.display(separator);
    push_text_json(out, text.as_str());
}

fn push_number_member(out: &mut String, key: &str, n: u64)
    ensures
        final(out)@ == old(out)@ + member_json(key@, decimal(n as nat)),
{
    let ghost before = out@;
    out.append("\n  ");
    push_key(out, key);
    push_decimal(out, n);
    assert(out@ =~= before + member_json(key@, decimal(n as nat)));
}

fn push_path_member(out: &mut String, key: &str, path: &DirPath, separator: u8)
    ensures
        final(out)@ == old(out)@ + member_json(key@, text_json(path_text(path@, separator))),
{
    let ghost before = out@;
    out.append("\n  ");
    push_key(out, key);
    push_path_json(out, path, separator);
    assert(out@ =~= before + member_json(key@, text_json(path_text(path@, separator))));
}

fn push_quoted_member(out: &mut String, key: &str, inside: &str)
    ensures
        final(out)@ == old(out)@ + member_json(key@, quoted(inside@)),
{
    let ghost before = out@;
    out.append("\n  ");
    push_key(out, key);
    push_quoted(out, inside);
    assert(out@ =~= before + member_json(key@, quoted(inside@)));
}

/// Appends the key of a list, on a line of its own, up to the first item.
fn push_list_start(out: &mut String, key: &str)
    ensures
        final(out)@ == old(out)@ + ("\n  "@ + quoted(key@) + ": "@ + seq!['[']),
{
    let ghost before = out@;
    out.append("\n  ");
    push_key(out, key);
    out.push('[');
    assert(out@ =~= before + ("\n  "@ + quoted(key@) + ": "@ + seq!['[']));
}

/// Appends the end of a list of `n` items.
fn push_list_end(out: &mut String, n: usize)
    ensures
        final(out)@ == old(out)@ + ((if n == 0 {
            Seq::empty()
        } else {
            "\n  "@
        }) + seq![']']),
{
    let ghost before = out@;
    if n > 0 {
        out.append("\n  ");
    }
    out.push(']');
    assert(out@ =~= before + ((if n == 0 {
        Seq::empty()
    } else {
        "\n  "@
    }) + seq![']']));
}

proof fn list_is_its_parts(before: Seq<char>, key: Seq<char>, items: Seq<Seq<char>>)
    ensures
        before + ("\n  "@ + quoted(key) + ": "@ + seq!['[']) + items_json(items) + ((if items.len()
            == 0 {
            Seq::empty()
        } else {
            "\n  "@
        }) + seq![']']) =~= before + member_json(key, list_json(items)),
{
}

proof fn one_more_item(items: Seq<Seq<char>>, i: int)
    requires
        0 <= i < items.len(),
    ensures
        items_json(items.take(i + 1)) =~= items_json(items.take(i)) + (if i == 0 {
            Seq::empty()
        } else {
            seq![',']
        }) + "\n    "@ + items[i],
{
    let next = items.take(i + 1);
    assert(next.drop_last() =~= items.take(i));
    assert(next.last() == items[i]);
    if i == 0 {
        assert(items.take(0) =~= Seq::empty());
        assert(next[0] == items[0]);
    }
}

fn push_packages_member(out: &mut String, key: &str, packages: &Vec<DirPath>, separator: u8)
    ensures
        final(out)@ == old(out)@ + member_json(
            key@,
            list_json(packages_json(paths_view(packages@), separator)),
        ),
{
    let ghost before = out@;
    let ghost all = packages_json(paths_view(packages@), separator);
    push_list_start(out, key);
    let ghost start = out@;
    let mut i: usize = 0;
    assert(all.take(0) =~= Seq::empty());
    assert(out@ =~= start + items_json(all.take(0)));
    while i < packages.len()
        invariant
            all == packages_json(paths_view(packages@), separator),
            i <= packages@.len(),
            out@ == start + items_json(all.take(i as int)),
        decreases packages@.len() - i,
    {
        push_item_lead(out, i);
        push_path_json(out, &packages[i], separator);
        proof {
            one_more_item(all, i as int);
            assert(out@ =~= start + items_json(all.take(i + 1)));
        }
        i += 1;
    }
    push_list_end(out, packages.len());
    proof {
        assert(all.take(packages@.len() as int) =~= all);
        list_is_its_parts(before, key@, all);
    }
}

fn push_found_item_json(out: &mut String, found: &FoundNodeModules, separator: u8)
    ensures
        final(out)@ == old(out)@ + found_item_json(found@, separator),
{
    let ghost before = out@;
    out.append("{ ");
    push_key(out, "path");
    push_path_json(out, &found.path, separator);
    out.append(", ");
    push_key(out, "bytes");
    push_decimal(out, found.bytes);
    out.append(", ");
    push_key(out, "deleted");
    out.append("false");
    out.append(" }");
    assert(out@ =~= before + found_item_json(found@, separator));
}

fn push_found_member(out: &mut String, key: &str, found: &Vec<FoundNodeModules>, separator: u8)
    ensures
        final(out)@ == old(out)@ + member_json(
            key@,
            list_json(found_json(found_view(found@), separator)),
        ),
{
    let ghost before = out@;
    let ghost all = found_json(found_view(found@), separator);
    push_list_start(out, key);
    let ghost start = out@;
    let mut i: usize = 0;
    assert(all.take(0) =~= Seq::empty());
    assert(out@ =~= start + items_json(all.take(0)));
    while i < found.len()
        invariant
            all == found_json(found_view(found@), separator),
            i <= found@.len(),
            out@ == start + items_json(all.take(i as int)),
        decreases found@.len() - i,
    {
        push_item_lead(out, i);
        push_found_item_json(out, &found[i], separator);
        proof {
            one_more_item(all, i as int);
            assert(out@ =~= start + items_json(all.take(i + 1)));
        }
        i += 1;
    }
    push_list_end(out, found.len());
    proof {
        assert(all.take(found@.len() as int) =~= all);
        list_is_its_parts(before, key@, all);
    }
}

/// Reports in JSON what a scan found.
pub fn scan_json(
    root: &DirPath,
    kind: WorkspaceKind,
    packages: &Vec<DirPath>,
    found: &Vec<FoundNodeModules>,
    separator: u8,
) -> (text: String)
    requires
        bytes_sum(found_view(found@)) <= u64::MAX,
    ensures
        text@ == scan_json_text(
            root@,
            kind,
            paths_view(packages@),
            found_view(found@),
            separator,
        ),
{
    let total: u64 = match total_bytes(found) {
        Some(sum) => sum,
        None => 0,
    };
    let mut text = "{".to_owned();
    push_path_member(&mut text, "root", root, separator);
    text.append(",");
    push_quoted_member(&mut text, "workspaceKind", workspace_kind_str(kind));
    text.append(",");
    push_packages_member(&mut text, "workspacePackages", packages, separator);
    text.append(",");
    push_number_member(&mut text, "count", found.len() as u64);
    text.append(",");
    push_number_member(&mut text, "totalBytes", total);
    text.append(",");
    push_found_member(&mut text, "cleaned", found, separator);
    text.append("\n}\n");
    text
}

/// The directories that could not be deleted.
pub open spec fn failures(results: Seq<ResultView>) -> nat
    decreases results.len(),
{
    if results.len() == 0 {
        0
    } else {
        failures(results.drop_last()) + if results.last().error is Some {
            1nat
        } else {
            0nat
        }
    }
}

/// Counts the directories that could not be deleted.
pub fn count_failures(results: &Vec<DeleteResult>) -> (failed: usize)
    ensures
        failed == failures(results_view(results@)),
        failed <= results@.len(),
{
    let ghost all = results_view(results@);
    let mut failed: usize = 0;
    let mut i: usize = 0;
    while i < results.len()
        invariant
            all == results_view(results@),
            failed <= i <= results@.len(),
            failed == failures(all.take(i as int)),
        decreases results@.len() - i,
    {
        proof {
            assert(all.take(i + 1).drop_last() =~= all.take(i as int));
            assert(all.take(i + 1).last() == all[i as int]);
        }
        if results[i].error.is_some() {
            failed += 1;
        }
        i += 1;
    }
    assert(all.take(results@.len() as int) =~= all);
    failed
}

/// Why a deletion failed, in JSON.
pub open spec fn error_json(error: Option<Seq<char>>) -> Seq<char> {
    match error {
        Some(message) => text_json(message),
        None => "null"@,
    }
}

/// Whether a directory was deleted, in JSON.
pub open spec fn deleted_json(error: Option<Seq<char>>) -> Seq<char> {
    match error {
        Some(message) => "false"@,
        None => "true"@,
    }
}

/// The outcome for a directory as an item of a JSON list.
pub open spec fn result_item_json(result: ResultView, separator: u8) -> Seq<char> {
    "{ "@ + field_json("path"@, text_json(path_text(result.path, separator))) + ", "@ + field_json(
        "deleted"@,
        deleted_json(result.error),
    ) + ", "@ + field_json("error"@, error_json(result.error)) + " }"@
}

/// The outcomes as the items of a JSON list.
pub open spec fn results_json(results: Seq<ResultView>, separator: u8) -> Seq<Seq<char>> {
    results.map_values(|r: ResultView| result_item_json(r, separator))
}

/// What a deletion came to, in JSON.
pub open spec fn delete_json_text(results: Seq<ResultView>, separator: u8) -> Seq<char> {
    "{"@ + member_json("count"@, decimal(results.len())) + ","@ + member_json(
        "failed"@,
        decimal(failures(results)),
    ) + ","@ + member_json("cleaned"@, list_json(results_json(results, separator))) + "\n}\n"@
}

fn push_result_json(out: &mut String, result: &DeleteResult, separator: u8)
    ensures
        final(out)@ == old(out)@ + result_item_json(result@, separator),
{
    let ghost before = out@;
    out.append("{ ");
    push_key(out, "path");
    push_path_json(out, &result.path, separator);
    out.append(", ");
    push_key(out, "deleted");
    if result.error.is_some() {
        out.append("false");
    } else {
        out.append("true");
    }
    out.append(", ");
    push_key(out, "error");
    match &result.error {
        Some(message) => push_text_json(out, message.as_str()),
        None => out.append("null"),
    }
    out.append(" }");
    assert(out@ =~= before + result_item_json(result@, separator));
}

fn push_results_member(out: &mut String, key: &str, results: &Vec<DeleteResult>, separator: u8)
    ensures
        final(out)@ == old(out)@ + member_json(
            key@,
            list_json(results_json(results_view(results@), separator)),
        ),
{
    let ghost before = out@;
    let ghost all = results_json(results_view(results@), separator);
    push_list_start(out, key);
    let ghost start = out@;
    let mut i: usize = 0;
    assert(all.take(0) =~= Seq::empty());
    assert(out@ =~= start + items_json(all.take(0)));
    while i < results.len()
        invariant
            all == results_json(results_view(results@), separator),
            i <= results@.len(),
            out@ == start + items_json(all.take(i as int)),
        decreases results@.len() - i,
    {
        push_item_lead(out, i);
        push_result_json(out, &results[i], separator);
        proof {
            one_more_item(all, i as int);
            assert(out@ =~= start + items_json(all.take(i + 1)));
        }
        i += 1;
    }
    push_list_end(out, results.len());
    proof {
        assert(all.take(results@.len() as int) =~= all);
        list_is_its_parts(before, key@, all);
    }
}

/// Reports in JSON what a deletion came to.
pub fn delete_json(results: &Vec<DeleteResult>, separator: u8) -> (text: String)
    ensures
        text@ == delete_json_text(results_view(results@), separator),
{
    let failed: usize = count_failures(results);
    let mut text = "{".to_owned();
    push_number_member(&mut text, "count", results.len() as u64);
    text.append(",");
    push_number_member(&mut text, "failed", failed as u64);
    text.append(",");
    push_results_member(&mut text, "cleaned", results, separator);
    text.append("\n}\n");
    text
}

proof fn item_denotes_object(
    first: Member,
    first_text: Seq<char>,
    second: Member,
    second_text: Seq<char>,
    third: Member,
    third_text: Seq<char>,
)
    requires
        is_plain(first.key),
        is_plain(second.key),
        is_plain(third.key),
        denotes(first_text, first.value),
        denotes(second_text, second.value),
        denotes(third_text, third.value),
    ensures
        denotes(
            "{ "@ + field_json(first.key, first_text) + ", "@ + field_json(second.key, second_text)
                + ", "@ + field_json(third.key, third_text) + " }"@,
            Json::Object(seq![first, second, third]),
        ),
{
    reveal_strlit("{ ");
    reveal_strlit(", ");
    reveal_strlit(" }");
    let none = Seq::<char>::empty();
    let space = seq![' '];
    let a = space + field_json(first.key, first_text) + none;
    let b = space + field_json(second.key, second_text) + none;
    let c = space + field_json(third.key, third_text) + space;
    field_is_member(space, first.key, first_text, none, first.value);
    field_is_member(space, second.key, second_text, none, second.value);
    field_is_member(space, third.key, third_text, space, third.value);
    assert(denotes_members(a, seq![first]));
    one_more_member(a, seq![first], b, second);
    assert(seq![first].push(second) =~= seq![first, second]);
    one_more_member(a + seq![','] + b, seq![first, second], c, third);
    assert(seq![first, second].push(third) =~= seq![first, second, third]);
    let inside = a + seq![','] + b + seq![','] + c;
    assert("{ "@ =~= seq!['{'] + space);
    assert(", "@ =~= seq![','] + space);
    assert(" }"@ =~= space + seq!['}']);
    assert("{ "@ + field_json(first.key, first_text) + ", "@ + field_json(second.key, second_text)
        + ", "@ + field_json(third.key, third_text) + " }"@ =~= braced(inside));
}

/// Keys of the reports need no escapes.
proof fn keys_are_plain()
    ensures
        is_plain("root"@),
        is_plain("workspaceKind"@),
        is_plain("workspacePackages"@),
        is_plain("count"@),
        is_plain("totalBytes"@),
        is_plain("failed"@),
        is_plain("cleaned"@),
        is_plain("path"@),
        is_plain("bytes"@),
        is_plain("deleted"@),
        is_plain("error"@),
{
    reveal_strlit("root");
    reveal_strlit("workspaceKind");
    reveal_strlit("workspacePackages");
    reveal_strlit("count");
    reveal_strlit("totalBytes");
    reveal_strlit("failed");
    reveal_strlit("cleaned");
    reveal_strlit("path");
    reveal_strlit("bytes");
    reveal_strlit("deleted");
    reveal_strlit("error");
}

/// What the report on a found directory says.
pub open spec fn found_value(found: FoundView, separator: u8) -> Json {
    Json::Object(
        seq![
            Member { key: "path"@, value: Json::Text(path_text(found.path, separator)) },
            Member { key: "bytes"@, value: Json::Number(found.bytes as nat) },
            Member { key: "deleted"@, value: Json::Truth(false) },
        ],
    )
}

/// What the report says of why a deletion failed.
pub open spec fn error_value(error: Option<Seq<char>>) -> Json {
    match error {
        Some(message) => Json::Text(message),
        None => Json::Null,
    }
}

/// What the report on an outcome says.
pub open spec fn result_value(result: ResultView, separator: u8) -> Json {
    Json::Object(
        seq![
            Member { key: "path"@, value: Json::Text(path_text(result.path, separator)) },
            Member { key: "deleted"@, value: Json::Truth(result.error is None) },
            Member { key: "error"@, value: error_value(result.error) },
        ],
    )
}

/// What the report on a scan says.
pub open spec fn scan_value(
    root: PathView,
    kind: WorkspaceKind,
    packages: Seq<PathView>,
    found: Seq<FoundView>,
    separator: u8,
) -> Json {
    Json::Object(
        seq![
            Member { key: "root"@, value: Json::Text(path_text(root, separator)) },
            Member { key: "workspaceKind"@, value: Json::Text(kind_text(kind)) },
            Member {
                key: "workspacePackages"@,
                value: Json::List(
                    packages.map_values(|p: PathView| Json::Text(path_text(p, separator))),
                ),
            },
            Member { key: "count"@, value: Json::Number(found.len()) },
            Member { key: "totalBytes"@, value: Json::Number(bytes_sum(found)) },
            Member {
                key: "cleaned"@,
                value: Json::List(found.map_values(|f: FoundView| found_value(f, separator))),
            },
        ],
    )
}

/// What the report on a deletion says.
pub open spec fn delete_value(results: Seq<ResultView>, separator: u8) -> Json {
    Json::Object(
        seq![
            Member { key: "count"@, value: Json::Number(results.len()) },
            Member { key: "failed"@, value: Json::Number(failures(results)) },
            Member {
                key: "cleaned"@,
                value: Json::List(results.map_values(|r: ResultView| result_value(r, separator))),
            },
        ],
    )
}

proof fn member_of_report(member: Member, text: Seq<char>, end: Seq<char>)
    requires
        is_plain(member.key),
        denotes(text, member.value),
        blank(end),
    ensures
        denotes_member(member_json(member.key, text) + end, member),
{
    reveal_strlit("\n  ");
    field_is_member("\n  "@, member.key, text, end, member.value);
}

proof fn next_member_of_report(
    before: Seq<char>,
    members: Seq<Member>,
    member: Member,
    text: Seq<char>,
)
    requires
        members.len() > 0,
        denotes_members(before, members),
        is_plain(member.key),
        denotes(text, member.value),
    ensures
        denotes_members(before + ","@ + member_json(member.key, text), members.push(member)),
{
    reveal_strlit(",");
    let none = Seq::<char>::empty();
    member_of_report(member, text, none);
    assert(member_json(member.key, text) + none =~= member_json(member.key, text));
    assert(","@ =~= seq![',']);
    one_more_member(before, members, member_json(member.key, text), member);
}

proof fn whole_report(
    before: Seq<char>,
    members: Seq<Member>,
    member: Member,
    text: Seq<char>,
)
    requires
        members.len() > 0,
        denotes_members(before, members),
        is_plain(member.key),
        denotes(text, member.value),
    ensures
        denotes_padded(
            "{"@ + before + ","@ + member_json(member.key, text) + "\n}\n"@,
            Json::Object(members.push(member)),
        ),
{
    reveal_strlit("{");
    reveal_strlit(",");
    reveal_strlit("\n}\n");
    let none = Seq::<char>::empty();
    let end = seq!['\n'];
    let last = member_json(member.key, text) + end;
    member_of_report(member, text, end);
    one_more_member(before, members, last, member);
    let inside = before + seq![','] + last;
    assert(denotes(braced(inside), Json::Object(members.push(member))));
    padding_changes_nothing(none, braced(inside), end, Json::Object(members.push(member)));
    assert("{"@ =~= seq!['{']);
    assert(","@ =~= seq![',']);
    assert("\n}\n"@ =~= end + seq!['}'] + end);
    assert("{"@ + before + ","@ + member_json(member.key, text) + "\n}\n"@ =~= none + braced(inside)
        + end);
}

proof fn brace_in_front(before: Seq<char>, text: Seq<char>)
    ensures
        "{"@ + (before + ","@ + text) =~= "{"@ + before + ","@ + text,
{
}

proof fn found_item_denotes(found: FoundView, separator: u8)
    ensures
        denotes(found_item_json(found, separator), found_value(found, separator)),
{
    keys_are_plain();
    let path = path_text(found.path, separator);
    text_json_denotes_text(path);
    item_denotes_object(
        Member { key: "path"@, value: Json::Text(path) },
        text_json(path),
        Member { key: "bytes"@, value: Json::Number(found.bytes as nat) },
        decimal(found.bytes as nat),
        Member { key: "deleted"@, value: Json::Truth(false) },
        "false"@,
    );
}

proof fn result_item_denotes(result: ResultView, separator: u8)
    ensures
        denotes(result_item_json(result, separator), result_value(result, separator)),
{
    keys_are_plain();
    let path = path_text(result.path, separator);
    let error = error_value(result.error);
    text_json_denotes_text(path);
    if result.error is Some {
        text_json_denotes_text(result.error->0);
    }
    assert(denotes(deleted_json(result.error), Json::Truth(result.error is None)));
    assert(denotes(error_json(result.error), error));
    item_denotes_object(
        Member { key: "path"@, value: Json::Text(path) },
        text_json(path),
        Member { key: "deleted"@, value: Json::Truth(result.error is None) },
        deleted_json(result.error),
        Member { key: "error"@, value: error },
        error_json(result.error),
    );
}

proof fn packages_denote(packages: Seq<PathView>, separator: u8)
    ensures
        denotes(
            list_json(packages_json(packages, separator)),
            Json::List(packages.map_values(|p: PathView| Json::Text(path_text(p, separator)))),
        ),
{
    let texts = packages_json(packages, separator);
    let values = packages.map_values(|p: PathView| Json::Text(path_text(p, separator)));
    assert forall|i: int| 0 <= i < texts.len() implies denotes(#[trigger] texts[i], values[i]) by {
        text_json_denotes_text(path_text(packages[i], separator));
    }
    list_json_denotes_list(texts, values);
}

proof fn found_denote(found: Seq<FoundView>, separator: u8)
    ensures
        denotes(
            list_json(found_json(found, separator)),
            Json::List(found.map_values(|f: FoundView| found_value(f, separator))),
        ),
{
    let texts = found_json(found, separator);
    let values = found.map_values(|f: FoundView| found_value(f, separator));
    assert forall|i: int| 0 <= i < texts.len() implies denotes(#[trigger] texts[i], values[i]) by {
        found_item_denotes(found[i], separator);
    }
    list_json_denotes_list(texts, values);
}

proof fn results_denote(results: Seq<ResultView>, separator: u8)
    ensures
        denotes(
            list_json(results_json(results, separator)),
            Json::List(results.map_values(|r: ResultView| result_value(r, separator))),
        ),
{
    let texts = results_json(results, separator);
    let values = results.map_values(|r: ResultView| result_value(r, separator));
    assert forall|i: int| 0 <= i < texts.len() implies denotes(#[trigger] texts[i], values[i]) by {
        result_item_denotes(results[i], separator);
    }
    list_json_denotes_list(texts, values);
}

proof fn first_member_of_report(member: Member, text: Seq<char>)
    requires
        is_plain(member.key),
        denotes(text, member.value),
    ensures
        denotes_members(member_json(member.key, text), seq![member]),
{
    let none = Seq::<char>::empty();
    member_of_report(member, text, none);
    assert(member_json(member.key, text) + none =~= member_json(member.key, text));
}

proof fn kind_denotes(kind: WorkspaceKind)
    ensures
        denotes(quoted(kind_text(kind)), Json::Text(kind_text(kind))),
{
    reveal_strlit("none");
    reveal_strlit("package.json");
    reveal_strlit("pnpm");
    plain_text_denotes_itself(kind_text(kind));
}

/// The JSON report on a scan is well-formed JSON and says what was found.
pub proof fn scan_json_is_json(
    root: PathView,
    kind: WorkspaceKind,
    packages: Seq<PathView>,
    found: Seq<FoundView>,
    separator: u8,
)
    ensures
        denotes_padded(
            scan_json_text(root, kind, packages, found, separator),
            scan_value(root, kind, packages, found, separator),
        ),
{
    keys_are_plain();
    let m = scan_value(root, kind, packages, found, separator)->Object_0;
    let v0 = text_json(path_text(root, separator));
    let v1 = quoted(kind_text(kind));
    let v2 = list_json(packages_json(packages, separator));
    let v3 = decimal(found.len());
    let v4 = decimal(bytes_sum(found));
    let v5 = list_json(found_json(found, separator));
    text_json_denotes_text(path_text(root, separator));
    kind_denotes(kind);
    packages_denote(packages, separator);
    found_denote(found, separator);
    let t0 = member_json("root"@, v0);
    let t1 = t0 + ","@ + member_json("workspaceKind"@, v1);
    let t2 = t1 + ","@ + member_json("workspacePackages"@, v2);
    let t3 = t2 + ","@ + member_json("count"@, v3);
    let t4 = t3 + ","@ + member_json("totalBytes"@, v4);
    let m0 = seq![m[0]];
    let m1 = m0.push(m[1]);
    let m2 = m1.push(m[2]);
    let m3 = m2.push(m[3]);
    let m4 = m3.push(m[4]);
    first_member_of_report(m[0], v0);
    next_member_of_report(t0, m0, m[1], v1);
    next_member_of_report(t1, m1, m[2], v2);
    next_member_of_report(t2, m2, m[3], v3);
    next_member_of_report(t3, m3, m[4], v4);
    whole_report(t4, m4, m[5], v5);
    brace_in_front(t0, member_json("workspaceKind"@, v1));
    brace_in_front(t1, member_json("workspacePackages"@, v2));
    brace_in_front(t2, member_json("count"@, v3));
    brace_in_front(t3, member_json("totalBytes"@, v4));
    assert(m4.push(m[5]) =~= m);
}

/// The JSON report on a deletion is well-formed JSON and says what became of each directory.
pub proof fn delete_json_is_json(results: Seq<ResultView>, separator: u8)
    ensures
        denotes_padded(
            delete_json_text(results, separator),
            delete_value(results, separator),
        ),
{
    keys_are_plain();
    let m = delete_value(results, separator)->Object_0;
    let v0 = decimal(results.len());
    let v1 = decimal(failures(results));
    let v2 = list_json(results_json(results, separator));
    results_denote(results, separator);
    let t0 = member_json("count"@, v0);
    let t1 = t0 + ","@ + member_json("failed"@, v1);
    let m0 = seq![m[0]];
    let m1 = m0.push(m[1]);
    first_member_of_report(m[0], v0);
    next_member_of_report(t0, m0, m[1], v1);
    whole_report(t1, m1, m[2], v2);
    brace_in_front(t0, member_json("failed"@, v1));
    assert(m1.push(m[2]) =~= m);
}

} // verus!
