//! Reports in JSON: what they say.

use vstd::prelude::*;

use crate::disposal::ResultView;
use crate::finder::FoundView;
use crate::json::{
    denotes, denotes_padded, escape_char, escaped, field_json, items_json, list_json, quoted,
    text_json, unescaped, Json, Member,
};
use crate::path::{path_text, PathView};
use crate::report::{
    bytes_sum, delete_json_is_json, delete_json_text, delete_value, failures, found_value,
    result_value, scan_json_is_json, scan_json_text, scan_value,
};
use crate::text::decimal;
use crate::workspace::{kind_text, WorkspaceKind};

verus! {

/// The hexadecimal digit for a number below 16.
pub open spec fn is_hex(c: char, n: nat) -> bool {
    c as int == if n < 10 {
        '0' as int + n
    } else {
        'a' as int + n - 10
    }
}

/// Each character is escaped by itself: quotation marks and backslashes with a backslash, the ends of
/// lines and tabs by their letters, other control characters by their number; all others stay.
pub proof fn one_more_character_is_escaped(s: Seq<char>, c: char)
    ensures
        escaped(Seq::empty()) == Seq::<char>::empty(),
        c == '"' ==> escaped(s.push(c)) == escaped(s) + seq!['\\', '"'],
        c == '\\' ==> escaped(s.push(c)) == escaped(s) + seq!['\\', '\\'],
        c == '\n' ==> escaped(s.push(c)) == escaped(s) + seq!['\\', 'n'],
        c == '\r' ==> escaped(s.push(c)) == escaped(s) + seq!['\\', 'r'],
        c == '\t' ==> escaped(s.push(c)) == escaped(s) + seq!['\\', 't'],
        c as nat >= 32 && c != '"' && c != '\\' ==> escaped(s.push(c)) == escaped(s).push(c),
        (c as nat) < 32 && c != '\n' && c != '\r' && c != '\t' ==> exists|a: char, b: char|
            #![trigger is_hex(a, c as nat / 16), is_hex(b, c as nat % 16)]
            is_hex(a, c as nat / 16) && is_hex(b, c as nat % 16) && escaped(s.push(c)) == escaped(s)
                + seq!['\\', 'u', '0', '0', a, b],
{
    assert(s.push(c).drop_last() =~= s);
    assert(escaped(s.push(c)) == escaped(s) + escape_char(c));
    if c as nat >= 32 && c != '"' && c != '\\' {
        assert(escaped(s) + seq![c] =~= escaped(s).push(c));
    }
    if (c as nat) < 32 && c != '\n' && c != '\r' && c != '\t' {
        let a = escape_char(c)[4];
        let b = escape_char(c)[5];
        assert('0' as nat == 48 && 'a' as nat == 97);
        assert(is_hex(a, c as nat / 16));
        assert(is_hex(b, c as nat % 16));
        assert(escaped(s.push(c)) =~= escaped(s) + seq!['\\', 'u', '0', '0', a, b]);
    }
}

/// An escaped text holds no control character and no quotation mark without a backslash before it.
pub proof fn escaped_texts_have_no_control_characters(s: Seq<char>)
    ensures
        forall|i: int| 0 <= i < escaped(s).len() ==> (#[trigger] escaped(s)[i]) as nat >= 32,
        forall|i: int|
            0 <= i < escaped(s).len() && #[trigger] escaped(s)[i] == '"' ==> i > 0 && escaped(s)[i
                - 1] == '\\',
    decreases s.len(),
{
    if s.len() > 0 {
        let before = s.drop_last();
        let c = s.last();
        escaped_texts_have_no_control_characters(before);
        let tail = escape_char(c);
        assert(escaped(s) == escaped(before) + tail);
        assert forall|i: int| 0 <= i < escaped(s).len() implies (#[trigger] escaped(s)[i]) as nat
            >= 32 by {
            if i < escaped(before).len() {
                assert(escaped(s)[i] == escaped(before)[i]);
            } else {
                assert(escaped(s)[i] == tail[i - escaped(before).len()]);
            }
        }
        assert forall|i: int|
            0 <= i < escaped(s).len() && #[trigger] escaped(s)[i] == '"' implies i > 0 && escaped(
            s,
        )[i - 1] == '\\' by {
            if i < escaped(before).len() {
                assert(escaped(before)[i] == '"');
                assert(escaped(s)[i - 1] == escaped(before)[i - 1]);
            } else {
                let k = i - escaped(before).len();
                assert(tail[k] == '"');
                assert(c == '"' && k == 1);
                assert(escaped(s)[i - 1] == tail[0]);
            }
        }
    }
}

/// Texts are quoted and escaped, keys are quoted and followed by a colon.
pub proof fn texts_are_quoted(text: Seq<char>, key: Seq<char>, value: Seq<char>)
    ensures
        text_json(text) == seq!['"'] + escaped(text) + seq!['"'],
        quoted(text) == seq!['"'] + text + seq!['"'],
        field_json(key, value) == seq!['"'] + key + seq!['"'] + ": "@ + value,
{
}

/// The items of a list stand one after the other, each on a line of its own, with commas between
/// them.
pub proof fn one_more_item_is_listed(items: Seq<Seq<char>>, last: Seq<char>)
    ensures
        list_json(Seq::empty()) == seq!['[', ']'],
        items_json(seq![last]) == "\n    "@ + last,
        items.len() > 0 ==> items_json(items.push(last)) == items_json(items) + ","@ + "\n    "@
            + last,
        list_json(items.push(last)) == "["@ + items_json(items.push(last)) + "\n  ]"@,
{
    reveal_strlit(",");
    reveal_strlit("[");
    reveal_strlit("\n  ");
    reveal_strlit("\n  ]");
    assert(list_json(Seq::empty()) =~= seq!['[', ']']);
    assert(list_json(items.push(last)) =~= "["@ + items_json(items.push(last)) + "\n  ]"@);
    if items.len() > 0 {
        assert(items.push(last).drop_last() =~= items);
        assert(items_json(items.push(last)) =~= items_json(items) + ","@ + "\n    "@ + last);
    }
}

/// A JSON number is decimal, a JSON text is what its inside stands for, and the words are `null`,
/// `true` and `false`.
pub proof fn json_values_are_written_as_they_are(s: Seq<char>, n: nat, text: Seq<char>)
    ensures
        denotes(s, Json::Null) <==> s == "null"@,
        denotes(s, Json::Truth(true)) <==> s == "true"@,
        denotes(s, Json::Truth(false)) <==> s == "false"@,
        denotes(s, Json::Number(n)) <==> s == decimal(n),
        denotes(s, Json::Text(text)) ==> exists|inside: Seq<char>|
            s == #[trigger] quoted(inside) && unescaped(inside) == Some(text),
{
}

/// The report on a scan is a JSON object that tells the root, the kind, the packages, how many
/// directories were found, the sum of their bytes and, of each of them in order, the path, the bytes
/// and that it is not deleted.
pub proof fn scans_are_reported_in_full(
    root: PathView,
    kind: WorkspaceKind,
    packages: Seq<PathView>,
    found: Seq<FoundView>,
    separator: u8,
)
    ensures
        denotes_padded(
            scan_json_text(root, kind, packages, found, separator),
            Json::Object(
                seq![
                    Member { key: "root"@, value: Json::Text(path_text(root, separator)) },
                    Member { key: "workspaceKind"@, value: Json::Text(kind_text(kind)) },
                    Member {
                        key: "workspacePackages"@,
                        value: Json::List(
                            Seq::new(
                                packages.len(),
                                |i: int| Json::Text(path_text(packages[i], separator)),
                            ),
                        ),
                    },
                    Member { key: "count"@, value: Json::Number(found.len()) },
                    Member { key: "totalBytes"@, value: Json::Number(bytes_sum(found)) },
                    Member {
                        key: "cleaned"@,
                        value: Json::List(
                            Seq::new(
                                found.len(),
                                |i: int|
                                    Json::Object(
                                        seq![
                                            Member {
                                                key: "path"@,
                                                value: Json::Text(
                                                    path_text(found[i].path, separator),
                                                ),
                                            },
                                            Member {
                                                key: "bytes"@,
                                                value: Json::Number(found[i].bytes as nat),
                                            },
                                            Member {
                                                key: "deleted"@,
                                                value: Json::Truth(false),
                                            },
                                        ],
                                    ),
                            ),
                        ),
                    },
                ],
            ),
        ),
{
    scan_json_is_json(root, kind, packages, found, separator);
    let listed = Seq::new(
        packages.len(),
        |i: int| Json::Text(path_text(packages[i], separator)),
    );
    let cleaned = Seq::new(
        found.len(),
        |i: int|
            Json::Object(
                seq![
                    Member { key: "path"@, value: Json::Text(path_text(found[i].path, separator)) },
                    Member { key: "bytes"@, value: Json::Number(found[i].bytes as nat) },
                    Member { key: "deleted"@, value: Json::Truth(false) },
                ],
            ),
    );
    assert(listed =~= packages.map_values(|p: PathView| Json::Text(path_text(p, separator))));
    assert(cleaned =~= found.map_values(|f: FoundView| found_value(f, separator)));
    let members = seq![
        Member { key: "root"@, value: Json::Text(path_text(root, separator)) },
        Member { key: "workspaceKind"@, value: Json::Text(kind_text(kind)) },
        Member { key: "workspacePackages"@, value: Json::List(listed) },
        Member { key: "count"@, value: Json::Number(found.len()) },
        Member { key: "totalBytes"@, value: Json::Number(bytes_sum(found)) },
        Member { key: "cleaned"@, value: Json::List(cleaned) },
    ];
    assert(scan_value(root, kind, packages, found, separator)->Object_0 =~= members);
}

/// The report on a deletion is a JSON object that tells how many outcomes there are, how many of them
/// carry an error and, of each of them in order, the path, whether it was deleted and the error.
pub proof fn deletions_are_reported_in_full(results: Seq<ResultView>, separator: u8)
    ensures
        denotes_padded(
            delete_json_text(results, separator),
            Json::Object(
                seq![
                    Member { key: "count"@, value: Json::Number(results.len()) },
                    Member { key: "failed"@, value: Json::Number(failures(results)) },
                    Member {
                        key: "cleaned"@,
                        value: Json::List(
                            Seq::new(
                                results.len(),
                                |i: int|
                                    Json::Object(
                                        seq![
                                            Member {
                                                key: "path"@,
                                                value: Json::Text(
                                                    path_text(results[i].path, separator),
                                                ),
                                            },
                                            Member {
                                                key: "deleted"@,
                                                value: Json::Truth(results[i].error is None),
                                            },
                                            Member {
                                                key: "error"@,
                                                value: if results[i].error is Some {
                                                    Json::Text(results[i].error->0)
                                                } else {
                                                    Json::Null
                                                },
                                            },
                                        ],
                                    ),
                            ),
                        ),
                    },
                ],
            ),
        ),
{
    delete_json_is_json(results, separator);
    let cleaned = Seq::new(
        results.len(),
        |i: int|
            Json::Object(
                seq![
                    Member {
                        key: "path"@,
                        value: Json::Text(path_text(results[i].path, separator)),
                    },
                    Member { key: "deleted"@, value: Json::Truth(results[i].error is None) },
                    Member {
                        key: "error"@,
                        value: if results[i].error is Some {
                            Json::Text(results[i].error->0)
                        } else {
                            Json::Null
                        },
                    },
                ],
            ),
    );
    assert(cleaned =~= results.map_values(|r: ResultView| result_value(r, separator)));
    let members = seq![
        Member { key: "count"@, value: Json::Number(results.len()) },
        Member { key: "failed"@, value: Json::Number(failures(results)) },
        Member { key: "cleaned"@, value: Json::List(cleaned) },
    ];
    assert(delete_value(results, separator)->Object_0 =~= members);
}

} // verus!
